//! Shard handling for the combine step: parsing shard file names that
//! encode a starting block number and a shard length, ordering shards,
//! validating that they cover a contiguous block range, and the block-range
//! filters applied while splicing.

use vstd::prelude::*;
use vstd::seq_lib::lemma_multiset_commutative;

verus! {

/// Whether the byte is an ASCII decimal digit.
pub open spec fn is_digit(b: u8) -> bool {
    0x30 <= b <= 0x39
}

/// Whether every byte of the sequence is an ASCII decimal digit.
pub open spec fn all_digits(s: Seq<u8>) -> bool {
    forall|i: int| 0 <= i < s.len() ==> is_digit(#[trigger] s[i])
}

/// The number a run of decimal digits denotes.
pub open spec fn digits_val(s: Seq<u8>) -> nat
    decreases s.len(),
{
    if s.len() == 0 {
        0
    } else {
        digits_val(s.drop_last()) * 10 + (s.last() - 0x30) as nat
    }
}

/// The bytes of the shard file suffix.
pub open spec fn trace_suffix() -> Seq<u8> {
    seq![0x2eu8, 0x74u8, 0x72u8, 0x61u8, 0x63u8, 0x65u8]
}

/// Whether `s` is a well-formed shard file name split at position `i`: a
/// non-empty digit run, an underscore at `i`, a second non-empty digit
/// run, and the shard suffix.
pub open spec fn is_shard_name_at(s: Seq<u8>, i: int) -> bool {
    &&& 1 <= i
    &&& i + 8 <= s.len()
    &&& s[i] == 0x5f
    &&& all_digits(s.subrange(0, i))
    &&& all_digits(s.subrange(i + 1, s.len() - 6))
    &&& s.subrange(s.len() - 6, s.len() as int) == trace_suffix()
}

/// The starting block number and shard length a shard file name encodes,
/// if the name is well formed and both numbers fit in 64 bits.
pub open spec fn shard_name_spec(s: Seq<u8>) -> Option<(nat, nat)> {
    if exists|i: int| is_shard_name_at(s, i) {
        let i = choose|i: int| is_shard_name_at(s, i);
        Some((digits_val(s.subrange(0, i)), digits_val(s.subrange(i + 1, s.len() - 6))))
    } else {
        None
    }
}

/// A well-formed shard name has exactly one underscore position at which
/// it splits: the digit runs hold no underscore.
proof fn lemma_shard_split_unique(s: Seq<u8>, i: int, j: int)
    requires
        is_shard_name_at(s, i),
        is_shard_name_at(s, j),
    ensures
        i == j,
{
    if i < j {
        assert(is_digit(s.subrange(j + 1, s.len() - 6)[i - j - 1]) || is_digit(
            s.subrange(0, j)[i],
        ));
    }
    if j < i {
        assert(is_digit(s.subrange(j + 1, s.len() - 6)[j - i - 1]) || is_digit(
            s.subrange(0, i)[j],
        ));
    }
}

/// Parses one run of decimal digits, left to right, refusing values that
/// do not fit in 64 bits.
fn parse_digits(s: &Vec<u8>, from: usize, to: usize) -> (r: Option<u64>)
    requires
        from <= to <= s@.len(),
        all_digits(s@.subrange(from as int, to as int)),
    ensures
        r is Some ==> r->Some_0 == digits_val(s@.subrange(from as int, to as int)),
        r is None ==> digits_val(s@.subrange(from as int, to as int)) > u64::MAX,
{
    let mut v: u64 = 0;
    let mut i: usize = from;
    proof {
        assert(s@.subrange(from as int, from as int) =~= Seq::<u8>::empty());
    }
    while i < to
        invariant
            from <= i <= to <= s@.len(),
            all_digits(s@.subrange(from as int, to as int)),
            v == digits_val(s@.subrange(from as int, i as int)),
        decreases to - i,
    {
        let d = s[i];
        proof {
            assert(s@.subrange(from as int, to as int)[i - from] == s@[i as int]);
            assert(s@.subrange(from as int, i + 1).drop_last() =~= s@.subrange(
                from as int,
                i as int,
            ));
            assert(s@.subrange(from as int, i + 1).last() == s@[i as int]);
        }
        if v > (u64::MAX - (d - 0x30) as u64) / 10 {
            proof {
                let full = s@.subrange(from as int, to as int);
                assert(full.take(i - from + 1) =~= s@.subrange(from as int, i + 1));
                lemma_digits_val_grows(full, i - from + 1);
            }
            return None;
        }
        v = v * 10 + (d - 0x30) as u64;
        i += 1;
    }
    proof {
        assert(s@.subrange(from as int, i as int) =~= s@.subrange(from as int, to as int));
    }
    Some(v)
}

/// A longer digit run denotes at least what its prefix denotes.
proof fn lemma_digits_val_grows(s: Seq<u8>, n: int)
    requires
        0 <= n <= s.len(),
    ensures
        digits_val(s) >= digits_val(s.take(n)),
    decreases s.len() - n,
{
    if n < s.len() {
        lemma_digits_val_grows(s, n + 1);
        assert(s.take(n + 1).drop_last() =~= s.take(n));
        assert(digits_val(s.take(n + 1)) >= digits_val(s.take(n)));
        assert(s.take(s.len() as int) =~= s);
    } else {
        assert(s.take(n) =~= s);
    }
}

/// Parses a shard file name of the form `<start>_<length>.trace`. Returns
/// the starting block number and shard length, or nothing when the name
/// has another shape or a number does not fit in 64 bits.
pub fn parse_shard_name(name: &Vec<u8>) -> (r: Option<(u64, u64)>)
    ensures
        r is Some ==> shard_name_spec(name@) is Some && shard_name_spec(name@)->Some_0.0
            == r->Some_0.0 as nat && shard_name_spec(name@)->Some_0.1 == r->Some_0.1 as nat,
        r is None ==> shard_name_spec(name@) is None || shard_name_spec(name@)->Some_0.0
            > u64::MAX || shard_name_spec(name@)->Some_0.1 > u64::MAX,
{
    let n = name.len();
    if n < 8 {
        proof {
            assert(forall|i: int| !is_shard_name_at(name@, i));
        }
        return None;
    }
    // The suffix ".trace".
    if !(name[n - 6] == 0x2e && name[n - 5] == 0x74 && name[n - 4] == 0x72 && name[n - 3]
        == 0x61 && name[n - 2] == 0x63 && name[n - 1] == 0x65) {
        proof {
            assert forall|i: int| !is_shard_name_at(name@, i) by {
                if is_shard_name_at(name@, i) {
                    assert(name@.subrange(n - 6, n as int)[0] == name@[n - 6]);
                    assert(name@.subrange(n - 6, n as int)[1] == name@[n - 5]);
                    assert(name@.subrange(n - 6, n as int)[2] == name@[n - 4]);
                    assert(name@.subrange(n - 6, n as int)[3] == name@[n - 3]);
                    assert(name@.subrange(n - 6, n as int)[4] == name@[n - 2]);
                    assert(name@.subrange(n - 6, n as int)[5] == name@[n - 1]);
                }
            }
        }
        return None;
    }
    // The first digit run, then the underscore.
    let mut i: usize = 0;
    while i < n - 6 && name[i] >= 0x30 && name[i] <= 0x39
        invariant
            i <= n - 6,
            n == name@.len(),
            8 <= n,
            forall|m: int| 0 <= m < i ==> is_digit(#[trigger] name@[m]),
        decreases n - i,
    {
        i += 1;
    }
    if i == 0 || i >= n - 7 || !(name[i] == 0x5f) {
        proof {
            assert forall|m: int| !is_shard_name_at(name@, m) by {
                if is_shard_name_at(name@, m) {
                    assert(forall|x: int|
                        0 <= x < m ==> is_digit(#[trigger] name@.subrange(0, m)[x]));
                    assert forall|x: int| 0 <= x < m implies is_digit(#[trigger] name@[x]) by {
                        assert(name@.subrange(0, m)[x] == name@[x]);
                    }
                    if m < i {
                        assert(is_digit(name@[m]));
                        assert(name@[m] == 0x5f);
                    } else if m > i {
                        assert(name@.subrange(0, m)[i as int] == name@[i as int]);
                        if i < n - 6 {
                            assert(is_digit(name@[i as int]));
                        }
                    }
                }
            }
        }
        return None;
    }
    // The second digit run.
    let mut j: usize = i + 1;
    while j < n - 6 && name[j] >= 0x30 && name[j] <= 0x39
        invariant
            i + 1 <= j <= n - 6,
            n == name@.len(),
            8 <= n,
            forall|m: int| i + 1 <= m < j ==> is_digit(#[trigger] name@[m]),
        decreases n - j,
    {
        j += 1;
    }
    if j < n - 6 {
        proof {
            assert forall|m: int| !is_shard_name_at(name@, m) by {
                if is_shard_name_at(name@, m) {
                    lemma_name_at_is_i(name@, m, i as int);
                    assert(name@.subrange(m + 1, n - 6)[j - m - 1] == name@[j as int]);
                    assert(is_digit(name@[j as int]));
                }
            }
        }
        return None;
    }
    proof {
        assert(name@.subrange(n - 6, n as int) =~= trace_suffix());
        assert(forall|x: int|
            0 <= x < i ==> is_digit(#[trigger] name@.subrange(0, i as int)[x]));
        assert(forall|x: int|
            0 <= x < n - 6 - i - 1 ==> is_digit(
                #[trigger] name@.subrange(i + 1, n - 6)[x],
            ));
        assert(is_shard_name_at(name@, i as int));
    }
    let a = parse_digits(name, 0, i);
    let b = parse_digits(name, i + 1, n - 6);
    proof {
        let w = choose|m: int| is_shard_name_at(name@, m);
        lemma_shard_split_unique(name@, w, i as int);
    }
    match (a, b) {
        (Some(x), Some(y)) => Some((x, y)),
        _ => None,
    }
}

/// Any well-formed split position equals the end of the leading digit run
/// found by the parser.
proof fn lemma_name_at_is_i(s: Seq<u8>, m: int, i: int)
    requires
        is_shard_name_at(s, m),
        0 <= i < s.len(),
        s[i] == 0x5f,
        forall|x: int| 0 <= x < i ==> is_digit(#[trigger] s[x]),
    ensures
        m == i,
{
    assert(forall|x: int| 0 <= x < m ==> is_digit(#[trigger] s.subrange(0, m)[x]));
    assert forall|x: int| 0 <= x < m implies is_digit(#[trigger] s[x]) by {
        assert(s.subrange(0, m)[x] == s[x]);
    }
    if m < i {
        assert(is_digit(s[m]));
    }
    if i < m {
        assert(is_digit(s[i]));
    }
}

/// Whether consecutive shards, already ordered by starting block, cover a
/// contiguous range: each shard ends exactly where the next begins.
pub open spec fn contiguous_spec(shards: Seq<(u64, u64)>) -> bool {
    forall|i: int|
        0 <= i < shards.len() - 1 ==> (#[trigger] shards[i]).0 + shards[i].1 == shards[i + 1].0
}

/// Checks that ordered shards cover a contiguous block range, with no gap
/// and no overlap.
pub fn check_contiguous(shards: &Vec<(u64, u64)>) -> (r: bool)
    ensures
        r <==> contiguous_spec(shards@),
{
    if shards.len() == 0 {
        return true;
    }
    let mut i: usize = 0;
    while i < shards.len() - 1
        invariant
            i <= shards@.len() - 1,
            shards@.len() >= 1,
            forall|m: int| 0 <= m < i ==> (#[trigger] shards@[m]).0 + shards@[m].1 == shards@[m + 1].0,
        decreases shards@.len() - i,
    {
        let (s, l) = shards[i];
        let next = shards[i + 1].0;
        if !(l <= u64::MAX - s && s + l == next) {
            return false;
        }
        i += 1;
    }
    true
}

/// Whether the shards are ordered by starting block.
pub open spec fn sorted_by_start(shards: Seq<(u64, u64, usize)>) -> bool {
    forall|i: int, j: int| 0 <= i < j < shards.len() ==> (#[trigger] shards[i]).0 <= (
    #[trigger] shards[j]).0
}

/// Orders shards by starting block number (insertion sort); the result
/// holds exactly the given shards.
pub fn sort_shards(shards: &Vec<(u64, u64, usize)>) -> (r: Vec<(u64, u64, usize)>)
    ensures
        sorted_by_start(r@),
        r@.to_multiset() == shards@.to_multiset(),
{
    let mut out: Vec<(u64, u64, usize)> = Vec::new();
    let mut i: usize = 0;
    proof {
        assert(shards@.take(0) =~= Seq::<(u64, u64, usize)>::empty());
        shards@.take(0).to_multiset_ensures();
        Seq::<(u64, u64, usize)>::empty().to_multiset_ensures();
    }
    while i < shards.len()
        invariant
            i <= shards@.len(),
            sorted_by_start(out@),
            out@.to_multiset() == shards@.take(i as int).to_multiset(),
        decreases shards@.len() - i,
    {
        let x = shards[i];
        // Find the insertion position.
        let mut p: usize = 0;
        while p < out.len() && out[p].0 <= x.0
            invariant
                p <= out@.len(),
                forall|m: int| 0 <= m < p ==> (#[trigger] out@[m]).0 <= x.0,
            decreases out@.len() - p,
        {
            p += 1;
        }
        let ghost pre = out@;
        out.insert(p, x);
        i += 1;
        proof {
            assert forall|a: int, b: int|
                0 <= a < b < out@.len() implies (#[trigger] out@[a]).0 <= (
            #[trigger] out@[b]).0 by {
                if b < p {
                    assert(out@[a] == pre[a] && out@[b] == pre[b]);
                } else if a > p {
                    assert(out@[a] == pre[a - 1] && out@[b] == pre[b - 1]);
                } else if a == p {
                    assert(out@[b] == pre[b - 1]);
                    assert(pre[b - 1].0 >= x.0) by {
                        if pre[b - 1].0 < x.0 {
                            assert(sorted_by_start(pre));
                            assert(pre[p as int].0 <= pre[b - 1].0);
                        }
                    }
                } else if b == p {
                    assert(out@[a] == pre[a]);
                } else {
                    assert(a < p && b > p);
                    assert(out@[a] == pre[a] && out@[b] == pre[b - 1]);
                    assert(pre[b - 1].0 >= x.0) by {
                        if pre[b - 1].0 < x.0 {
                            assert(pre[p as int].0 <= pre[b - 1].0);
                        }
                    }
                }
            }
            lemma_insert_multiset(pre, p as int, x);
            assert(shards@.take(i as int).drop_last() =~= shards@.take(i - 1));
            shards@.take(i as int).to_multiset_ensures();
            assert(shards@.take(i as int) =~= shards@.take(i - 1).push(x));
            shards@.take(i - 1).to_multiset_ensures();
        }
    }
    proof {
        assert(shards@.take(shards@.len() as int) =~= shards@);
    }
    out
}

/// Inserting an element anywhere adds exactly that element to the
/// sequence's multiset.
proof fn lemma_insert_multiset(s: Seq<(u64, u64, usize)>, p: int, x: (u64, u64, usize))
    requires
        0 <= p <= s.len(),
    ensures
        s.insert(p, x).to_multiset() == s.to_multiset().insert(x),
{
    broadcast use vstd::multiset::group_multiset_axioms;

    assert(s.insert(p, x) =~= s.take(p).push(x) + s.skip(p));
    lemma_multiset_commutative(s.take(p).push(x), s.skip(p));
    lemma_multiset_commutative(s.take(p), s.skip(p));
    s.take(p).to_multiset_ensures();
    assert(s.take(p) + s.skip(p) =~= s);
    assert(s.insert(p, x).to_multiset() =~= s.to_multiset().insert(x));
}

/// Whether a shard starting at `start` with `len` blocks overlaps the
/// optional inclusive lower and exclusive upper block bounds.
pub fn file_in_range(start: u64, len: u64, lo: Option<u64>, hi: Option<u64>) -> (r: bool)
    requires
        start + len <= u64::MAX,
    ensures
        r <==> (match lo {
            Some(l) => start + len > l,
            None => true,
        } && match hi {
            Some(h) => start < h,
            None => true,
        }),
{
    let lo_ok = match lo {
        Some(l) => start + len > l,
        None => true,
    };
    let hi_ok = match hi {
        Some(h) => start < h,
        None => true,
    };
    lo_ok && hi_ok
}

/// Whether block number `b` falls inside the optional inclusive lower and
/// exclusive upper bounds.
pub fn block_in_range(b: u64, lo: Option<u64>, hi: Option<u64>) -> (r: bool)
    ensures
        r <==> (match lo {
            Some(l) => b >= l,
            None => true,
        } && match hi {
            Some(h) => b < h,
            None => true,
        }),
{
    let lo_ok = match lo {
        Some(l) => b >= l,
        None => true,
    };
    let hi_ok = match hi {
        Some(h) => b < h,
        None => true,
    };
    lo_ok && hi_ok
}

} // verus!
