//! The two-pass access-reduction engine: a global first-touch pass that
//! seeds the benchmarked store's initial state, and a per-block pass that
//! compacts each block's accesses to one warming read and one final write
//! per storage cell.

use rand::seq::SliceRandom;
use vstd::prelude::*;
use crate::keys::{digest_spec, DBAccess, SlotKey};
use crate::word::{w256_be_seq, W256};

verus! {

/// The reduced, schema-opaque unit of replay work: warm a cell by digest,
/// or write the given 32-byte value to it.
#[derive(Clone, Debug, PartialEq, Eq)]
pub enum ExperimentTask {
    Read(Vec<u8>),
    Write(Vec<u8>, Vec<u8>),
}

/// A replay task with its byte vectors abstracted to sequences.
pub enum TaskView {
    Read(Seq<u8>),
    Write(Seq<u8>, Seq<u8>),
}

/// The abstract value of one replay task.
pub open spec fn task_view(t: ExperimentTask) -> TaskView {
    match t {
        ExperimentTask::Read(d) => TaskView::Read(d@),
        ExperimentTask::Write(d, v) => TaskView::Write(d@, v@),
    }
}

/// The abstract values of a task list.
pub open spec fn tasks_view(s: Seq<ExperimentTask>) -> Seq<TaskView> {
    s.map_values(|t: ExperimentTask| task_view(t))
}

/// The transactions of one block as access sequences.
pub open spec fn txs_view(b: Seq<Vec<DBAccess>>) -> Seq<Seq<DBAccess>> {
    b.map_values(|t: Vec<DBAccess>| t@)
}

/// A whole log as per-block groups of access sequences.
pub open spec fn log_view(l: Seq<Vec<Vec<DBAccess>>>) -> Seq<Seq<Seq<DBAccess>>> {
    l.map_values(|b: Vec<Vec<DBAccess>>| txs_view(b@))
}

/// One block's transactions merged into a single access sequence, in
/// encounter order.
pub open spec fn flatten_txs(b: Seq<Seq<DBAccess>>) -> Seq<DBAccess>
    decreases b.len(),
{
    if b.len() == 0 {
        Seq::empty()
    } else {
        flatten_txs(b.drop_last()) + b.last()
    }
}

/// The complete chronological flattening of a log: block order, then
/// transaction order, then access order.
pub open spec fn flatten_log(l: Seq<Seq<Seq<DBAccess>>>) -> Seq<DBAccess>
    decreases l.len(),
{
    if l.len() == 0 {
        Seq::empty()
    } else {
        flatten_log(l.drop_last()) + flatten_txs(l.last())
    }
}

/// The set of storage cells an access sequence touches.
pub open spec fn keys_of(s: Seq<DBAccess>) -> Set<SlotKey>
    decreases s.len(),
{
    if s.len() == 0 {
        Set::empty()
    } else {
        keys_of(s.drop_last()).insert(s.last().key())
    }
}

/// The initial-state snapshot of an access sequence, in first-touch
/// order: a cell enters at most once, exactly when its first access in
/// chronological order is a read of a non-zero value.
pub open spec fn frontier_spec(s: Seq<DBAccess>) -> Seq<(SlotKey, W256)>
    decreases s.len(),
{
    if s.len() == 0 {
        Seq::empty()
    } else {
        let p = frontier_spec(s.drop_last());
        let a = s.last();
        if keys_of(s.drop_last()).contains(a.key()) {
            p
        } else if a.is_read() && a.value().val() != 0 {
            p.push((a.key(), a.value()))
        } else {
            p
        }
    }
}

/// The distinct storage cells of an access sequence, in order of first
/// occurrence.
pub open spec fn distinct_keys(s: Seq<DBAccess>) -> Seq<SlotKey>
    decreases s.len(),
{
    if s.len() == 0 {
        Seq::empty()
    } else {
        let p = distinct_keys(s.drop_last());
        if p.contains(s.last().key()) {
            p
        } else {
            p.push(s.last().key())
        }
    }
}

/// The first access a sequence makes to cell `k`, if any.
pub open spec fn first_access(s: Seq<DBAccess>, k: SlotKey) -> Option<DBAccess>
    decreases s.len(),
{
    if s.len() == 0 {
        None
    } else {
        let p = first_access(s.drop_last(), k);
        if p is Some {
            p
        } else if s.last().key() == k {
            Some(s.last())
        } else {
            None
        }
    }
}

/// The value of the last write a sequence makes to cell `k`, if any.
pub open spec fn last_write_val(s: Seq<DBAccess>, k: SlotKey) -> Option<W256>
    decreases s.len(),
{
    if s.len() == 0 {
        None
    } else if s.last().key() == k && !s.last().is_read() {
        Some(s.last().value())
    } else {
        last_write_val(s.drop_last(), k)
    }
}

/// The warming reads owed for the keys `ks` of a block whose merged
/// accesses are `s`: one read task per key whose first access is a read.
pub open spec fn read_tasks_of(ks: Seq<SlotKey>, s: Seq<DBAccess>) -> Seq<TaskView>
    decreases ks.len(),
{
    if ks.len() == 0 {
        Seq::empty()
    } else {
        let p = read_tasks_of(ks.drop_last(), s);
        if first_access(s, ks.last())->Some_0 is Read {
            p.push(TaskView::Read(digest_spec(ks.last())))
        } else {
            p
        }
    }
}

/// The final writes owed for the keys `ks` of a block whose merged
/// accesses are `s`: one write task per written key, carrying the value
/// of the last write.
pub open spec fn write_tasks_of(ks: Seq<SlotKey>, s: Seq<DBAccess>) -> Seq<TaskView>
    decreases ks.len(),
{
    if ks.len() == 0 {
        Seq::empty()
    } else {
        let p = write_tasks_of(ks.drop_last(), s);
        match last_write_val(s, ks.last()) {
            Some(v) => p.push(TaskView::Write(digest_spec(ks.last()), w256_be_seq(v))),
            None => p,
        }
    }
}

/// The compacted workload of one block whose merged accesses are `s`: all
/// its read tasks, then all its write tasks, keys in first-occurrence
/// order within each group.
pub open spec fn block_tasks_spec(s: Seq<DBAccess>) -> Seq<TaskView> {
    read_tasks_of(distinct_keys(s), s) + write_tasks_of(distinct_keys(s), s)
}

/// A cell outside an access sequence's key set has no first access and no
/// last write in it.
proof fn lemma_untouched_key(s: Seq<DBAccess>, k: SlotKey)
    requires
        !keys_of(s).contains(k),
    ensures
        first_access(s, k) is None,
        last_write_val(s, k) is None,
    decreases s.len(),
{
    if s.len() > 0 {
        lemma_untouched_key(s.drop_last(), k);
    }
}

/// The key set and the distinct-key sequence of an access sequence hold
/// the same cells.
proof fn lemma_distinct_keys_complete(s: Seq<DBAccess>)
    ensures
        forall|k: SlotKey| #[trigger] distinct_keys(s).contains(k) <==> keys_of(s).contains(k),
    decreases s.len(),
{
    if s.len() > 0 {
        lemma_distinct_keys_complete(s.drop_last());
        let dk = distinct_keys(s);
        let dp = distinct_keys(s.drop_last());
        assert forall|k: SlotKey| #[trigger] dk.contains(k) implies keys_of(s).contains(k) by {
            let j = choose|j: int| 0 <= j < dk.len() && dk[j] == k;
            if j < dp.len() {
                assert(dp[j] == k);
                assert(dp.contains(k));
            } else {
                assert(k == s.last().key());
            }
        }
        assert forall|k: SlotKey| keys_of(s).contains(k) implies #[trigger] dk.contains(k) by {
            if k == s.last().key() && !dp.contains(k) {
                assert(dk == dp.push(k));
                assert(dk[dp.len() as int] == k);
            } else {
                assert(dp.contains(k));
                let j = choose|j: int| 0 <= j < dp.len() && dp[j] == k;
                assert(dk[j] == k);
            }
        }
    }
}

/// The extracted key of an access.
pub fn key_of(a: &DBAccess) -> (k: SlotKey)
    ensures
        k == a.key(),
{
    match a {
        DBAccess::Read(k, _) => *k,
        DBAccess::Write(k, _) => *k,
    }
}

/// Whether `v` holds `k`.
fn contains_key(v: &Vec<SlotKey>, k: SlotKey) -> (r: bool)
    ensures
        r <==> v@.contains(k),
{
    let mut i: usize = 0;
    while i < v.len()
        invariant
            i <= v@.len(),
            forall|j: int| 0 <= j < i ==> v@[j] != k,
        decreases v@.len() - i,
    {
        if v[i] == k {
            return true;
        }
        i += 1;
    }
    false
}

/// The global pass: walks every access in chronological order and collects
/// the first-touch snapshot entries, in first-touch order.
pub fn compute_frontier(accesses: &Vec<DBAccess>) -> (r: Vec<(SlotKey, W256)>)
    ensures
        r@ == frontier_spec(accesses@),
{
    let mut touched: Vec<SlotKey> = Vec::new();
    let mut frontier: Vec<(SlotKey, W256)> = Vec::new();
    let mut i: usize = 0;
    proof {
        assert(accesses@.take(0) =~= Seq::<DBAccess>::empty());
    }
    while i < accesses.len()
        invariant
            i <= accesses@.len(),
            forall|k: SlotKey| #[trigger] touched@.contains(k) <==> keys_of(
                accesses@.take(i as int),
            ).contains(k),
            frontier@ == frontier_spec(accesses@.take(i as int)),
        decreases accesses@.len() - i,
    {
        let ghost pre = accesses@.take(i as int);
        let ghost pre_touched = touched@;
        let a = accesses[i];
        let k = key_of(&a);
        proof {
            assert(accesses@.take(i + 1).drop_last() =~= pre);
            assert(accesses@.take(i + 1).last() == a);
        }
        if !contains_key(&touched, k) {
            touched.push(k);
            match a {
                DBAccess::Read(_, value) => {
                    if !value.is_zero() {
                        frontier.push((k, value));
                    }
                },
                DBAccess::Write(_, _) => {},
            }
        }
        i += 1;
        proof {
            assert forall|k2: SlotKey|
                #[trigger] touched@.contains(k2) <==> keys_of(
                    accesses@.take(i as int),
                ).contains(k2) by {
                if touched@.contains(k2) {
                    let j = choose|j: int| 0 <= j < touched@.len() && touched@[j] == k2;
                    if j < pre_touched.len() {
                        assert(pre_touched[j] == k2);
                        assert(pre_touched.contains(k2));
                    } else {
                        assert(k2 == k);
                    }
                }
                if keys_of(accesses@.take(i as int)).contains(k2) {
                    if k2 == a.key() {
                        assert(touched@.contains(k)) by {
                            if pre_touched.contains(k) {
                                let j = choose|j: int|
                                    0 <= j < pre_touched.len() && pre_touched[j] == k;
                                assert(touched@[j] == k);
                            } else {
                                assert(touched@ == pre_touched.push(k));
                                assert(touched@[pre_touched.len() as int] == k);
                            }
                        }
                    } else {
                        assert(keys_of(pre).contains(k2));
                        assert(pre_touched.contains(k2));
                        let j = choose|j: int|
                            0 <= j < pre_touched.len() && pre_touched[j] == k2;
                        assert(touched@[j] == k2);
                    }
                }
            }
        }
    }
    proof {
        assert(accesses@.take(accesses@.len() as int) =~= accesses@);
    }
    frontier
}

/// Merges the transactions of one block into a single access sequence,
/// discarding transaction boundaries but keeping encounter order.
pub fn merge_block(block: &Vec<Vec<DBAccess>>) -> (r: Vec<DBAccess>)
    ensures
        r@ == flatten_txs(txs_view(block@)),
{
    let mut merged: Vec<DBAccess> = Vec::new();
    let mut t: usize = 0;
    proof {
        assert(txs_view(block@).take(0) =~= Seq::<Seq<DBAccess>>::empty());
    }
    while t < block.len()
        invariant
            t <= block@.len(),
            merged@ == flatten_txs(txs_view(block@).take(t as int)),
        decreases block@.len() - t,
    {
        merged.extend_from_slice(block[t].as_slice());
        t += 1;
        proof {
            assert(txs_view(block@).take(t as int).drop_last() =~= txs_view(block@).take(
                t - 1,
            ));
            assert(txs_view(block@).take(t as int).last() == block@[t - 1]@);
        }
    }
    proof {
        assert(txs_view(block@).take(block@.len() as int) =~= txs_view(block@));
    }
    merged
}

/// The per-block pass for one block: groups the merged accesses by cell in
/// first-occurrence order and emits one warming read per cell whose first
/// access is a read, then one write per written cell carrying its last
/// written value.
pub fn reduce_block(block: &Vec<Vec<DBAccess>>) -> (r: Vec<ExperimentTask>)
    ensures
        tasks_view(r@) == block_tasks_spec(flatten_txs(txs_view(block@))),
{
    let s = merge_block(block);
    let ghost sv = s@;
    // Group by key, preserving first-occurrence order: for each key keep
    // whether its first access was a read, and the value of its last write.
    let mut groups: Vec<(SlotKey, bool, Option<W256>)> = Vec::new();
    let mut i: usize = 0;
    proof {
        assert(sv.take(0) =~= Seq::<DBAccess>::empty());
    }
    while i < s.len()
        invariant
            i <= sv.len(),
            sv == s@,
            groups@.map_values(|g: (SlotKey, bool, Option<W256>)| g.0) == distinct_keys(
                sv.take(i as int),
            ),
            forall|j1: int, j2: int|
                0 <= j1 < j2 < groups@.len() ==> groups@[j1].0 != groups@[j2].0,
            forall|j: int|
                0 <= j < groups@.len() ==> first_access(sv.take(i as int), (#[trigger] groups@[j]).0)
                    is Some,
            forall|j: int|
                0 <= j < groups@.len() ==> (#[trigger] groups@[j].1 <==> first_access(
                    sv.take(i as int),
                    groups@[j].0,
                )->Some_0 is Read),
            forall|j: int|
                0 <= j < groups@.len() ==> #[trigger] groups@[j].2 == last_write_val(
                    sv.take(i as int),
                    groups@[j].0,
                ),
        decreases sv.len() - i,
    {
        let ghost pre = sv.take(i as int);
        let a = s[i];
        let k = key_of(&a);
        proof {
            assert(sv.take(i + 1).drop_last() =~= pre);
            assert(sv.take(i + 1).last() == a);
        }
        // Find the key's group, if it exists.
        let mut j: usize = 0;
        let mut found: bool = false;
        while j < groups.len() && !found
            invariant
                j <= groups@.len(),
                found ==> j < groups@.len() && groups@[j as int].0 == k,
                !found ==> forall|m: int| 0 <= m < j ==> groups@[m].0 != k,
            decreases groups@.len() - j + (if found { 0int } else { 1int }),
        {
            if groups[j].0 == k {
                found = true;
            } else {
                j += 1;
            }
        }
        if found {
            let g = groups[j];
            let new_g = (
                g.0,
                g.1,
                match a {
                    DBAccess::Write(_, v) => Some(v),
                    DBAccess::Read(_, _) => g.2,
                },
            );
            groups[j] = new_g;
            proof {
                let post = sv.take(i + 1);
                assert(groups@.map_values(|g: (SlotKey, bool, Option<W256>)| g.0)
                    =~= distinct_keys(post)) by {
                    assert(distinct_keys(pre).contains(k)) by {
                        assert(distinct_keys(pre)[j as int] == k);
                    }
                    assert(distinct_keys(post) == distinct_keys(pre));
                }
            }
        } else {
            proof {
                assert(!distinct_keys(pre).contains(k)) by {
                    if distinct_keys(pre).contains(k) {
                        let m = choose|m: int|
                            0 <= m < distinct_keys(pre).len() && distinct_keys(pre)[m] == k;
                        assert(groups@[m].0 == k);
                    }
                }
                lemma_distinct_keys_complete(pre);
                lemma_untouched_key(pre, k);
            }
            let new_g = (
                k,
                match a {
                    DBAccess::Read(_, _) => true,
                    DBAccess::Write(_, _) => false,
                },
                match a {
                    DBAccess::Write(_, v) => Some(v),
                    DBAccess::Read(_, _) => None,
                },
            );
            groups.push(new_g);
            proof {
                assert(groups@.map_values(|g: (SlotKey, bool, Option<W256>)| g.0)
                    =~= distinct_keys(sv.take(i + 1)));
            }
        }
        i += 1;
    }
    proof {
        assert(sv.take(sv.len() as int) =~= sv);
    }
    // Emit all read tasks, then all write tasks.
    let ghost dk = distinct_keys(sv);
    let mut reads: Vec<ExperimentTask> = Vec::new();
    let mut writes: Vec<ExperimentTask> = Vec::new();
    let mut j: usize = 0;
    proof {
        assert(dk.take(0) =~= Seq::<SlotKey>::empty());
    }
    while j < groups.len()
        invariant
            j <= groups@.len(),
            sv == s@,
            dk == distinct_keys(sv),
            groups@.map_values(|g: (SlotKey, bool, Option<W256>)| g.0) == dk,
            forall|m: int|
                0 <= m < groups@.len() ==> first_access(sv, (#[trigger] groups@[m]).0) is Some,
            forall|m: int|
                0 <= m < groups@.len() ==> (#[trigger] groups@[m].1 <==> first_access(
                    sv,
                    groups@[m].0,
                )->Some_0 is Read),
            forall|m: int|
                0 <= m < groups@.len() ==> #[trigger] groups@[m].2 == last_write_val(
                    sv,
                    groups@[m].0,
                ),
            tasks_view(reads@) == read_tasks_of(dk.take(j as int), sv),
            tasks_view(writes@) == write_tasks_of(dk.take(j as int), sv),
        decreases groups@.len() - j,
    {
        let g = groups[j];
        proof {
            assert(dk.take(j + 1).drop_last() =~= dk.take(j as int));
            assert(dk.take(j + 1).last() == g.0);
        }
        let ghost pre_reads = tasks_view(reads@);
        let ghost pre_writes = tasks_view(writes@);
        if g.1 {
            let d = g.0.digest();
            reads.push(ExperimentTask::Read(d));
            proof {
                assert(tasks_view(reads@) =~= pre_reads.push(TaskView::Read(digest_spec(g.0))));
            }
        }
        match g.2 {
            Some(v) => {
                let d = g.0.digest();
                let vb = v.to_be_bytes();
                writes.push(ExperimentTask::Write(d, vb));
                proof {
                    assert(tasks_view(writes@) =~= pre_writes.push(
                        TaskView::Write(digest_spec(g.0), w256_be_seq(v)),
                    ));
                }
            },
            None => {},
        }
        j += 1;
    }
    proof {
        assert(dk.take(groups@.len() as int) =~= dk);
    }
    let mut out = reads;
    let mut w = writes;
    out.append(&mut w);
    proof {
        assert(tasks_view(out@) =~= read_tasks_of(dk, sv) + write_tasks_of(dk, sv));
    }
    out
}

/// An initial-state entry list with its byte vectors abstracted to
/// sequences.
pub open spec fn entries_view(v: Seq<(Vec<u8>, Vec<u8>)>) -> Seq<(Seq<u8>, Seq<u8>)> {
    v.map_values(|e: (Vec<u8>, Vec<u8>)| (e.0@, e.1@))
}

/// The serialized form of the snapshot entries: each cell's digest paired
/// with its first-read value as 32 big-endian bytes.
pub open spec fn init_entries_of(f: Seq<(SlotKey, W256)>) -> Seq<(Seq<u8>, Seq<u8>)>
    decreases f.len(),
{
    if f.len() == 0 {
        Seq::empty()
    } else {
        init_entries_of(f.drop_last()).push(
            (digest_spec(f.last().0), w256_be_seq(f.last().1)),
        )
    }
}

/// Serializes the snapshot entries: digests the key and encodes the value
/// big-endian, keeping order.
pub fn frontier_entries(frontier: &Vec<(SlotKey, W256)>) -> (r: Vec<(Vec<u8>, Vec<u8>)>)
    ensures
        entries_view(r@) == init_entries_of(frontier@),
{
    let mut r: Vec<(Vec<u8>, Vec<u8>)> = Vec::new();
    let mut i: usize = 0;
    proof {
        assert(frontier@.take(0) =~= Seq::<(SlotKey, W256)>::empty());
    }
    while i < frontier.len()
        invariant
            i <= frontier@.len(),
            entries_view(r@) == init_entries_of(frontier@.take(i as int)),
        decreases frontier@.len() - i,
    {
        let ghost pre = entries_view(r@);
        let e = frontier[i];
        let d = e.0.digest();
        let vb = e.1.to_be_bytes();
        r.push((d, vb));
        i += 1;
        proof {
            assert(frontier@.take(i as int).drop_last() =~= frontier@.take(i - 1));
            assert(frontier@.take(i as int).last() == e);
            assert(entries_view(r@) =~= pre.push((digest_spec(e.0), w256_be_seq(e.1))));
        }
    }
    proof {
        assert(frontier@.take(frontier@.len() as int) =~= frontier@);
    }
    r
}

/// Relies on rand's SliceRandom::shuffle with thread_rng: an in-place
/// uniform random permutation of the entries; whatever order comes out,
/// the entries themselves are rearranged, none added or dropped.
#[verifier::external_body]
fn shuffle_entries(v: &mut Vec<(Vec<u8>, Vec<u8>)>)
    ensures
        entries_view(final(v)@).to_multiset() == entries_view(old(v)@).to_multiset(),
{
    v.shuffle(&mut rand::thread_rng());
}

/// Flattens a whole log into the complete chronological access sequence.
pub fn flatten_full_log(log: &Vec<Vec<Vec<DBAccess>>>) -> (r: Vec<DBAccess>)
    ensures
        r@ == flatten_log(log_view(log@)),
{
    let mut r: Vec<DBAccess> = Vec::new();
    let mut b: usize = 0;
    proof {
        assert(log_view(log@).take(0) =~= Seq::<Seq<Seq<DBAccess>>>::empty());
    }
    while b < log.len()
        invariant
            b <= log@.len(),
            r@ == flatten_log(log_view(log@).take(b as int)),
        decreases log@.len() - b,
    {
        let mut m = merge_block(&log[b]);
        r.append(&mut m);
        b += 1;
        proof {
            assert(log_view(log@).take(b as int).drop_last() =~= log_view(log@).take(b - 1));
            assert(log_view(log@).take(b as int).last() == txs_view(log@[b - 1]@));
        }
    }
    proof {
        assert(log_view(log@).take(log@.len() as int) =~= log_view(log@));
    }
    r
}

/// The global pass over a whole log: the first-touch snapshot, serialized
/// and randomly shuffled. The entries are exactly those of the
/// chronological first-touch pass, in some order.
pub fn seal_init_tasks(log: &Vec<Vec<Vec<DBAccess>>>) -> (r: Vec<(Vec<u8>, Vec<u8>)>)
    ensures
        entries_view(r@).to_multiset() == init_entries_of(
            frontier_spec(flatten_log(log_view(log@))),
        ).to_multiset(),
{
    let flat = flatten_full_log(log);
    let frontier = compute_frontier(&flat);
    let mut entries = frontier_entries(&frontier);
    shuffle_entries(&mut entries);
    entries
}

/// The per-block pass over a whole log: each block reduced independently,
/// in block order.
pub fn seal_io_tasks(log: &Vec<Vec<Vec<DBAccess>>>) -> (r: Vec<Vec<ExperimentTask>>)
    ensures
        r@.len() == log@.len(),
        forall|b: int|
            0 <= b < log@.len() ==> tasks_view(#[trigger] r@[b]@) == block_tasks_spec(
                flatten_txs(txs_view(log@[b]@)),
            ),
{
    let mut r: Vec<Vec<ExperimentTask>> = Vec::new();
    let mut b: usize = 0;
    while b < log.len()
        invariant
            b <= log@.len(),
            r@.len() == b,
            forall|m: int|
                0 <= m < b ==> tasks_view(#[trigger] r@[m]@) == block_tasks_spec(
                    flatten_txs(txs_view(log@[m]@)),
                ),
        decreases log@.len() - b,
    {
        let tasks = reduce_block(&log[b]);
        r.push(tasks);
        b += 1;
    }
    r
}

/// Reduces a full access log to its two artifacts: the shuffled
/// initial-state snapshot and the per-block compacted workload.
pub fn seal(log: &Vec<Vec<Vec<DBAccess>>>) -> (r: (
    Vec<(Vec<u8>, Vec<u8>)>,
    Vec<Vec<ExperimentTask>>,
))
    ensures
        entries_view(r.0@).to_multiset() == init_entries_of(
            frontier_spec(flatten_log(log_view(log@))),
        ).to_multiset(),
        r.1@.len() == log@.len(),
        forall|b: int|
            0 <= b < log@.len() ==> tasks_view(#[trigger] r.1@[b]@) == block_tasks_spec(
                flatten_txs(txs_view(log@[b]@)),
            ),
{
    let init = seal_init_tasks(log);
    let io = seal_io_tasks(log);
    (init, io)
}

/// The global pass is a pure function of the chronological access
/// sequence: any two runs over the same log produce the same snapshot
/// content.
pub proof fn lemma_global_pass_deterministic(
    r1: Seq<(SlotKey, W256)>,
    r2: Seq<(SlotKey, W256)>,
    s: Seq<DBAccess>,
)
    requires
        r1 == frontier_spec(s),
        r2 == frontier_spec(s),
    ensures
        r1 == r2,
{
}

} // verus!
