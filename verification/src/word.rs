//! 256-bit machine words as used on the simulated operand stack, with the
//! wrapping arithmetic of the execution environment.

use vstd::prelude::*;
use vstd::arithmetic::div_mod::{
    lemma_fundamental_div_mod_converse, lemma_mod_multiples_vanish, lemma_small_mod,
};
use vstd::arithmetic::power::pow;

verus! {

/// A 256-bit unsigned word, stored as four 64-bit limbs, least significant
/// first.
#[derive(Clone, Copy, Debug, PartialEq, Eq, Structural)]
pub struct W256 {
    pub l0: u64,
    pub l1: u64,
    pub l2: u64,
    pub l3: u64,
}

/// 2^256, the modulus of all wrapping word arithmetic.
pub open spec fn p256() -> nat {
    0x10000000000000000000000000000000000000000000000000000000000000000nat
}

impl W256 {
    /// The numeric value of the word.
    pub open spec fn val(self) -> nat {
        (self.l0 as int + self.l1 as int * 0x10000000000000000int
            + self.l2 as int * 0x100000000000000000000000000000000int
            + self.l3 as int * 0x1000000000000000000000000000000000000000000000000int) as nat
    }

    /// The word holding a small value.
    pub fn from_u64(x: u64) -> (r: W256)
        ensures
            r.val() == x,
    {
        W256 { l0: x, l1: 0, l2: 0, l3: 0 }
    }

    /// Whether the word is zero.
    pub fn is_zero(&self) -> (r: bool)
        ensures
            r <==> self.val() == 0,
    {
        self.l0 == 0 && self.l1 == 0 && self.l2 == 0 && self.l3 == 0
    }
}

/// Each limb of a word is a base-2^64 digit of its value, so the limbs are
/// determined by the value.
pub proof fn lemma_limbs_from_val(a: W256)
    ensures
        a.l0 == a.val() % 0x10000000000000000,
        a.l1 == (a.val() / 0x10000000000000000) % 0x10000000000000000,
        a.l2 == ((a.val() / 0x10000000000000000) / 0x10000000000000000) % 0x10000000000000000,
        a.l3 == ((a.val() / 0x10000000000000000) / 0x10000000000000000) / 0x10000000000000000,
{
    let b: int = 0x10000000000000000;
    let v = a.val() as int;
    let q1: int = a.l1 + a.l2 * b + a.l3 * b * b;
    let q2: int = a.l2 + a.l3 * b;
    assert(v == q1 * b + a.l0) by (nonlinear_arith)
        requires
            v == a.l0 + a.l1 * b + a.l2 * (b * b) + a.l3 * (b * b * b)
                && q1 == a.l1 + a.l2 * b + a.l3 * b * b,
    ;
    lemma_fundamental_div_mod_converse(v, b, q1, a.l0 as int);
    assert(q1 == q2 * b + a.l1) by (nonlinear_arith)
        requires
            q1 == a.l1 + a.l2 * b + a.l3 * b * b && q2 == a.l2 + a.l3 * b,
    ;
    lemma_fundamental_div_mod_converse(q1, b, q2, a.l1 as int);
    lemma_fundamental_div_mod_converse(q2, b, a.l3 as int, a.l2 as int);
}

/// Two words with the same value are the same word.
pub proof fn lemma_val_injective(a: W256, b: W256)
    requires
        a.val() == b.val(),
    ensures
        a == b,
{
    lemma_limbs_from_val(a);
    lemma_limbs_from_val(b);
}

/// Whether the value of `a` is below the value of `b`.
pub fn lt(a: W256, b: W256) -> (r: bool)
    ensures
        r <==> a.val() < b.val(),
{
    if a.l3 != b.l3 {
        a.l3 < b.l3
    } else if a.l2 != b.l2 {
        a.l2 < b.l2
    } else if a.l1 != b.l1 {
        a.l1 < b.l1
    } else {
        a.l0 < b.l0
    }
}

/// The limb-wise conjunction of two words.
pub open spec fn and_spec(a: W256, b: W256) -> W256 {
    W256 { l0: a.l0 & b.l0, l1: a.l1 & b.l1, l2: a.l2 & b.l2, l3: a.l3 & b.l3 }
}

/// The limb-wise disjunction of two words.
pub open spec fn or_spec(a: W256, b: W256) -> W256 {
    W256 { l0: a.l0 | b.l0, l1: a.l1 | b.l1, l2: a.l2 | b.l2, l3: a.l3 | b.l3 }
}

/// The limb-wise exclusive disjunction of two words.
pub open spec fn xor_spec(a: W256, b: W256) -> W256 {
    W256 { l0: a.l0 ^ b.l0, l1: a.l1 ^ b.l1, l2: a.l2 ^ b.l2, l3: a.l3 ^ b.l3 }
}

/// Bitwise conjunction.
pub fn bit_and(a: W256, b: W256) -> (r: W256)
    ensures
        r == and_spec(a, b),
{
    W256 { l0: a.l0 & b.l0, l1: a.l1 & b.l1, l2: a.l2 & b.l2, l3: a.l3 & b.l3 }
}

/// Bitwise disjunction.
pub fn bit_or(a: W256, b: W256) -> (r: W256)
    ensures
        r == or_spec(a, b),
{
    W256 { l0: a.l0 | b.l0, l1: a.l1 | b.l1, l2: a.l2 | b.l2, l3: a.l3 | b.l3 }
}

/// Bitwise exclusive disjunction.
pub fn bit_xor(a: W256, b: W256) -> (r: W256)
    ensures
        r == xor_spec(a, b),
{
    W256 { l0: a.l0 ^ b.l0, l1: a.l1 ^ b.l1, l2: a.l2 ^ b.l2, l3: a.l3 ^ b.l3 }
}

/// The low 64 bits and the carry of a 128-bit intermediate sum.
proof fn lemma_u128_parts(s: u128)
    ensures
        s & 0xffffffffffffffff == s % 0x10000000000000000,
        s >> 64 == s / 0x10000000000000000,
{
    assert(s & 0xffffffffffffffff == s % 0x10000000000000000) by (bit_vector);
    assert(s >> 64 == s / 0x10000000000000000) by (bit_vector);
}

/// Addition that wraps modulo 2^256.
pub fn add_wrap(a: W256, b: W256) -> (r: W256)
    ensures
        r.val() == (a.val() + b.val()) % p256(),
{
    let s0: u128 = a.l0 as u128 + b.l0 as u128;
    proof {
        lemma_u128_parts(s0);
    }
    let r0: u64 = (s0 & 0xffffffffffffffff) as u64;
    let c0: u64 = (s0 >> 64) as u64;
    let s1: u128 = a.l1 as u128 + b.l1 as u128 + c0 as u128;
    proof {
        lemma_u128_parts(s1);
    }
    let r1: u64 = (s1 & 0xffffffffffffffff) as u64;
    let c1: u64 = (s1 >> 64) as u64;
    let s2: u128 = a.l2 as u128 + b.l2 as u128 + c1 as u128;
    proof {
        lemma_u128_parts(s2);
    }
    let r2: u64 = (s2 & 0xffffffffffffffff) as u64;
    let c2: u64 = (s2 >> 64) as u64;
    let s3: u128 = a.l3 as u128 + b.l3 as u128 + c2 as u128;
    proof {
        lemma_u128_parts(s3);
    }
    let r3: u64 = (s3 & 0xffffffffffffffff) as u64;
    let c3: u64 = (s3 >> 64) as u64;
    let r = W256 { l0: r0, l1: r1, l2: r2, l3: r3 };
    proof {
        assert(a.val() + b.val() == r.val() + c3 * p256());
        lemma_mod_multiples_vanish(c3 as int, r.val() as int, p256() as int);
        lemma_small_mod(r.val(), p256());
    }
    r
}

/// The value of `a - b` under wrapping subtraction modulo 2^256.
pub open spec fn sub_wrap_val(av: nat, bv: nat) -> nat {
    if av >= bv {
        (av - bv) as nat
    } else {
        (av + p256() - bv) as nat
    }
}

/// Subtraction that wraps modulo 2^256.
pub fn sub_wrap(a: W256, b: W256) -> (r: W256)
    ensures
        r.val() == sub_wrap_val(a.val(), b.val()),
{
    let s0: u128 = 0x10000000000000000u128 + a.l0 as u128 - b.l0 as u128;
    proof {
        lemma_u128_parts(s0);
    }
    let r0: u64 = (s0 & 0xffffffffffffffff) as u64;
    let w0: u64 = 1 - (s0 >> 64) as u64;
    let s1: u128 = 0x10000000000000000u128 + a.l1 as u128 - b.l1 as u128 - w0 as u128;
    proof {
        lemma_u128_parts(s1);
    }
    let r1: u64 = (s1 & 0xffffffffffffffff) as u64;
    let w1: u64 = 1 - (s1 >> 64) as u64;
    let s2: u128 = 0x10000000000000000u128 + a.l2 as u128 - b.l2 as u128 - w1 as u128;
    proof {
        lemma_u128_parts(s2);
    }
    let r2: u64 = (s2 & 0xffffffffffffffff) as u64;
    let w2: u64 = 1 - (s2 >> 64) as u64;
    let s3: u128 = 0x10000000000000000u128 + a.l3 as u128 - b.l3 as u128 - w2 as u128;
    proof {
        lemma_u128_parts(s3);
    }
    let r3: u64 = (s3 & 0xffffffffffffffff) as u64;
    let w3: u64 = 1 - (s3 >> 64) as u64;
    let r = W256 { l0: r0, l1: r1, l2: r2, l3: r3 };
    proof {
        assert(r.val() + b.val() == a.val() + w3 * p256());
    }
    r
}

/// Relies on ethers::types::U256::overflowing_mul: 256-bit multiplication
/// that wraps modulo 2^256. U256 holds the same four 64-bit limbs, least
/// significant first, as this word type.
#[verifier::external_body]
pub(crate) fn mul_wrap(a: W256, b: W256) -> (r: W256)
    ensures
        r.val() == (a.val() * b.val()) % p256(),
{
    let x = ethers::types::U256([a.l0, a.l1, a.l2, a.l3]);
    let y = ethers::types::U256([b.l0, b.l1, b.l2, b.l3]);
    let z = x.overflowing_mul(y).0;
    W256 { l0: z.0[0], l1: z.0[1], l2: z.0[2], l3: z.0[3] }
}

/// Relies on ethers::types::U256's division (its div_mod): flooring
/// division of 256-bit words. It panics on a zero divisor, which the
/// precondition excludes.
#[verifier::external_body]
pub(crate) fn div_floor(a: W256, b: W256) -> (r: W256)
    requires
        b.val() != 0,
    ensures
        r.val() == a.val() / b.val(),
{
    let x = ethers::types::U256([a.l0, a.l1, a.l2, a.l3]);
    let y = ethers::types::U256([b.l0, b.l1, b.l2, b.l3]);
    let z = x / y;
    W256 { l0: z.0[0], l1: z.0[1], l2: z.0[2], l3: z.0[3] }
}

/// Relies on ethers::types::U256::overflowing_pow: exponentiation by
/// squaring over multiplications that wrap modulo 2^256, so the result is
/// the power itself reduced modulo 2^256.
#[verifier::external_body]
pub(crate) fn pow_wrap(a: W256, b: W256) -> (r: W256)
    ensures
        r.val() == pow(a.val() as int, b.val()) % p256() as int,
{
    let x = ethers::types::U256([a.l0, a.l1, a.l2, a.l3]);
    let y = ethers::types::U256([b.l0, b.l1, b.l2, b.l3]);
    let z = x.overflowing_pow(y).0;
    W256 { l0: z.0[0], l1: z.0[1], l2: z.0[2], l3: z.0[3] }
}

/// The 8 bytes of a 64-bit integer, most significant first.
pub open spec fn u64_be_seq(x: u64) -> Seq<u8> {
    seq![
        ((x >> 56) & 0xff) as u8,
        ((x >> 48) & 0xff) as u8,
        ((x >> 40) & 0xff) as u8,
        ((x >> 32) & 0xff) as u8,
        ((x >> 24) & 0xff) as u8,
        ((x >> 16) & 0xff) as u8,
        ((x >> 8) & 0xff) as u8,
        (x & 0xff) as u8,
    ]
}

/// The 4 bytes of a 32-bit integer, most significant first.
pub open spec fn u32_be_seq(x: u32) -> Seq<u8> {
    seq![
        ((x >> 24) & 0xff) as u8,
        ((x >> 16) & 0xff) as u8,
        ((x >> 8) & 0xff) as u8,
        (x & 0xff) as u8,
    ]
}

/// Appends the big-endian bytes of a 64-bit integer.
pub fn push_u64_be(v: &mut Vec<u8>, x: u64)
    ensures
        final(v)@ == old(v)@ + u64_be_seq(x),
{
    v.push(((x >> 56) & 0xff) as u8);
    v.push(((x >> 48) & 0xff) as u8);
    v.push(((x >> 40) & 0xff) as u8);
    v.push(((x >> 32) & 0xff) as u8);
    v.push(((x >> 24) & 0xff) as u8);
    v.push(((x >> 16) & 0xff) as u8);
    v.push(((x >> 8) & 0xff) as u8);
    v.push((x & 0xff) as u8);
    proof {
        assert(v@ =~= old(v)@ + u64_be_seq(x));
    }
}

/// Appends the big-endian bytes of a 32-bit integer.
pub fn push_u32_be(v: &mut Vec<u8>, x: u32)
    ensures
        final(v)@ == old(v)@ + u32_be_seq(x),
{
    v.push(((x >> 24) & 0xff) as u8);
    v.push(((x >> 16) & 0xff) as u8);
    v.push(((x >> 8) & 0xff) as u8);
    v.push((x & 0xff) as u8);
    proof {
        assert(v@ =~= old(v)@ + u32_be_seq(x));
    }
}

/// The 32 bytes of a word, most significant first.
pub open spec fn w256_be_seq(w: W256) -> Seq<u8> {
    u64_be_seq(w.l3) + u64_be_seq(w.l2) + u64_be_seq(w.l1) + u64_be_seq(w.l0)
}

impl W256 {
    /// The word encoded as 32 bytes, most significant first.
    pub fn to_be_bytes(&self) -> (r: Vec<u8>)
        ensures
            r@ == w256_be_seq(*self),
            r@.len() == 32,
    {
        let mut v: Vec<u8> = Vec::new();
        push_u64_be(&mut v, self.l3);
        push_u64_be(&mut v, self.l2);
        push_u64_be(&mut v, self.l1);
        push_u64_be(&mut v, self.l0);
        proof {
            assert(v@ =~= w256_be_seq(*self));
        }
        v
    }
}

} // verus!
