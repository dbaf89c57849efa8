use evm_io_tracker::integrity::{integrity_check, WalkError};
use evm_io_tracker::word::W256;

fn w(x: u64) -> W256 {
    W256 { l0: x, l1: 0, l2: 0, l3: 0 }
}

fn w_max() -> W256 {
    W256 { l0: u64::MAX, l1: u64::MAX, l2: u64::MAX, l3: u64::MAX }
}

const ADD: u8 = 0x01;
const MUL: u8 = 0x02;
const SUB: u8 = 0x03;
const DIV: u8 = 0x04;
const EXP: u8 = 0x0a;
const LT: u8 = 0x10;
const GT: u8 = 0x11;
const EQ: u8 = 0x14;
const AND: u8 = 0x16;
const OR: u8 = 0x17;
const XOR: u8 = 0x18;

#[test]
fn add_wraparound_accepts_zero() {
    // a = 2^256 - 1 (top), b = 1: the wrapped sum is 0.
    let stack = vec![w(1), w_max()];
    assert_eq!(integrity_check(ADD, &stack, &vec![w(0)], 0), Ok(()));
}

#[test]
fn add_wraparound_rejects_wrong_result() {
    let stack = vec![w(1), w_max()];
    assert_eq!(
        integrity_check(ADD, &stack, &vec![w(1)], 0),
        Err(WalkError::IntegrityMismatch(ADD, 0))
    );
}

#[test]
fn add_plain_sum() {
    let stack = vec![w(20), w(22)];
    assert_eq!(integrity_check(ADD, &stack, &vec![w(42)], 0), Ok(()));
}

#[test]
fn div_by_zero_expects_zero() {
    // a = 5 (top) divided by b = 0 must yield 0, not fail.
    let stack = vec![w(0), w(5)];
    assert_eq!(integrity_check(DIV, &stack, &vec![w(0)], 0), Ok(()));
    assert_eq!(
        integrity_check(DIV, &stack, &vec![w(5)], 0),
        Err(WalkError::IntegrityMismatch(DIV, 0))
    );
}

#[test]
fn div_floors() {
    let stack = vec![w(2), w(7)];
    assert_eq!(integrity_check(DIV, &stack, &vec![w(3)], 0), Ok(()));
}

#[test]
fn sub_wraps_below_zero() {
    // a = 0 (top), b = 1: 0 - 1 wraps to 2^256 - 1.
    let stack = vec![w(1), w(0)];
    assert_eq!(integrity_check(SUB, &stack, &vec![w_max()], 0), Ok(()));
    assert_eq!(
        integrity_check(SUB, &stack, &vec![w(0)], 0),
        Err(WalkError::IntegrityMismatch(SUB, 0))
    );
}

#[test]
fn mul_wraps_at_256_bits() {
    // (2^128) * (2^128) = 2^256, which wraps to 0.
    let big = W256 { l0: 0, l1: 0, l2: 1, l3: 0 };
    let stack = vec![big, big];
    assert_eq!(integrity_check(MUL, &stack, &vec![w(0)], 0), Ok(()));
    let stack2 = vec![w(6), w(7)];
    assert_eq!(integrity_check(MUL, &stack2, &vec![w(42)], 0), Ok(()));
    assert_eq!(
        integrity_check(MUL, &stack2, &vec![w(6)], 0),
        Err(WalkError::IntegrityMismatch(MUL, 0))
    );
}

#[test]
fn exp_computes_powers_and_wraps() {
    let stack = vec![w(10), w(2)];
    assert_eq!(integrity_check(EXP, &stack, &vec![w(1024)], 0), Ok(()));
    // 2^256 wraps to 0.
    let stack2 = vec![w(256), w(2)];
    assert_eq!(integrity_check(EXP, &stack2, &vec![w(0)], 0), Ok(()));
    assert_eq!(
        integrity_check(EXP, &stack2, &vec![w(1)], 0),
        Err(WalkError::IntegrityMismatch(EXP, 0))
    );
}

#[test]
fn comparisons_yield_one_or_zero() {
    // a = 1 (top), b = 2: a < b yields 1.
    let stack = vec![w(2), w(1)];
    assert_eq!(integrity_check(LT, &stack, &vec![w(1)], 0), Ok(()));
    assert_eq!(integrity_check(GT, &stack, &vec![w(0)], 0), Ok(()));
    assert_eq!(
        integrity_check(LT, &stack, &vec![w(0)], 0),
        Err(WalkError::IntegrityMismatch(LT, 0))
    );
    let eq_stack = vec![w(9), w(9)];
    assert_eq!(integrity_check(EQ, &eq_stack, &vec![w(1)], 0), Ok(()));
    let ne_stack = vec![w(9), w(8)];
    assert_eq!(integrity_check(EQ, &ne_stack, &vec![w(0)], 0), Ok(()));
}

#[test]
fn comparison_uses_high_limbs() {
    let high = W256 { l0: 0, l1: 0, l2: 0, l3: 5 };
    // a = high (top), b = 7: high > 7 although its low limb is 0.
    let stack = vec![w(7), high];
    assert_eq!(integrity_check(GT, &stack, &vec![w(1)], 0), Ok(()));
}

#[test]
fn bitwise_ops_work_limbwise() {
    let stack = vec![w(0b1100), w(0b1010)];
    assert_eq!(integrity_check(AND, &stack, &vec![w(0b1000)], 0), Ok(()));
    assert_eq!(integrity_check(OR, &stack, &vec![w(0b1110)], 0), Ok(()));
    assert_eq!(integrity_check(XOR, &stack, &vec![w(0b0110)], 0), Ok(()));
}

#[test]
fn dup3_duplicates_third_operand() {
    // Stack [a, b, c] with c on top: DUP3 reports [a, b, c, a], the new
    // copy of a on top and a, b, c beneath unchanged.
    let (a, b, c) = (w(10), w(20), w(30));
    let stack = vec![a, b, c];
    assert_eq!(integrity_check(0x82, &stack, &vec![a, b, c, a], 0), Ok(()));
    assert_eq!(
        integrity_check(0x82, &stack, &vec![a, b, c, b], 0),
        Err(WalkError::IntegrityMismatch(0x82, 0))
    );
    assert_eq!(
        integrity_check(0x82, &stack, &vec![b, b, c, a], 0),
        Err(WalkError::IntegrityMismatch(0x82, 0))
    );
}

#[test]
fn swap2_exchanges_first_and_third() {
    // Stack [x, y, z] with z on top: SWAP2 reports [z, y, x], x and z
    // swapped with y unchanged.
    let (x, y, z) = (w(1), w(2), w(3));
    let stack = vec![x, y, z];
    assert_eq!(integrity_check(0x91, &stack, &vec![z, y, x], 0), Ok(()));
    assert_eq!(
        integrity_check(0x91, &stack, &vec![x, y, z], 0),
        Err(WalkError::IntegrityMismatch(0x91, 0))
    );
    assert_eq!(
        integrity_check(0x91, &stack, &vec![z, x, y], 0),
        Err(WalkError::IntegrityMismatch(0x91, 0))
    );
}

#[test]
fn checked_op_underflow_is_reported() {
    let stack = vec![w(1)];
    assert_eq!(
        integrity_check(ADD, &stack, &vec![w(2)], 0),
        Err(WalkError::StackUnderflow(ADD))
    );
}

#[test]
fn checked_op_missing_result_is_reported() {
    let stack = vec![w(1), w(1)];
    assert_eq!(
        integrity_check(ADD, &stack, &vec![], 0),
        Err(WalkError::MissingResult(ADD))
    );
}

#[test]
fn unchecked_ops_always_pass() {
    // SSTORE is not in a checked class; any reported results pass.
    assert_eq!(integrity_check(0x55, &vec![], &vec![], 0), Ok(()));
    assert_eq!(integrity_check(0x00, &vec![], &vec![w(1)], 0), Ok(()));
}
