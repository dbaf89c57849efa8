//! Integrity cross-checks: recomputes the results of arithmetic, bitwise,
//! comparison, duplicate and exchange instructions and compares them with
//! the results the trace reports. A mismatch means the simulated stack can
//! no longer be trusted and must abort the walk.

use vstd::prelude::*;
use vstd::arithmetic::power::pow;
use crate::arity::{
    OP_ADD, OP_AND, OP_DIV, OP_DUP1, OP_DUP16, OP_EQ, OP_EXP, OP_GT, OP_LT, OP_MUL, OP_OR,
    OP_SUB, OP_SWAP1, OP_SWAP16, OP_XOR,
};
use crate::word::{
    add_wrap, and_spec, bit_and, bit_or, bit_xor, div_floor, lemma_val_injective, lt, mul_wrap,
    or_spec, p256, pow_wrap, sub_wrap, sub_wrap_val, xor_spec, W256,
};

verus! {

/// Why replaying a transaction's trace failed. Every variant other than
/// `DepthLimit` carries the instruction code it arose at.
#[derive(Clone, Copy, Debug, PartialEq, Eq, Structural)]
pub enum WalkError {
    /// A recomputed instruction result disagrees with the reported one,
    /// at the given instruction position in its call frame.
    IntegrityMismatch(u8, u64),
    /// An operand was requested beyond the current simulated stack depth.
    StackUnderflow(u8),
    /// The trace reports no result for an instruction that must have one.
    MissingResult(u8),
    /// A contract-creation sub-trace has no reported address to run under.
    UnresolvedCreationAddress,
    /// The nested-call recursion exceeded the configured depth limit.
    DepthLimit,
}

/// The binary instructions whose results the verifier recomputes.
pub open spec fn is_checked_binop(op: u8) -> bool {
    op == OP_ADD || op == OP_SUB || op == OP_MUL || op == OP_DIV || op == OP_AND || op == OP_OR
        || op == OP_XOR || op == OP_EQ || op == OP_LT || op == OP_GT || op == OP_EXP
}

/// The duplicate instructions, which copy a k-deep operand to the top.
pub open spec fn is_dup(op: u8) -> bool {
    OP_DUP1 <= op && op <= OP_DUP16
}

/// The exchange instructions, which swap the top with a (k+1)-deep operand.
pub open spec fn is_swap(op: u8) -> bool {
    OP_SWAP1 <= op && op <= OP_SWAP16
}

/// The expected result of a checked binary instruction on top operand `a`
/// and second operand `b`, under the wrapping 256-bit semantics of the
/// execution environment: addition, subtraction and multiplication wrap,
/// division by zero yields zero, and comparisons yield 1 or 0.
pub open spec fn binop_expected(op: u8, a: W256, b: W256) -> nat {
    if op == OP_ADD {
        (a.val() + b.val()) % p256()
    } else if op == OP_SUB {
        sub_wrap_val(a.val(), b.val())
    } else if op == OP_MUL {
        (a.val() * b.val()) % p256()
    } else if op == OP_DIV {
        if b.val() == 0 {
            0
        } else {
            a.val() / b.val()
        }
    } else if op == OP_AND {
        and_spec(a, b).val()
    } else if op == OP_OR {
        or_spec(a, b).val()
    } else if op == OP_XOR {
        xor_spec(a, b).val()
    } else if op == OP_EQ {
        if a.val() == b.val() {
            1
        } else {
            0
        }
    } else if op == OP_LT {
        if a.val() < b.val() {
            1
        } else {
            0
        }
    } else if op == OP_GT {
        if b.val() < a.val() {
            1
        } else {
            0
        }
    } else if op == OP_EXP {
        (pow(a.val() as int, b.val()) % p256() as int) as nat
    } else {
        0
    }
}

/// What the verifier decides for instruction `op` given the stack before
/// the instruction and the results the trace reports for it. Instructions
/// outside the checked classes always pass.
pub open spec fn integrity_spec(op: u8, stack: Seq<W256>, pushes: Seq<W256>, pos: u64) -> Result<
    (),
    WalkError,
> {
    if is_checked_binop(op) {
        if stack.len() < 2 {
            Err(WalkError::StackUnderflow(op))
        } else if pushes.len() < 1 {
            Err(WalkError::MissingResult(op))
        } else if pushes[0].val() == binop_expected(
            op,
            stack[stack.len() - 1],
            stack[stack.len() - 2],
        ) {
            Ok(())
        } else {
            Err(WalkError::IntegrityMismatch(op, pos))
        }
    } else if is_swap(op) {
        let depth = op - OP_SWAP1 + 2;
        if stack.len() < depth {
            Err(WalkError::StackUnderflow(op))
        } else if pushes.len() < depth {
            Err(WalkError::MissingResult(op))
        } else if pushes[0] == stack[stack.len() - 1] && pushes[depth - 1] == stack[stack.len()
            - depth] && (forall|i: int|
            1 <= i < depth - 1 ==> pushes[i] == stack[stack.len() - depth + i]) {
            Ok(())
        } else {
            Err(WalkError::IntegrityMismatch(op, pos))
        }
    } else if is_dup(op) {
        let depth = op - OP_DUP1 + 1;
        if stack.len() < depth {
            Err(WalkError::StackUnderflow(op))
        } else if pushes.len() < depth + 1 {
            Err(WalkError::MissingResult(op))
        } else if pushes[depth as int] == stack[stack.len() - depth] && (forall|i: int|
            0 <= i < depth ==> pushes[i] == stack[stack.len() - depth + i]) {
            Ok(())
        } else {
            Err(WalkError::IntegrityMismatch(op, pos))
        }
    } else {
        Ok(())
    }
}

/// Recomputes the result of a checked instruction from the simulated stack
/// and compares it with the reported results.
pub fn integrity_check(op: u8, stack: &Vec<W256>, pushes: &Vec<W256>, pos: u64) -> (r: Result<
    (),
    WalkError,
>)
    ensures
        r == integrity_spec(op, stack@, pushes@, pos),
{
    let len = stack.len();
    if op == OP_ADD || op == OP_SUB || op == OP_MUL || op == OP_DIV || op == OP_AND
        || op == OP_OR || op == OP_XOR || op == OP_EQ || op == OP_LT || op == OP_GT
        || op == OP_EXP {
        if len < 2 {
            return Err(WalkError::StackUnderflow(op));
        }
        if pushes.len() < 1 {
            return Err(WalkError::MissingResult(op));
        }
        let a = stack[len - 1];
        let b = stack[len - 2];
        let expected: W256 = if op == OP_ADD {
            add_wrap(a, b)
        } else if op == OP_SUB {
            sub_wrap(a, b)
        } else if op == OP_MUL {
            mul_wrap(a, b)
        } else if op == OP_DIV {
            if b.is_zero() {
                W256::from_u64(0)
            } else {
                div_floor(a, b)
            }
        } else if op == OP_AND {
            bit_and(a, b)
        } else if op == OP_OR {
            bit_or(a, b)
        } else if op == OP_XOR {
            bit_xor(a, b)
        } else if op == OP_EQ {
            proof {
                if a.val() == b.val() {
                    lemma_val_injective(a, b);
                }
            }
            if a == b {
                W256::from_u64(1)
            } else {
                W256::from_u64(0)
            }
        } else if op == OP_LT {
            if lt(a, b) {
                W256::from_u64(1)
            } else {
                W256::from_u64(0)
            }
        } else if op == OP_GT {
            if lt(b, a) {
                W256::from_u64(1)
            } else {
                W256::from_u64(0)
            }
        } else {
            pow_wrap(a, b)
        };
        let reported = pushes[0];
        proof {
            if reported.val() == expected.val() {
                lemma_val_injective(reported, expected);
            }
        }
        if reported == expected {
            Ok(())
        } else {
            Err(WalkError::IntegrityMismatch(op, pos))
        }
    } else if OP_SWAP1 <= op && op <= OP_SWAP16 {
        let depth = (op - OP_SWAP1) as usize + 2;
        if len < depth {
            return Err(WalkError::StackUnderflow(op));
        }
        if pushes.len() < depth {
            return Err(WalkError::MissingResult(op));
        }
        if !(pushes[0] == stack[len - 1]) {
            return Err(WalkError::IntegrityMismatch(op, pos));
        }
        if !(pushes[depth - 1] == stack[len - depth]) {
            return Err(WalkError::IntegrityMismatch(op, pos));
        }
        let mut i: usize = 1;
        while i < depth - 1
            invariant
                1 <= i <= depth - 1,
                depth == op - OP_SWAP1 + 2,
                is_swap(op),
                len == stack@.len(),
                depth <= len,
                depth <= pushes@.len(),
                forall|j: int| 1 <= j < i ==> pushes@[j] == stack@[len - depth + j],
            decreases depth - i,
        {
            if !(pushes[i] == stack[len - depth + i]) {
                return Err(WalkError::IntegrityMismatch(op, pos));
            }
            i += 1;
        }
        Ok(())
    } else if OP_DUP1 <= op && op <= OP_DUP16 {
        let depth = (op - OP_DUP1) as usize + 1;
        if len < depth {
            return Err(WalkError::StackUnderflow(op));
        }
        if pushes.len() < depth + 1 {
            return Err(WalkError::MissingResult(op));
        }
        if !(pushes[depth] == stack[len - depth]) {
            return Err(WalkError::IntegrityMismatch(op, pos));
        }
        let mut i: usize = 0;
        while i < depth
            invariant
                0 <= i <= depth,
                depth == op - OP_DUP1 + 1,
                is_dup(op),
                len == stack@.len(),
                depth <= len,
                depth + 1 <= pushes@.len(),
                forall|j: int| 0 <= j < i ==> pushes@[j] == stack@[len - depth + j],
            decreases depth - i,
        {
            if !(pushes[i] == stack[len - depth + i]) {
                return Err(WalkError::IntegrityMismatch(op, pos));
            }
            i += 1;
        }
        Ok(())
    } else {
        Ok(())
    }
}

/// For a checked binary instruction with both operands on the stack and a
/// reported result present, the verifier accepts exactly when the first
/// reported result equals the wrapping 256-bit recomputation; it never
/// rejects a self-consistent trace and never accepts a divergent one.
pub proof fn lemma_verifier_exact(op: u8, stack: Seq<W256>, pushes: Seq<W256>, pos: u64)
    requires
        is_checked_binop(op),
        stack.len() >= 2,
        pushes.len() >= 1,
    ensures
        integrity_spec(op, stack, pushes, pos) == Ok::<(), WalkError>(()) <==> pushes[0].val()
            == binop_expected(op, stack[stack.len() - 1], stack[stack.len() - 2]),
{
}

/// For a duplicate instruction with enough operands and results, the
/// verifier accepts exactly when the reported results repeat the popped
/// operands unchanged and place a new copy of the k-deep operand on top.
pub proof fn lemma_dup_exact(op: u8, stack: Seq<W256>, pushes: Seq<W256>, pos: u64)
    requires
        is_dup(op),
        stack.len() >= op - OP_DUP1 + 1,
        pushes.len() >= op - OP_DUP1 + 2,
    ensures
        ({
            let depth = op - OP_DUP1 + 1;
            integrity_spec(op, stack, pushes, pos) == Ok::<(), WalkError>(()) <==> pushes[
                depth as int
            ] == stack[stack.len() - depth] && (forall|i: int|
                0 <= i < depth ==> pushes[i] == stack[stack.len() - depth + i])
        }),
{
}

/// For an exchange instruction with enough operands and results, the
/// verifier accepts exactly when the reported results show the top and the
/// (k+1)-deep operand swapped and everything strictly between unchanged.
pub proof fn lemma_swap_exact(op: u8, stack: Seq<W256>, pushes: Seq<W256>, pos: u64)
    requires
        is_swap(op),
        stack.len() >= op - OP_SWAP1 + 2,
        pushes.len() >= op - OP_SWAP1 + 2,
    ensures
        ({
            let depth = op - OP_SWAP1 + 2;
            integrity_spec(op, stack, pushes, pos) == Ok::<(), WalkError>(()) <==> pushes[0]
                == stack[stack.len() - 1] && pushes[depth - 1] == stack[stack.len() - depth]
                && (forall|i: int|
                1 <= i < depth - 1 ==> pushes[i] == stack[stack.len() - depth + i])
        }),
{
}

} // verus!
