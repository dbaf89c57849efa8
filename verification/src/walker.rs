//! Replays one transaction's execution-trace tree, keeping a simulated
//! operand stack in step with the real one, cross-checking reported
//! results, following nested call and creation sub-traces under the right
//! contract context, and emitting the ordered storage access sequence.

use vstd::prelude::*;
use crate::arity::{
    pop_num, pop_num_spec, OP_CALL, OP_CALLCODE, OP_CREATE, OP_CREATE2, OP_DELEGATECALL,
    OP_INVALID, OP_KECCAK256, OP_SLOAD, OP_SSTORE, OP_STATICCALL,
};
use crate::keys::{word_to_address, word_to_address_spec, Address, DBAccess, SlotKey};
use crate::integrity::{integrity_check, integrity_spec, WalkError};
use crate::word::W256;

verus! {

/// One instruction as the trace reports it: a known code, or a bare name
/// for an instruction outside the known set.
pub enum Instr {
    Known(u8),
    Named(String),
}

/// One instruction record of a trace: the instruction, the values it
/// pushed if it actually executed (`None` means it was skipped), and the
/// nested sub-trace of a call or creation, if any.
pub struct TraceOp {
    pub instr: Instr,
    pub pushes: Option<Vec<W256>>,
    pub sub: Option<Box<TraceNode>>,
}

/// The execution trace of one call frame: its instructions in order.
pub struct TraceNode {
    pub ops: Vec<TraceOp>,
}

/// Relies on str's `==` (its PartialEq): byte-for-byte equality of the two
/// strings.
#[verifier::external_body]
fn str_eq(a: &str, b: &str) -> (r: bool)
    ensures
        r <==> a@ == b@,
{
    a == b
}

/// The instruction code an instruction report resolves to: a known code
/// stands as is; the legacy name of the hashing instruction maps to its
/// canonical code; any other bare name is treated as the invalid
/// instruction.
pub open spec fn resolve_spec(i: Instr) -> u8 {
    match i {
        Instr::Known(b) => b,
        Instr::Named(s) => if s@ == "SHA3"@ {
            OP_KECCAK256
        } else {
            OP_INVALID
        },
    }
}

/// Resolves an instruction report to an instruction code.
pub fn resolve_instr(i: &Instr) -> (r: u8)
    ensures
        r == resolve_spec(*i),
{
    match i {
        Instr::Known(b) => *b,
        Instr::Named(s) => if str_eq(s.as_str(), "SHA3") {
            OP_KECCAK256
        } else {
            OP_INVALID
        },
    }
}

/// What the nested sub-trace of the instruction `op` (resolved to `code`,
/// with reported results `pushes`) contributes: standard and read-only
/// calls run under the callee taken from the second stack operand,
/// code-delegating calls run under the current context, and creations run
/// under the address the instruction itself reports. An instruction
/// without a sub-trace, or outside the call and create families,
/// contributes nothing.
pub open spec fn sub_walk_spec(
    op: TraceOp,
    code: u8,
    pushes: Seq<W256>,
    stack: Seq<W256>,
    contract: Address,
    fuel: nat,
) -> Result<Seq<DBAccess>, WalkError>
    decreases fuel, 0nat, 0nat,
{
    match op.sub {
        Some(sub) => if code == OP_CALL || code == OP_STATICCALL {
            if stack.len() < 2 {
                Err(WalkError::StackUnderflow(code))
            } else if fuel == 0 {
                Err(WalkError::DepthLimit)
            } else {
                walk_node_spec(
                    *sub,
                    word_to_address_spec(stack[stack.len() - 2]),
                    (fuel - 1) as nat,
                )
            }
        } else if code == OP_CALLCODE || code == OP_DELEGATECALL {
            if fuel == 0 {
                Err(WalkError::DepthLimit)
            } else {
                walk_node_spec(*sub, contract, (fuel - 1) as nat)
            }
        } else if code == OP_CREATE || code == OP_CREATE2 {
            if pushes.len() < 1 {
                Err(WalkError::UnresolvedCreationAddress)
            } else if fuel == 0 {
                Err(WalkError::DepthLimit)
            } else {
                walk_node_spec(*sub, word_to_address_spec(pushes[0]), (fuel - 1) as nat)
            }
        } else {
            Ok(Seq::empty())
        },
        None => Ok(Seq::empty()),
    }
}

/// The storage access the instruction itself performs: a load records a
/// read of the slot named by the top operand with the value the trace
/// reports; a store records a write of that slot with the second operand.
/// Every other instruction records nothing.
pub open spec fn own_access_spec(
    code: u8,
    stack: Seq<W256>,
    pushes: Seq<W256>,
    contract: Address,
) -> Result<Seq<DBAccess>, WalkError> {
    if code == OP_SLOAD {
        if stack.len() < 1 {
            Err(WalkError::StackUnderflow(code))
        } else if pushes.len() < 1 {
            Err(WalkError::MissingResult(code))
        } else {
            Ok(
                seq![
                    DBAccess::Read(
                        SlotKey { address: contract, slot: stack[stack.len() - 1] },
                        pushes[0],
                    ),
                ],
            )
        }
    } else if code == OP_SSTORE {
        if stack.len() < 2 {
            Err(WalkError::StackUnderflow(code))
        } else {
            Ok(
                seq![
                    DBAccess::Write(
                        SlotKey { address: contract, slot: stack[stack.len() - 1] },
                        stack[stack.len() - 2],
                    ),
                ],
            )
        }
    } else {
        Ok(Seq::empty())
    }
}

/// What walking the instructions of `ops` from position `i` onward yields,
/// starting from the given simulated stack, under contract context
/// `contract`, with `fuel` bounding the remaining nested-call depth: the
/// storage accesses in depth-first order, or the error that aborts the
/// walk. Each executed instruction is integrity-checked, its sub-trace
/// walked, its own access recorded, and the stack advanced by popping its
/// arity and pushing its reported results.
pub open spec fn walk_ops_spec(
    ops: Seq<TraceOp>,
    i: int,
    stack: Seq<W256>,
    contract: Address,
    fuel: nat,
) -> Result<Seq<DBAccess>, WalkError>
    decreases fuel, 0nat, ops.len() - i + 1,
{
    if i < 0 || i >= ops.len() {
        Ok(Seq::empty())
    } else {
        match ops[i].pushes {
            None => walk_ops_spec(ops, i + 1, stack, contract, fuel),
            Some(pushes) => {
                let code = resolve_spec(ops[i].instr);
                match integrity_spec(code, stack, pushes@, i as u64) {
                    Err(e) => Err(e),
                    Ok(_) => match sub_walk_spec(ops[i], code, pushes@, stack, contract, fuel) {
                        Err(e) => Err(e),
                        Ok(sub_acc) => match own_access_spec(code, stack, pushes@, contract) {
                            Err(e) => Err(e),
                            Ok(own) => if stack.len() < pop_num_spec(code) {
                                Err(WalkError::StackUnderflow(code))
                            } else {
                                let new_stack = stack.take(stack.len() - pop_num_spec(code))
                                    + pushes@;
                                match walk_ops_spec(ops, i + 1, new_stack, contract, fuel) {
                                    Err(e) => Err(e),
                                    Ok(rest) => Ok(sub_acc + own + rest),
                                }
                            },
                        },
                    },
                }
            },
        }
    }
}

/// What walking a whole call frame yields: a fresh, empty simulated stack,
/// the frame's instructions in order, under contract context `contract`.
pub open spec fn walk_node_spec(n: TraceNode, contract: Address, fuel: nat) -> Result<
    Seq<DBAccess>,
    WalkError,
>
    decreases fuel, 1nat, 0nat,
{
    if fuel == 0 {
        Err(WalkError::DepthLimit)
    } else {
        walk_ops_spec(n.ops@, 0, Seq::empty(), contract, fuel)
    }
}

/// A walk result with the access list abstracted to its sequence.
pub open spec fn result_view(r: Result<Vec<DBAccess>, WalkError>) -> Result<
    Seq<DBAccess>,
    WalkError,
> {
    match r {
        Ok(v) => Ok(v@),
        Err(e) => Err(e),
    }
}

/// Glues an already-emitted access prefix onto the outcome of the rest of
/// a walk.
pub open spec fn combine(acc: Seq<DBAccess>, r: Result<Seq<DBAccess>, WalkError>) -> Result<
    Seq<DBAccess>,
    WalkError,
> {
    match r {
        Ok(s) => Ok(acc + s),
        Err(e) => Err(e),
    }
}

/// After one successfully replayed instruction at position `i`, gluing the
/// enlarged prefix onto the rest of the walk yields the same total as
/// gluing the old prefix onto the walk from `i`.
proof fn lemma_step_combine(
    ops: Seq<TraceOp>,
    i: int,
    stack: Seq<W256>,
    contract: Address,
    fuel: nat,
    pre_acc: Seq<DBAccess>,
    post_acc: Seq<DBAccess>,
    new_stack: Seq<W256>,
)
    requires
        0 <= i < ops.len(),
        ops[i].pushes is Some,
        ({
            let pushes = ops[i].pushes->Some_0;
            let code = resolve_spec(ops[i].instr);
            &&& integrity_spec(code, stack, pushes@, i as u64) is Ok
            &&& stack.len() >= pop_num_spec(code)
            &&& new_stack == stack.take(stack.len() - pop_num_spec(code)) + pushes@
            &&& sub_walk_spec(ops[i], code, pushes@, stack, contract, fuel) is Ok
            &&& own_access_spec(code, stack, pushes@, contract) is Ok
            &&& post_acc == pre_acc + sub_walk_spec(
                ops[i],
                code,
                pushes@,
                stack,
                contract,
                fuel,
            )->Ok_0 + own_access_spec(code, stack, pushes@, contract)->Ok_0
        }),
    ensures
        combine(post_acc, walk_ops_spec(ops, i + 1, new_stack, contract, fuel)) == combine(
            pre_acc,
            walk_ops_spec(ops, i, stack, contract, fuel),
        ),
{
    let pushes = ops[i].pushes->Some_0;
    let code = resolve_spec(ops[i].instr);
    let sub_acc = sub_walk_spec(ops[i], code, pushes@, stack, contract, fuel)->Ok_0;
    let own = own_access_spec(code, stack, pushes@, contract)->Ok_0;
    match walk_ops_spec(ops, i + 1, new_stack, contract, fuel) {
        Err(_) => {},
        Ok(rest) => {
            assert(walk_ops_spec(ops, i, stack, contract, fuel) == Ok::<_, WalkError>(
                sub_acc + own + rest,
            ));
            assert(pre_acc + (sub_acc + own + rest) =~= (pre_acc + sub_acc + own) + rest);
        },
    }
}

/// Replays the execution trace of one call frame and returns the ordered
/// storage accesses it performs, including those of nested calls, or the
/// error that desynchronized the replay. `fuel` bounds the nested-call
/// depth.
pub fn parse_trace(trace: &TraceNode, contract: Address, fuel: u64) -> (r: Result<
    Vec<DBAccess>,
    WalkError,
>)
    ensures
        result_view(r) == walk_node_spec(*trace, contract, fuel as nat),
    decreases fuel,
{
    if fuel == 0 {
        return Err(WalkError::DepthLimit);
    }
    let ghost total = walk_ops_spec(trace.ops@, 0, Seq::<W256>::empty(), contract, fuel as nat);
    let mut stack: Vec<W256> = Vec::new();
    let mut acc: Vec<DBAccess> = Vec::new();
    let mut idx: usize = 0;
    proof {
        assert(acc@ + walk_ops_spec(trace.ops@, 0, stack@, contract, fuel as nat)->Ok_0
            =~= walk_ops_spec(trace.ops@, 0, stack@, contract, fuel as nat)->Ok_0);
    }
    while idx < trace.ops.len()
        invariant
            fuel >= 1,
            idx <= trace.ops@.len(),
            walk_node_spec(*trace, contract, fuel as nat) == total,
            combine(acc@, walk_ops_spec(trace.ops@, idx as int, stack@, contract, fuel as nat))
                == total,
        decreases trace.ops@.len() - idx,
    {
        let ghost pre_stack = stack@;
        let ghost pre_acc = acc@;
        let op = &trace.ops[idx];
        match &op.pushes {
            None => {
                idx += 1;
            },
            Some(pushes) => {
                let code = resolve_instr(&op.instr);
                match integrity_check(code, &stack, pushes, idx as u64) {
                    Err(e) => {
                        return Err(e);
                    },
                    Ok(_) => {},
                }
                match &op.sub {
                    Some(sub_node) => {
                        if code == OP_CALL || code == OP_STATICCALL {
                            if stack.len() < 2 {
                                return Err(WalkError::StackUnderflow(code));
                            }
                            let target = word_to_address(stack[stack.len() - 2]);
                            match parse_trace(sub_node, target, fuel - 1) {
                                Ok(mut v) => acc.append(&mut v),
                                Err(e) => {
                                    return Err(e);
                                },
                            }
                        } else if code == OP_CALLCODE || code == OP_DELEGATECALL {
                            match parse_trace(sub_node, contract, fuel - 1) {
                                Ok(mut v) => acc.append(&mut v),
                                Err(e) => {
                                    return Err(e);
                                },
                            }
                        } else if code == OP_CREATE || code == OP_CREATE2 {
                            if pushes.len() < 1 {
                                return Err(WalkError::UnresolvedCreationAddress);
                            }
                            let created = word_to_address(pushes[0]);
                            match parse_trace(sub_node, created, fuel - 1) {
                                Ok(mut v) => acc.append(&mut v),
                                Err(e) => {
                                    return Err(e);
                                },
                            }
                        }
                    },
                    None => {},
                }
                let ghost mid_acc = acc@;
                proof {
                    assert(pre_acc + Seq::<DBAccess>::empty() =~= pre_acc);
                }
                if code == OP_SLOAD {
                    if stack.len() < 1 {
                        return Err(WalkError::StackUnderflow(code));
                    }
                    if pushes.len() < 1 {
                        return Err(WalkError::MissingResult(code));
                    }
                    let access = DBAccess::Read(
                        SlotKey { address: contract, slot: stack[stack.len() - 1] },
                        pushes[0],
                    );
                    acc.push(access);
                    proof {
                        assert(acc@ =~= mid_acc + seq![access]);
                    }
                } else if code == OP_SSTORE {
                    if stack.len() < 2 {
                        return Err(WalkError::StackUnderflow(code));
                    }
                    let access = DBAccess::Write(
                        SlotKey { address: contract, slot: stack[stack.len() - 1] },
                        stack[stack.len() - 2],
                    );
                    acc.push(access);
                    proof {
                        assert(acc@ =~= mid_acc + seq![access]);
                    }
                } else {
                    proof {
                        assert(acc@ =~= mid_acc + Seq::<DBAccess>::empty());
                    }
                }
                let n = pop_num(code);
                proof {
                    assert(sub_walk_spec(
                        trace.ops@[idx as int],
                        code,
                        pushes@,
                        pre_stack,
                        contract,
                        fuel as nat,
                    ) is Ok);
                    assert(own_access_spec(code, pre_stack, pushes@, contract) is Ok);
                }
                if stack.len() < n {
                    return Err(WalkError::StackUnderflow(code));
                }
                let new_len = stack.len() - n;
                stack.truncate(new_len);
                stack.extend_from_slice(pushes.as_slice());
                idx += 1;
                proof {
                    let gi = (idx - 1) as int;
                    let gpushes = trace.ops@[gi].pushes->Some_0;
                    let gcode = resolve_spec(trace.ops@[gi].instr);
                    assert(integrity_spec(gcode, pre_stack, gpushes@, gi as u64) is Ok);
                    assert(stack@ == pre_stack.take(pre_stack.len() - pop_num_spec(gcode))
                        + gpushes@);
                    lemma_step_combine(
                        trace.ops@,
                        gi,
                        pre_stack,
                        contract,
                        fuel as nat,
                        pre_acc,
                        acc@,
                        stack@,
                    );
                }
            },
        }
    }
    proof {
        assert(acc@ + Seq::<DBAccess>::empty() =~= acc@);
    }
    Ok(acc)
}

} // verus!
