use evm_io_tracker::keys::{Address, DBAccess, SlotKey};
use evm_io_tracker::walker::{parse_trace, Instr, TraceNode, TraceOp};
use evm_io_tracker::integrity::WalkError;
use evm_io_tracker::word::W256;

fn w(x: u64) -> W256 {
    W256 { l0: x, l1: 0, l2: 0, l3: 0 }
}

fn addr(lo: u64) -> Address {
    Address { hi: 0, mid: 0, lo }
}

fn op(code: u8, pushes: Vec<W256>) -> TraceOp {
    TraceOp { instr: Instr::Known(code), pushes: Some(pushes), sub: None }
}

fn push1(x: u64) -> TraceOp {
    op(0x60, vec![w(x)])
}

const FUEL: u64 = 64;

#[test]
fn sstore_records_write_with_context() {
    // PUSH value, PUSH slot, SSTORE: slot is the top operand, the value
    // the one beneath it.
    let trace = TraceNode { ops: vec![push1(7), push1(5), op(0x55, vec![])] };
    let contract = addr(0xabc);
    let accesses = parse_trace(&trace, contract, FUEL).unwrap();
    assert_eq!(
        accesses,
        vec![DBAccess::Write(SlotKey { address: contract, slot: w(5) }, w(7))]
    );
}

#[test]
fn sload_records_read_value_from_reported_result() {
    let trace = TraceNode { ops: vec![push1(5), op(0x54, vec![w(42)])] };
    let contract = addr(0xabc);
    let accesses = parse_trace(&trace, contract, FUEL).unwrap();
    assert_eq!(
        accesses,
        vec![DBAccess::Read(SlotKey { address: contract, slot: w(5) }, w(42))]
    );
}

#[test]
fn call_sub_trace_runs_under_callee() {
    // The callee address comes from the second stack operand of CALL.
    let callee = 0x5555;
    let inner = TraceNode { ops: vec![push1(9), op(0x54, vec![w(33)])] };
    let mut call = op(0xf1, vec![w(1)]);
    call.sub = Some(Box::new(inner));
    let trace = TraceNode {
        ops: vec![
            push1(0), // retLength
            push1(0), // retOffset
            push1(0), // argsLength
            push1(0), // argsOffset
            push1(0), // value
            push1(callee), // address
            push1(100), // gas (top)
            call,
        ],
    };
    let accesses = parse_trace(&trace, addr(0xaaaa), FUEL).unwrap();
    assert_eq!(
        accesses,
        vec![DBAccess::Read(SlotKey { address: addr(callee), slot: w(9) }, w(33))]
    );
}

#[test]
fn delegatecall_sub_trace_keeps_caller_context() {
    // Code-delegating calls run the sub-trace under the caller's storage.
    let inner = TraceNode { ops: vec![push1(8), push1(3), op(0x55, vec![])] };
    let mut dcall = op(0xf4, vec![w(1)]);
    dcall.sub = Some(Box::new(inner));
    let trace = TraceNode {
        ops: vec![
            push1(0),
            push1(0),
            push1(0),
            push1(0),
            push1(0x9999), // code address, ignored for context
            push1(100),
            dcall,
        ],
    };
    let caller = addr(0x1111);
    let accesses = parse_trace(&trace, caller, FUEL).unwrap();
    assert_eq!(
        accesses,
        vec![DBAccess::Write(SlotKey { address: caller, slot: w(3) }, w(8))]
    );
}

#[test]
fn create_sub_trace_runs_under_reported_address() {
    // The created contract's address is the instruction's own reported
    // result, not a stack operand.
    let inner = TraceNode { ops: vec![push1(6), push1(2), op(0x55, vec![])] };
    let mut create = op(0xf0, vec![w(0x7777)]);
    create.sub = Some(Box::new(inner));
    let trace = TraceNode {
        ops: vec![push1(0), push1(0), push1(0), create],
    };
    let accesses = parse_trace(&trace, addr(0x1111), FUEL).unwrap();
    assert_eq!(
        accesses,
        vec![DBAccess::Write(SlotKey { address: addr(0x7777), slot: w(2) }, w(6))]
    );
}

#[test]
fn create_without_result_is_unresolved() {
    let inner = TraceNode { ops: vec![] };
    let mut create = op(0xf0, vec![]);
    create.sub = Some(Box::new(inner));
    let trace = TraceNode {
        ops: vec![push1(0), push1(0), push1(0), create],
    };
    assert_eq!(
        parse_trace(&trace, addr(1), FUEL),
        Err(WalkError::UnresolvedCreationAddress)
    );
}

#[test]
fn sub_trace_accesses_come_before_own_effect() {
    // A CALL's nested accesses precede whatever follows in the caller.
    let inner = TraceNode { ops: vec![push1(1), op(0x54, vec![w(11)])] };
    let mut call = op(0xf1, vec![w(1)]);
    call.sub = Some(Box::new(inner));
    let trace = TraceNode {
        ops: vec![
            push1(0),
            push1(0),
            push1(0),
            push1(0),
            push1(0),
            push1(0x2222),
            push1(100),
            call,
            push1(4),
            op(0x54, vec![w(44)]),
        ],
    };
    let caller = addr(0x1111);
    let accesses = parse_trace(&trace, caller, FUEL).unwrap();
    assert_eq!(
        accesses,
        vec![
            DBAccess::Read(SlotKey { address: addr(0x2222), slot: w(1) }, w(11)),
            DBAccess::Read(SlotKey { address: caller, slot: w(4) }, w(44)),
        ]
    );
}

#[test]
fn legacy_hash_name_maps_to_canonical_code() {
    // "SHA3" is the legacy name of the hashing instruction, which pops
    // two operands; with an empty stack the walk must underflow at the
    // canonical code.
    let trace = TraceNode {
        ops: vec![TraceOp {
            instr: Instr::Named(String::from("SHA3")),
            pushes: Some(vec![w(1)]),
            sub: None,
        }],
    };
    assert_eq!(
        parse_trace(&trace, addr(1), FUEL),
        Err(WalkError::StackUnderflow(0x20))
    );
}

#[test]
fn unknown_name_is_zero_arity_no_op() {
    // An unrecognized instruction name is treated as the invalid
    // instruction: it pops nothing and the walk continues.
    let trace = TraceNode {
        ops: vec![
            TraceOp {
                instr: Instr::Named(String::from("SOMETHINGODD")),
                pushes: Some(vec![]),
                sub: None,
            },
            push1(5),
            op(0x54, vec![w(1)]),
        ],
    };
    let accesses = parse_trace(&trace, addr(1), FUEL).unwrap();
    assert_eq!(accesses.len(), 1);
}

#[test]
fn skipped_instructions_are_excluded() {
    // An instruction the trace marks as not executed is ignored entirely,
    // even if replaying it would fail.
    let trace = TraceNode {
        ops: vec![
            TraceOp { instr: Instr::Known(0x55), pushes: None, sub: None },
            push1(5),
            op(0x54, vec![w(2)]),
        ],
    };
    let accesses = parse_trace(&trace, addr(1), FUEL).unwrap();
    assert_eq!(accesses.len(), 1);
}

#[test]
fn arity_underflow_aborts_the_walk() {
    // SSTORE pops two operands; an empty stack is fatal.
    let trace = TraceNode { ops: vec![op(0x55, vec![])] };
    assert_eq!(
        parse_trace(&trace, addr(1), FUEL),
        Err(WalkError::StackUnderflow(0x55))
    );
}

#[test]
fn integrity_mismatch_aborts_the_walk() {
    let trace = TraceNode {
        ops: vec![push1(1), push1(2), op(0x01, vec![w(4)])],
    };
    assert_eq!(
        parse_trace(&trace, addr(1), FUEL),
        Err(WalkError::IntegrityMismatch(0x01, 2))
    );
}

#[test]
fn nested_calls_deeper_than_fuel_hit_depth_limit() {
    let mut node = TraceNode { ops: vec![push1(1), op(0x54, vec![w(1)])] };
    for _ in 0..4 {
        let mut call = op(0xf1, vec![w(1)]);
        call.sub = Some(Box::new(node));
        node = TraceNode {
            ops: vec![
                push1(0),
                push1(0),
                push1(0),
                push1(0),
                push1(0),
                push1(0x22),
                push1(100),
                call,
            ],
        };
    }
    assert!(parse_trace(&node, addr(1), 8).is_ok());
    assert_eq!(parse_trace(&node, addr(1), 3), Err(WalkError::DepthLimit));
}

#[test]
fn stack_shuffle_keeps_operand_positions() {
    // DUP and SWAP results feed the simulated stack, so a later SSTORE
    // sees the shuffled operands.
    let trace = TraceNode {
        ops: vec![
            push1(7), // value
            push1(5), // slot
            // SWAP1 exchanges value and slot.
            op(0x90, vec![w(5), w(7)]),
            op(0x55, vec![]),
        ],
    };
    let contract = addr(9);
    let accesses = parse_trace(&trace, contract, FUEL).unwrap();
    assert_eq!(
        accesses,
        vec![DBAccess::Write(SlotKey { address: contract, slot: w(7) }, w(5))]
    );
}
