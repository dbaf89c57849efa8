//! Operand arity of every instruction: how many stack operands an
//! instruction consumes. The table must be complete and exact, since every
//! entry feeds the simulated stack bookkeeping of the trace walker.

use vstd::prelude::*;

verus! {

// Instruction codes the rest of the crate refers to by name.
pub const OP_ADD: u8 = 0x01;
pub const OP_MUL: u8 = 0x02;
pub const OP_SUB: u8 = 0x03;
pub const OP_DIV: u8 = 0x04;
pub const OP_EXP: u8 = 0x0a;
pub const OP_LT: u8 = 0x10;
pub const OP_GT: u8 = 0x11;
pub const OP_EQ: u8 = 0x14;
pub const OP_AND: u8 = 0x16;
pub const OP_OR: u8 = 0x17;
pub const OP_XOR: u8 = 0x18;
pub const OP_KECCAK256: u8 = 0x20;
pub const OP_SLOAD: u8 = 0x54;
pub const OP_SSTORE: u8 = 0x55;
pub const OP_DUP1: u8 = 0x80;
pub const OP_DUP16: u8 = 0x8f;
pub const OP_SWAP1: u8 = 0x90;
pub const OP_SWAP16: u8 = 0x9f;
pub const OP_CREATE: u8 = 0xf0;
pub const OP_CALL: u8 = 0xf1;
pub const OP_CALLCODE: u8 = 0xf2;
pub const OP_DELEGATECALL: u8 = 0xf4;
pub const OP_CREATE2: u8 = 0xf5;
pub const OP_STATICCALL: u8 = 0xfa;
pub const OP_INVALID: u8 = 0xfe;

/// How many operands the instruction `op` pops from the stack. Codes that
/// name no defined instruction fall in the invalid class and pop nothing.
pub open spec fn pop_num_spec(op: u8) -> nat {
    if op == 0x00 {
        0  // STOP
    } else if 0x01 <= op && op <= 0x07 {
        2  // ADD MUL SUB DIV SDIV MOD SMOD
    } else if op == 0x08 || op == 0x09 {
        3  // ADDMOD MULMOD
    } else if op == 0x0a || op == 0x0b {
        2  // EXP SIGNEXTEND
    } else if 0x10 <= op && op <= 0x14 {
        2  // LT GT SLT SGT EQ
    } else if op == 0x15 {
        1  // ISZERO
    } else if 0x16 <= op && op <= 0x18 {
        2  // AND OR XOR
    } else if op == 0x19 {
        1  // NOT
    } else if 0x1a <= op && op <= 0x1d {
        2  // BYTE SHL SHR SAR
    } else if op == 0x20 {
        2  // KECCAK256
    } else if op == 0x31 || op == 0x35 || op == 0x3b || op == 0x3f {
        1  // BALANCE CALLDATALOAD EXTCODESIZE EXTCODEHASH
    } else if op == 0x37 || op == 0x39 || op == 0x3e {
        3  // CALLDATACOPY CODECOPY RETURNDATACOPY
    } else if op == 0x3c {
        4  // EXTCODECOPY
    } else if op == 0x40 {
        1  // BLOCKHASH
    } else if op == 0x50 || op == 0x51 || op == 0x54 || op == 0x56 {
        1  // POP MLOAD SLOAD JUMP
    } else if op == 0x52 || op == 0x53 || op == 0x55 || op == 0x57 {
        2  // MSTORE MSTORE8 SSTORE JUMPI
    } else if 0x80 <= op && op <= 0x8f {
        (op - 0x7f) as nat  // DUP1..DUP16 pop 1..16
    } else if 0x90 <= op && op <= 0x9f {
        (op - 0x8e) as nat  // SWAP1..SWAP16 pop 2..17
    } else if 0xa0 <= op && op <= 0xa4 {
        (op - 0x9e) as nat  // LOG0..LOG4 pop 2..6
    } else if op == 0xf0 {
        3  // CREATE
    } else if op == 0xf1 || op == 0xf2 {
        7  // CALL CALLCODE
    } else if op == 0xf3 || op == 0xfd {
        2  // RETURN REVERT
    } else if op == 0xf4 {
        6  // DELEGATECALL
    } else if op == 0xf5 {
        4  // CREATE2
    } else if op == 0xfa {
        6  // STATICCALL
    } else if op == 0xff {
        1  // SELFDESTRUCT
    } else {
        0  // PUSH1..PUSH32, environment and block info, PC MSIZE GAS
           // JUMPDEST, INVALID, and every undefined code
    }
}

/// Executable operand-arity lookup.
pub fn pop_num(op: u8) -> (n: usize)
    ensures
        n == pop_num_spec(op),
{
    if op == 0x00 {
        0
    } else if 0x01 <= op && op <= 0x07 {
        2
    } else if op == 0x08 || op == 0x09 {
        3
    } else if op == 0x0a || op == 0x0b {
        2
    } else if 0x10 <= op && op <= 0x14 {
        2
    } else if op == 0x15 {
        1
    } else if 0x16 <= op && op <= 0x18 {
        2
    } else if op == 0x19 {
        1
    } else if 0x1a <= op && op <= 0x1d {
        2
    } else if op == 0x20 {
        2
    } else if op == 0x31 || op == 0x35 || op == 0x3b || op == 0x3f {
        1
    } else if op == 0x37 || op == 0x39 || op == 0x3e {
        3
    } else if op == 0x3c {
        4
    } else if op == 0x40 {
        1
    } else if op == 0x50 || op == 0x51 || op == 0x54 || op == 0x56 {
        1
    } else if op == 0x52 || op == 0x53 || op == 0x55 || op == 0x57 {
        2
    } else if 0x80 <= op && op <= 0x8f {
        (op - 0x7f) as usize
    } else if 0x90 <= op && op <= 0x9f {
        (op - 0x8e) as usize
    } else if 0xa0 <= op && op <= 0xa4 {
        (op - 0x9e) as usize
    } else if op == 0xf0 {
        3
    } else if op == 0xf1 || op == 0xf2 {
        7
    } else if op == 0xf3 || op == 0xfd {
        2
    } else if op == 0xf4 {
        6
    } else if op == 0xf5 {
        4
    } else if op == 0xfa {
        6
    } else if op == 0xff {
        1
    } else {
        0
    }
}

} // verus!
