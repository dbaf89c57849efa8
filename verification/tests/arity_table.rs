use evm_io_tracker::arity::pop_num;

#[test]
fn arithmetic_and_bitwise_arities() {
    assert_eq!(pop_num(0x00), 0); // STOP
    assert_eq!(pop_num(0x01), 2); // ADD
    assert_eq!(pop_num(0x08), 3); // ADDMOD
    assert_eq!(pop_num(0x0a), 2); // EXP
    assert_eq!(pop_num(0x15), 1); // ISZERO
    assert_eq!(pop_num(0x19), 1); // NOT
    assert_eq!(pop_num(0x1d), 2); // SAR
    assert_eq!(pop_num(0x20), 2); // KECCAK256
}

#[test]
fn environment_and_memory_arities() {
    assert_eq!(pop_num(0x30), 0); // ADDRESS
    assert_eq!(pop_num(0x31), 1); // BALANCE
    assert_eq!(pop_num(0x37), 3); // CALLDATACOPY
    assert_eq!(pop_num(0x3c), 4); // EXTCODECOPY
    assert_eq!(pop_num(0x40), 1); // BLOCKHASH
    assert_eq!(pop_num(0x48), 0); // BASEFEE
    assert_eq!(pop_num(0x50), 1); // POP
    assert_eq!(pop_num(0x52), 2); // MSTORE
    assert_eq!(pop_num(0x54), 1); // SLOAD
    assert_eq!(pop_num(0x55), 2); // SSTORE
    assert_eq!(pop_num(0x5b), 0); // JUMPDEST
}

#[test]
fn push_dup_swap_log_arities() {
    assert_eq!(pop_num(0x60), 0); // PUSH1
    assert_eq!(pop_num(0x7f), 0); // PUSH32
    assert_eq!(pop_num(0x80), 1); // DUP1
    assert_eq!(pop_num(0x8f), 16); // DUP16
    assert_eq!(pop_num(0x90), 2); // SWAP1
    assert_eq!(pop_num(0x9f), 17); // SWAP16
    assert_eq!(pop_num(0xa0), 2); // LOG0
    assert_eq!(pop_num(0xa4), 6); // LOG4
}

#[test]
fn call_and_create_arities() {
    assert_eq!(pop_num(0xf0), 3); // CREATE
    assert_eq!(pop_num(0xf1), 7); // CALL
    assert_eq!(pop_num(0xf2), 7); // CALLCODE
    assert_eq!(pop_num(0xf3), 2); // RETURN
    assert_eq!(pop_num(0xf4), 6); // DELEGATECALL
    assert_eq!(pop_num(0xf5), 4); // CREATE2
    assert_eq!(pop_num(0xfa), 6); // STATICCALL
    assert_eq!(pop_num(0xfd), 2); // REVERT
    assert_eq!(pop_num(0xff), 1); // SELFDESTRUCT
}

#[test]
fn undefined_codes_pop_nothing() {
    assert_eq!(pop_num(0x0c), 0);
    assert_eq!(pop_num(0x21), 0);
    assert_eq!(pop_num(0x49), 0);
    assert_eq!(pop_num(0xa5), 0);
    assert_eq!(pop_num(0xfe), 0); // INVALID
}
