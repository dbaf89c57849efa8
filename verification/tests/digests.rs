use evm_io_tracker::keys::{Address, SlotKey};
use evm_io_tracker::word::W256;
use tiny_keccak::Hasher;

fn key(addr_lo: u64, slot: u64) -> SlotKey {
    SlotKey {
        address: Address { hi: 0, mid: 0, lo: addr_lo },
        slot: W256 { l0: slot, l1: 0, l2: 0, l3: 0 },
    }
}

#[test]
fn digest_is_deterministic() {
    let k = key(0x1234, 77);
    assert_eq!(k.digest(), k.digest());
    let same = key(0x1234, 77);
    assert_eq!(k.digest(), same.digest());
}

#[test]
fn digest_is_32_bytes() {
    assert_eq!(key(1, 2).digest().len(), 32);
}

#[test]
fn distinct_keys_get_distinct_digests() {
    let base = key(5, 9);
    let other_slot = key(5, 10);
    let other_addr = key(6, 9);
    assert_ne!(base.digest(), other_slot.digest());
    assert_ne!(base.digest(), other_addr.digest());
    assert_ne!(other_slot.digest(), other_addr.digest());
}

#[test]
fn address_and_slot_are_not_interchangeable() {
    // The 20 address bytes and the 32 slot bytes occupy fixed positions,
    // so moving a value between them changes the digest.
    let a = key(7, 0);
    let b = key(0, 7);
    assert_ne!(a.digest(), b.digest());
}

#[test]
fn digest_hashes_address_then_big_endian_slot() {
    // The digest must be keccak-256 over the 20 raw address bytes followed
    // by the slot as a 32-byte big-endian integer.
    let k = SlotKey {
        address: Address { hi: 0x01020304, mid: 0x05060708090a0b0c, lo: 0x0d0e0f1011121314 },
        slot: W256 { l0: 0x2122232425262728, l1: 0, l2: 0, l3: 1 },
    };
    let mut data = Vec::new();
    data.extend_from_slice(&[
        0x01, 0x02, 0x03, 0x04, 0x05, 0x06, 0x07, 0x08, 0x09, 0x0a, 0x0b, 0x0c, 0x0d, 0x0e,
        0x0f, 0x10, 0x11, 0x12, 0x13, 0x14,
    ]);
    let mut slot_bytes = [0u8; 32];
    slot_bytes[0..8].copy_from_slice(&1u64.to_be_bytes());
    slot_bytes[24..32].copy_from_slice(&0x2122232425262728u64.to_be_bytes());
    data.extend_from_slice(&slot_bytes);
    let mut expected = [0u8; 32];
    let mut hasher = tiny_keccak::Keccak::v256();
    hasher.update(&data);
    hasher.finalize(&mut expected);
    assert_eq!(k.digest(), expected.to_vec());
}

#[test]
fn word_big_endian_encoding() {
    let v = W256 { l0: 0x0102030405060708, l1: 0, l2: 0, l3: 0xaabbccdd00112233 };
    let bytes = v.to_be_bytes();
    assert_eq!(bytes.len(), 32);
    assert_eq!(&bytes[0..8], &0xaabbccdd00112233u64.to_be_bytes());
    assert_eq!(&bytes[24..32], &0x0102030405060708u64.to_be_bytes());
    assert_eq!(&bytes[8..24], &[0u8; 16]);
}
