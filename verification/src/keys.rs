//! Storage cell identities: the owning contract's address, the 256-bit slot
//! number, and the opaque digest that names a cell in the produced
//! artifacts.

use tiny_keccak::Hasher;
use vstd::prelude::*;
use crate::word::{
    push_u32_be, push_u64_be, u32_be_seq, u64_be_seq, w256_be_seq, W256,
};

verus! {

/// A 20-byte contract address, stored as three big-endian segments: the
/// first 4 bytes, the middle 8, and the last 8.
#[derive(Clone, Copy, Debug, PartialEq, Eq, Structural)]
pub struct Address {
    pub hi: u32,
    pub mid: u64,
    pub lo: u64,
}

/// The 20 raw bytes of an address, most significant first.
pub open spec fn addr_bytes(a: Address) -> Seq<u8> {
    u32_be_seq(a.hi) + u64_be_seq(a.mid) + u64_be_seq(a.lo)
}

/// The address held in the low 20 bytes of a word, as used for call
/// targets taken from the operand stack.
pub open spec fn word_to_address_spec(w: W256) -> Address {
    Address { hi: (w.l2 & 0xffffffff) as u32, mid: w.l1, lo: w.l0 }
}

/// Extracts the address held in the low 20 bytes of a word.
pub fn word_to_address(w: W256) -> (r: Address)
    ensures
        r == word_to_address_spec(w),
{
    Address { hi: (w.l2 & 0xffffffff) as u32, mid: w.l1, lo: w.l0 }
}

/// Identifies one storage cell: a contract address and a slot number.
#[derive(Clone, Copy, Debug, PartialEq, Eq, Structural)]
pub struct SlotKey {
    pub address: Address,
    pub slot: W256,
}

/// One observed storage operation, with the value read or written.
#[derive(Clone, Copy, Debug, PartialEq, Eq, Structural)]
pub enum DBAccess {
    Read(SlotKey, W256),
    Write(SlotKey, W256),
}

impl DBAccess {
    /// The storage cell the access touches.
    pub open spec fn key(self) -> SlotKey {
        match self {
            DBAccess::Read(k, _) => k,
            DBAccess::Write(k, _) => k,
        }
    }

    /// The value read or written.
    pub open spec fn value(self) -> W256 {
        match self {
            DBAccess::Read(_, v) => v,
            DBAccess::Write(_, v) => v,
        }
    }

    /// Whether the access is a read.
    pub open spec fn is_read(self) -> bool {
        self is Read
    }
}

/// The 52 bytes a key is hashed over: the raw address bytes followed by
/// the slot as a 32-byte big-endian integer.
pub open spec fn key_bytes(k: SlotKey) -> Seq<u8> {
    addr_bytes(k.address) + w256_be_seq(k.slot)
}

/// The keccak-256 digest of a byte sequence.
pub uninterp spec fn keccak_of(data: Seq<u8>) -> Seq<u8>;

/// Relies on tiny_keccak's Keccak::v256 (update, finalize): the keccak-256
/// digest, a 32-byte value determined by the input bytes alone.
#[verifier::external_body]
fn keccak256(data: &Vec<u8>) -> (r: Vec<u8>)
    ensures
        r@ == keccak_of(data@),
        r@.len() == 32,
{
    let mut output = [0u8; 32];
    let mut hasher = tiny_keccak::Keccak::v256();
    hasher.update(data.as_slice());
    hasher.finalize(&mut output);
    output.to_vec()
}

/// The content address of a storage cell.
pub open spec fn digest_spec(k: SlotKey) -> Seq<u8> {
    keccak_of(key_bytes(k))
}

impl SlotKey {
    /// The deterministic 32-byte content address of this storage cell,
    /// derived from the address and slot only.
    pub fn digest(&self) -> (r: Vec<u8>)
        ensures
            r@ == digest_spec(*self),
            r@.len() == 32,
    {
        let mut data: Vec<u8> = Vec::new();
        push_u32_be(&mut data, self.address.hi);
        push_u64_be(&mut data, self.address.mid);
        push_u64_be(&mut data, self.address.lo);
        let mut slot_bytes = self.slot.to_be_bytes();
        data.append(&mut slot_bytes);
        proof {
            assert(data@ =~= key_bytes(*self));
        }
        keccak256(&data)
    }
}

/// The digest is a pure function of the key: equal keys always produce
/// the same 32 bytes.
pub proof fn lemma_digest_deterministic(k1: SlotKey, k2: SlotKey)
    requires
        k1 == k2,
    ensures
        digest_spec(k1) == digest_spec(k2),
{
}

} // verus!
