//! Replays execution traces of smart-contract transactions to recover their
//! storage-level read/write behavior, cross-checks a subset of instruction
//! results for integrity, and reduces the full access log into a seeded
//! initial state plus a compact per-block replay workload.

use vstd::prelude::*;

pub mod arity;
pub mod keys;
pub mod opts;
pub mod reduce;
pub mod shards;
pub mod integrity;
pub mod walker;
pub mod word;

pub use keys::{Address, DBAccess, SlotKey};
pub use opts::{CombineOptions, FetchOptions, Options, SealOptions};
pub use reduce::ExperimentTask;
pub use word::W256;

verus! {

/// The storage accesses of one transaction, in execution order.
pub type TransactionAccess = Vec<crate::keys::DBAccess>;

/// The per-transaction access logs of one block, in transaction order.
pub type BlockAccess = Vec<TransactionAccess>;

} // verus!
