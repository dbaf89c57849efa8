//! The option sets of the three processing stages. Argument parsing lives
//! outside the library; these are the plain values it hands over.

use vstd::prelude::*;

verus! {

/// Which stage to run, with its options.
#[derive(Clone, Debug)]
pub enum Options {
    Fetch(FetchOptions),
    Combine(CombineOptions),
    Seal(SealOptions),
}

/// Options of the fetch stage: which node to ask, the first block of the
/// batch, and how many blocks to retrieve.
#[derive(Clone, Debug)]
pub struct FetchOptions {
    pub node_url: String,
    pub start_block: u64,
    pub batch_size: u64,
}

/// Options of the combine stage: the optional inclusive lower and
/// exclusive upper block bounds, and the output directory.
#[derive(Clone, Debug)]
pub struct CombineOptions {
    pub start_block: Option<u64>,
    pub end_block: Option<u64>,
    pub path: String,
}

/// Options of the seal stage: the combined trace to reduce and the
/// directory the two artifacts go to.
#[derive(Clone, Debug)]
pub struct SealOptions {
    pub input: String,
    pub output: String,
}

} // verus!
