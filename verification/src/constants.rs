//! Fixed shape parameters of the rollup protocol.

use vstd::prelude::*;

verus! {

/// Height of each block's transfer Merkle tree; a block holds at most
/// `2^TRANSFER_TREE_HEIGHT` transfers.
pub const TRANSFER_TREE_HEIGHT: usize = 11;

/// Number of supported asset kinds; an `Assets` vector has this many entries.
pub const NUM_ASSETS: usize = 4;

/// Height of the append-only block-header Merkle tree.
pub const BLOCK_TREE_HEIGHT: usize = 32;

} // verus!
