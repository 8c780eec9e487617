//! Recoverable error values of the library.
//!
//! Continuity violations, stale snapshots and failed Merkle checks are
//! surfaced as explicit values that the orchestration layer can act on;
//! none of the verified operations panics on an invalid input.

use vstd::prelude::*;

verus! {

#[derive(Clone, Copy, Debug, PartialEq, Eq, Structural)]
pub enum ZkpError {
    /// A new block's number is not the successor of the latest block's number.
    BlockNumberMismatch,
    /// A new block's `prev_block_hash` differs from the latest block's hash.
    PrevBlockHashMismatch,
    /// A claimed block-tree root differs from the tree's actual root.
    BlockRootMismatch,
    /// A Merkle inclusion proof does not recompute the expected root.
    MerkleVerifyFailed,
    /// The accumulated spent amount would exceed the accumulated deposit.
    ConservationViolated,
    /// A withdrawal step's extended block number does not strictly increase.
    EbnNotIncreasing,
    /// A transfer's recipient differs from the withdrawal chain's recipient.
    RecipientMismatch,
    /// The first withdrawal step was given a non-zero prior total.
    TotalAmountNotZero,
    /// A settlement operation was attempted before `initialize`.
    NotInitialized,
    /// The block tree changed since the settlement snapshot was taken.
    SnapshotModified,
    /// The snapshot is older than a block referenced by the input.
    SnapshotTooOld,
    /// An operation that needs at least one element was given none.
    EmptyInput,
    /// A status to restore from is internally inconsistent.
    InvalidStatus,
    /// A hex string could not be decoded into the expected width.
    HexDecodeError,
    /// A decimal string could not be decoded into a 256-bit amount.
    DecimalDecodeError,
    /// A 256-bit amount would overflow.
    AmountOverflow,
}

impl ZkpError {
    /// A short human-readable description, in place of a `Display` impl.
    pub fn message(&self) -> String {
        match self {
            ZkpError::BlockNumberMismatch => "block_number mismatch".to_string(),
            ZkpError::PrevBlockHashMismatch => "prev_block_hash mismatch".to_string(),
            ZkpError::BlockRootMismatch => "block_root mismatch".to_string(),
            ZkpError::MerkleVerifyFailed => "Merkle proof verification failed".to_string(),
            ZkpError::ConservationViolated => "total spent exceeds total deposit".to_string(),
            ZkpError::EbnNotIncreasing => {
                "extended block number is not strictly increasing".to_string()
            },
            ZkpError::RecipientMismatch => "recipient mismatch".to_string(),
            ZkpError::TotalAmountNotZero => "prev total_amount must be zero".to_string(),
            ZkpError::NotInitialized => "you have to initialize first".to_string(),
            ZkpError::SnapshotModified => "snapshot modified since initialize".to_string(),
            ZkpError::SnapshotTooOld => "snapshot is too old".to_string(),
            ZkpError::EmptyInput => "input is empty".to_string(),
            ZkpError::InvalidStatus => "status is inconsistent".to_string(),
            ZkpError::HexDecodeError => "hex decoding failed".to_string(),
            ZkpError::DecimalDecodeError => "decimal decoding failed".to_string(),
            ZkpError::AmountOverflow => "amount overflow".to_string(),
        }
    }
}

} // verus!
