//! A transfer plus the evidence that it happened: its Merkle inclusion
//! proof against a specific block's transfer-tree root, and that block.

use vstd::prelude::*;

use crate::block::Block;
use crate::error::ZkpError;
use crate::extended_block_number::ExtendedBlockNumber;
use crate::merkle_tree::merkle_fold;
use crate::merkle_tree_with_leaves::{Leafable, MerkleProofWithLeaves};
use crate::transfer::Transfer;

verus! {

pub struct TransferInfo {
    pub transfer: Transfer,
    pub transfer_index: usize,
    pub transfer_merkle_proof: MerkleProofWithLeaves,
    pub block: Block,
}

impl TransferInfo {
    /// The inclusion claim this info makes: its transfer hashes into the
    /// block's transfer-tree root at its index.
    pub open spec fn spec_valid(&self) -> bool {
        merkle_fold(
            self.transfer.spec_hash(),
            self.transfer_merkle_proof.0.views(),
            self.transfer_index as int,
        ) == crate::digest::spec_digest_of_bytes(self.block.transfer_tree_root.0@)
    }

    /// Check the claimed inclusion; `Ok` exactly when it holds.
    pub fn verify(&self) -> (r: Result<(), ZkpError>)
        ensures
            r is Ok <==> self.spec_valid(),
            r is Err ==> r->Err_0 == ZkpError::MerkleVerifyFailed,
    {
        let transfer_tree_root = self.block.transfer_tree_root.reduce_to_digest();
        self.transfer_merkle_proof.verify(&self.transfer, self.transfer_index, transfer_tree_root)
    }

    /// The transfer's position in the global consumption order.
    pub fn ebn(&self) -> (r: ExtendedBlockNumber)
        requires
            self.transfer_index < 0x1_0000_0000,
        ensures
            r.0 == (self.block.block_number as u64) * 0x1_0000_0000 + self.transfer_index as u64,
    {
        ExtendedBlockNumber::construct(self.block.block_number, self.transfer_index)
    }

    /// An owned copy.
    pub fn duplicate(&self) -> (r: TransferInfo)
        ensures
            r.transfer == self.transfer,
            r.transfer_index == self.transfer_index,
            r.transfer_merkle_proof.0.views() == self.transfer_merkle_proof.0.views(),
            r.block == self.block,
            r.spec_valid() == self.spec_valid(),
    {
        let mut siblings: Vec<crate::digest::Digest> = Vec::new();
        let mut i: usize = 0;
        while i < self.transfer_merkle_proof.0.siblings.len()
            invariant
                i <= self.transfer_merkle_proof.0.siblings@.len(),
                siblings@ =~= self.transfer_merkle_proof.0.siblings@.take(i as int),
            decreases self.transfer_merkle_proof.0.siblings@.len() - i,
        {
            siblings.push(self.transfer_merkle_proof.0.siblings[i]);
            proof {
                assert(siblings@ =~= self.transfer_merkle_proof.0.siblings@.take(i + 1));
            }
            i = i + 1;
        }
        proof {
            assert(self.transfer_merkle_proof.0.siblings@.take(
                self.transfer_merkle_proof.0.siblings@.len() as int,
            ) =~= self.transfer_merkle_proof.0.siblings@);
        }
        TransferInfo {
            transfer: self.transfer,
            transfer_index: self.transfer_index,
            transfer_merkle_proof: MerkleProofWithLeaves(crate::merkle_tree::MerkleProof {
                siblings,
            }),
            block: self.block,
        }
    }
}

} // verus!
