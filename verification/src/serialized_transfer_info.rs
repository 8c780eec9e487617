//! Flat form of a transfer's evidence for transport: the sibling digests
//! carried as plain values. The conversion to and from the working form
//! is exact in both directions.

use vstd::prelude::*;

use crate::block::Block;
use crate::digest::Digest;
use crate::merkle_tree::MerkleProof;
use crate::merkle_tree_with_leaves::MerkleProofWithLeaves;
use crate::transfer::Transfer;
use crate::transfer_info::TransferInfo;

verus! {

/// A digest in transport form.
#[derive(Copy, Clone)]
pub struct SerializedHashOut(pub Digest);

pub struct SerializedTransferInfo {
    pub transfer: Transfer,
    pub transfer_index: usize,
    pub transfer_merkle_proof: Vec<SerializedHashOut>,
    pub block: Block,
}

impl SerializedTransferInfo {
    /// The carried sibling digests.
    pub open spec fn spec_sibling_views(&self) -> Seq<Seq<u64>> {
        Seq::new(self.transfer_merkle_proof@.len(), |i: int| self.transfer_merkle_proof@[i].0.0@)
    }

    /// Flatten a transfer's evidence for transport.
    pub fn of_transfer_info(value: &TransferInfo) -> (r: SerializedTransferInfo)
        ensures
            r.transfer == value.transfer,
            r.transfer_index == value.transfer_index,
            r.block == value.block,
            r.spec_sibling_views() == value.transfer_merkle_proof.0.views(),
    {
        let mut transfer_merkle_proof: Vec<SerializedHashOut> = Vec::new();
        let mut i: usize = 0;
        while i < value.transfer_merkle_proof.0.siblings.len()
            invariant
                i <= value.transfer_merkle_proof.0.siblings@.len(),
                transfer_merkle_proof@.len() == i,
                forall|j: int|
                    0 <= j < i ==> (#[trigger] transfer_merkle_proof@[j]).0.0@
                        == value.transfer_merkle_proof.0.siblings@[j].0@,
            decreases value.transfer_merkle_proof.0.siblings@.len() - i,
        {
            transfer_merkle_proof.push(SerializedHashOut(value.transfer_merkle_proof.0.siblings[i]));
            i = i + 1;
        }
        let r = SerializedTransferInfo {
            transfer: value.transfer,
            transfer_index: value.transfer_index,
            transfer_merkle_proof,
            block: value.block,
        };
        proof {
            assert(r.spec_sibling_views() =~= value.transfer_merkle_proof.0.views());
        }
        r
    }

    /// Rebuild the working form. Converting back and forth is exact.
    pub fn to_transfer_info(&self) -> (r: TransferInfo)
        ensures
            r.transfer == self.transfer,
            r.transfer_index == self.transfer_index,
            r.block == self.block,
            r.transfer_merkle_proof.0.views() == self.spec_sibling_views(),
    {
        let mut siblings: Vec<Digest> = Vec::new();
        let mut i: usize = 0;
        while i < self.transfer_merkle_proof.len()
            invariant
                i <= self.transfer_merkle_proof@.len(),
                siblings@.len() == i,
                forall|j: int|
                    0 <= j < i ==> (#[trigger] siblings@[j]).0@
                        == self.transfer_merkle_proof@[j].0.0@,
            decreases self.transfer_merkle_proof@.len() - i,
        {
            siblings.push(self.transfer_merkle_proof[i].0);
            i = i + 1;
        }
        let r = TransferInfo {
            transfer: self.transfer,
            transfer_index: self.transfer_index,
            transfer_merkle_proof: MerkleProofWithLeaves(MerkleProof { siblings }),
            block: self.block,
        };
        proof {
            assert(r.transfer_merkle_proof.0.views() =~= self.spec_sibling_views());
        }
        r
    }
}

/// The transport conversion round-trips: flattening a transfer's evidence
/// and rebuilding it reproduces the claim exactly, so its validity is
/// unchanged.
pub proof fn lemma_transfer_info_roundtrip(a: &TransferInfo, b: &SerializedTransferInfo, c:
    &TransferInfo)
    requires
        b.transfer == a.transfer,
        b.transfer_index == a.transfer_index,
        b.block == a.block,
        b.spec_sibling_views() == a.transfer_merkle_proof.0.views(),
        c.transfer == b.transfer,
        c.transfer_index == b.transfer_index,
        c.block == b.block,
        c.transfer_merkle_proof.0.views() == b.spec_sibling_views(),
    ensures
        c.transfer == a.transfer,
        c.transfer_index == a.transfer_index,
        c.block == a.block,
        c.transfer_merkle_proof.0.views() == a.transfer_merkle_proof.0.views(),
        c.spec_valid() == a.spec_valid(),
{
}

} // verus!
