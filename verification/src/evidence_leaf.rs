//! Transfer evidence for a settlement: a transfer's solidity-style
//! commitment and its order key, both checked against the block log.

use vstd::prelude::*;

use crate::digest::Digest;
use crate::error::ZkpError;
use crate::extended_block_number::ExtendedBlockNumber;
use crate::h256::H256;
use crate::merkle_tree::merkle_fold;
use crate::merkle_tree_with_leaves::{Leafable, MerkleProofWithLeaves};
use crate::transfer_info::TransferInfo;

verus! {

pub const EVIDENCE_LEAF_LEN: usize = 10;

#[derive(Copy, Clone)]
pub struct EvidenceLeaf {
    pub transfer_commitment: H256,
    pub ebn: ExtendedBlockNumber,
}

impl EvidenceLeaf {
    /// Build the evidence from a transfer: its own inclusion proof must
    /// hold, and its block must be in the block log with the given root.
    pub fn new(
        block_root: &Digest,
        block_merkle_proof: &MerkleProofWithLeaves,
        transfer_info: &TransferInfo,
    ) -> (r: Result<EvidenceLeaf, ZkpError>)
        requires
            transfer_info.transfer_index < 0x1_0000_0000,
        ensures
            r is Ok <==> (transfer_info.spec_valid() && merkle_fold(
                transfer_info.block.spec_hash(),
                block_merkle_proof.0.views(),
                transfer_info.block.block_number as int,
            ) == block_root.0@),
            r is Err ==> r->Err_0 == ZkpError::MerkleVerifyFailed,
            r is Ok ==> {
                let v = r->Ok_0;
                &&& v.transfer_commitment.0@ == crate::transfer::spec_be_bytes_of_digits(
                    crate::h256::spec_h256_digits(
                        crate::h256::spec_solidity_keccak(
                            transfer_info.transfer.spec_u32_digits(),
                        ),
                    ),
                )
                &&& v.ebn.0 == (transfer_info.block.block_number as int) * 0x1_0000_0000
                    + transfer_info.transfer_index as int
            },
    {
        match transfer_info.verify() {
            Ok(u) => u,
            Err(e) => {
                return Err(e);
            },
        }
        match block_merkle_proof.verify(
            &transfer_info.block,
            transfer_info.block.block_number as usize,
            *block_root,
        ) {
            Ok(u) => u,
            Err(e) => {
                return Err(e);
            },
        }
        let transfer_commitment = transfer_info.transfer.keccak_hash();
        let ebn = transfer_info.ebn();
        Ok(EvidenceLeaf { transfer_commitment, ebn })
    }

    /// The 32-bit digit encoding fed into the settlement hash.
    pub open spec fn spec_u32_digits(&self) -> Seq<u32> {
        crate::h256::spec_h256_digits(self.transfer_commitment.0@) + seq![
            (self.ebn.0 >> 32u64) as u32,
            self.ebn.0 as u32,
        ]
    }

    pub fn to_u32_digits(&self) -> (r: Vec<u32>)
        ensures
            r@ == self.spec_u32_digits(),
            r@.len() == 10,
    {
        let mut r: Vec<u32> = Vec::new();
        let d = self.transfer_commitment.to_u32_digits();
        let mut k: usize = 0;
        while k < 8
            invariant
                k <= 8,
                d@ == crate::h256::spec_h256_digits(self.transfer_commitment.0@),
                r@ =~= crate::h256::spec_h256_digits(self.transfer_commitment.0@).take(k as int),
            decreases 8 - k,
        {
            r.push(d[k]);
            proof {
                assert(r@ =~= crate::h256::spec_h256_digits(self.transfer_commitment.0@).take(
                    k + 1,
                ));
            }
            k = k + 1;
        }
        proof {
            assert(crate::h256::spec_h256_digits(self.transfer_commitment.0@).take(8)
                =~= crate::h256::spec_h256_digits(self.transfer_commitment.0@));
        }
        let e = self.ebn.to_u32_digits();
        r.push(e[0]);
        r.push(e[1]);
        proof {
            assert(r@ =~= self.spec_u32_digits());
        }
        r
    }
}

} // verus!
