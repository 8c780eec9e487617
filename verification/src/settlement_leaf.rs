//! A settlement leaf: a withdrawal-total claim paired with the transfer
//! evidence that justifies it, aggregated into the settlement batch tree.

use vstd::prelude::*;

use crate::digest::Digest;
use crate::error::ZkpError;
use crate::evidence_leaf::EvidenceLeaf;
use crate::h256::{H256, solidity_keccak256, spec_h256_digits, spec_solidity_keccak};
use crate::merkle_tree_with_leaves::{Leafable, MerkleProofWithLeaves};
use crate::transfer_info::TransferInfo;
use crate::tree_processor::DynamicLeafable;
use crate::withdraw_circuit::WithdrawPublicInputs;
use crate::withdraw_leaf::WithdrawLeaf;

verus! {

pub const SETTLEMENT_LEAF_LEN: usize = 51;

#[derive(Copy, Clone)]
pub struct SettlementLeaf {
    pub withdraw_leaf: WithdrawLeaf,
    pub evidence_leaf: EvidenceLeaf,
}

impl SettlementLeaf {
    /// Couple a withdrawal claim with its evidence, checking both against
    /// the same block-log root.
    pub fn new(
        withdraw_pis: &WithdrawPublicInputs,
        block_root: &Digest,
        block_merkle_proof_for_withdraw: &MerkleProofWithLeaves,
        block_merkle_proof_for_evidence: &MerkleProofWithLeaves,
        evidence_transfer_info: &TransferInfo,
    ) -> (r: Result<SettlementLeaf, ZkpError>)
        requires
            evidence_transfer_info.transfer_index < 0x1_0000_0000,
        ensures
            r is Ok <==> (crate::merkle_tree::merkle_fold(
                withdraw_pis.block.spec_hash(),
                block_merkle_proof_for_withdraw.0.views(),
                withdraw_pis.block.block_number as int,
            ) == block_root.0@ && evidence_transfer_info.spec_valid()
                && crate::merkle_tree::merkle_fold(
                evidence_transfer_info.block.spec_hash(),
                block_merkle_proof_for_evidence.0.views(),
                evidence_transfer_info.block.block_number as int,
            ) == block_root.0@),
            r is Err ==> r->Err_0 == ZkpError::MerkleVerifyFailed,
            r is Ok ==> {
                let v = r->Ok_0;
                &&& v.withdraw_leaf.recipient.0@ == withdraw_pis.recipient.0@
                &&& v.withdraw_leaf.amount == withdraw_pis.total_amount
                &&& v.withdraw_leaf.start_ebn.0 == withdraw_pis.start_ebn.0
                &&& v.withdraw_leaf.end_ebn.0 == withdraw_pis.end_ebn.0
                &&& v.evidence_leaf.ebn.0 == (
                evidence_transfer_info.block.block_number as int) * 0x1_0000_0000
                    + evidence_transfer_info.transfer_index as int
            },
    {
        let withdraw_leaf = match WithdrawLeaf::new(
            withdraw_pis,
            block_root,
            block_merkle_proof_for_withdraw,
        ) {
            Ok(w) => w,
            Err(e) => {
                return Err(e);
            },
        };
        let evidence_leaf = match EvidenceLeaf::new(
            block_root,
            block_merkle_proof_for_evidence,
            evidence_transfer_info,
        ) {
            Ok(ev) => ev,
            Err(e) => {
                return Err(e);
            },
        };
        Ok(SettlementLeaf { withdraw_leaf, evidence_leaf })
    }

    /// The 32-bit digit encoding fed into the settlement hash.
    pub open spec fn spec_u32_digits(&self) -> Seq<u32> {
        self.withdraw_leaf.spec_u32_digits() + self.evidence_leaf.spec_u32_digits()
    }

    pub fn to_u32_digits(&self) -> (r: Vec<u32>)
        ensures
            r@ == self.spec_u32_digits(),
            r@.len() == 51,
    {
        let mut r = self.withdraw_leaf.to_u32_digits();
        let mut e = self.evidence_leaf.to_u32_digits();
        r.append(&mut e);
        proof {
            assert(r@ =~= self.spec_u32_digits());
        }
        r
    }
}

impl DynamicLeafable for SettlementLeaf {
    open spec fn spec_dyn_hash(&self) -> Seq<u8> {
        crate::hashing::spec_be_bytes_of_u32s(
            spec_h256_digits(spec_solidity_keccak(self.spec_u32_digits())),
        )
    }

    fn hash(&self) -> (r: H256) {
        H256::from_u32_digits(solidity_keccak256(self.to_u32_digits()))
    }

    fn duplicate(&self) -> (r: Self) {
        *self
    }
}

} // verus!
