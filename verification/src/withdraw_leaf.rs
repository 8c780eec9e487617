//! A withdrawal-total claim: the public outcome of a finished withdrawal
//! chain, bound to the authenticated block log.

use vstd::prelude::*;

use crate::address::Address;
use crate::asset::Assets;
use crate::digest::Digest;
use crate::error::ZkpError;
use crate::extended_block_number::ExtendedBlockNumber;
use crate::merkle_tree::merkle_fold;
use crate::merkle_tree_with_leaves::{Leafable, MerkleProofWithLeaves};
use crate::withdraw_circuit::WithdrawPublicInputs;

verus! {

pub const WITHDRAW_LEAF_LEN: usize = 41;

#[derive(Copy, Clone)]
pub struct WithdrawLeaf {
    pub recipient: Address,
    pub amount: Assets,
    pub start_ebn: ExtendedBlockNumber,
    pub end_ebn: ExtendedBlockNumber,
}

impl WithdrawLeaf {
    /// Build the claim from a withdrawal chain's public state, after
    /// checking that the chain's final block really is in the block log
    /// with the given root.
    pub fn new(
        withdraw_pis: &WithdrawPublicInputs,
        block_root: &Digest,
        block_merkle_proof: &MerkleProofWithLeaves,
    ) -> (r: Result<WithdrawLeaf, ZkpError>)
        ensures
            r is Ok <==> merkle_fold(
                withdraw_pis.block.spec_hash(),
                block_merkle_proof.0.views(),
                withdraw_pis.block.block_number as int,
            ) == block_root.0@,
            r is Err ==> r->Err_0 == ZkpError::MerkleVerifyFailed,
            r is Ok ==> {
                let v = r->Ok_0;
                &&& v.recipient.0@ == withdraw_pis.recipient.0@
                &&& v.amount == withdraw_pis.total_amount
                &&& v.start_ebn.0 == withdraw_pis.start_ebn.0
                &&& v.end_ebn.0 == withdraw_pis.end_ebn.0
            },
    {
        match block_merkle_proof.verify(
            &withdraw_pis.block,
            withdraw_pis.block.block_number as usize,
            *block_root,
        ) {
            Ok(u) => u,
            Err(e) => {
                return Err(e);
            },
        }
        Ok(
            WithdrawLeaf {
                recipient: withdraw_pis.recipient,
                amount: withdraw_pis.total_amount,
                start_ebn: withdraw_pis.start_ebn,
                end_ebn: withdraw_pis.end_ebn,
            },
        )
    }

    /// The 32-bit digit encoding fed into the settlement hash.
    pub open spec fn spec_u32_digits(&self) -> Seq<u32> {
        self.recipient.0@ + self.amount.spec_u32_digits() + seq![
            (self.start_ebn.0 >> 32u64) as u32,
            self.start_ebn.0 as u32,
            (self.end_ebn.0 >> 32u64) as u32,
            self.end_ebn.0 as u32,
        ]
    }

    pub fn to_u32_digits(&self) -> (r: Vec<u32>)
        ensures
            r@ == self.spec_u32_digits(),
            r@.len() == 41,
    {
        let mut r: Vec<u32> = Vec::new();
        let rec = self.recipient.to_u32_digits();
        let mut k: usize = 0;
        while k < 5
            invariant
                k <= 5,
                rec@ == self.recipient.0@,
                r@ =~= self.recipient.0@.take(k as int),
            decreases 5 - k,
        {
            r.push(rec[k]);
            proof {
                assert(r@ =~= self.recipient.0@.take(k + 1));
            }
            k = k + 1;
        }
        proof {
            assert(self.recipient.0@.take(5) =~= self.recipient.0@);
        }
        let amt = self.amount.to_u32_digits();
        let mut j: usize = 0;
        while j < 32
            invariant
                j <= 32,
                amt@ == self.amount.spec_u32_digits(),
                amt@.len() == 32,
                r@ =~= self.recipient.0@ + self.amount.spec_u32_digits().take(j as int),
            decreases 32 - j,
        {
            r.push(amt[j]);
            proof {
                assert(r@ =~= self.recipient.0@ + self.amount.spec_u32_digits().take(j + 1));
            }
            j = j + 1;
        }
        proof {
            assert(self.amount.spec_u32_digits().take(32) =~= self.amount.spec_u32_digits());
        }
        let se = self.start_ebn.to_u32_digits();
        let ee = self.end_ebn.to_u32_digits();
        r.push(se[0]);
        r.push(se[1]);
        r.push(ee[0]);
        r.push(ee[1]);
        proof {
            assert(r@ =~= self.spec_u32_digits());
        }
        r
    }
}

} // verus!
