//! The cyclic withdrawal chain's value side: it accumulates one
//! recipient's claimable total and enforces strictly increasing transfer
//! order, which is the double-withdrawal defense.

use vstd::prelude::*;
use vstd::arithmetic::power2::pow2;

use crate::address::Address;
use crate::asset::Assets;
use crate::block::Block;
use crate::block_tree_circuit::BlockTreePublicInputs;
use crate::error::ZkpError;
use crate::extended_block_number::ExtendedBlockNumber;
use crate::merkle_tree::merkle_fold;
use crate::merkle_tree_with_leaves::{Leafable, MerkleProofWithLeaves};
use crate::transfer_info::TransferInfo;

verus! {

/// State carried across one recipient's withdrawal chain.
#[derive(Copy, Clone)]
pub struct WithdrawPublicInputs {
    pub recipient: Address,
    pub total_amount: Assets,
    pub start_ebn: ExtendedBlockNumber,
    pub end_ebn: ExtendedBlockNumber,
    pub block: Block,
}

impl WithdrawPublicInputs {
    /// The state a chain starts from.
    pub fn initial(recipient: Address) -> (r: WithdrawPublicInputs)
        ensures
            r.recipient.0@ == recipient.0@,
            forall|k: int| 0 <= k < 4 ==> r.total_amount.as_nats()[k] == 0,
            r.start_ebn.0 == 0,
            r.end_ebn.0 == 0,
            r.block == Block::spec_genesis(),
    {
        WithdrawPublicInputs {
            recipient,
            total_amount: Assets::zero(),
            start_ebn: ExtendedBlockNumber(0),
            end_ebn: ExtendedBlockNumber(0),
            block: Block::genesis(),
        }
    }

    /// The wire encoding: recipient, totals, the two order keys, the block.
    pub open spec fn spec_field_vec(&self) -> Seq<u64> {
        crate::hashing::u32s_as_u64s(self.recipient.0@) + self.total_amount.spec_field_vec()
            + seq![self.start_ebn.0] + seq![self.end_ebn.0] + self.block.spec_field_vec()
    }

    pub fn to_vec(&self) -> (r: Vec<u64>)
        ensures
            r@ == self.spec_field_vec(),
            r@.len() == 88,
    {
        let mut r = self.recipient.to_vec();
        let mut a = self.total_amount.to_vec();
        r.append(&mut a);
        r.push(self.start_ebn.0);
        r.push(self.end_ebn.0);
        let mut b = self.block.to_vec();
        r.append(&mut b);
        proof {
            assert(r@ =~= self.spec_field_vec());
        }
        r
    }

    /// Read the state back from a proof's public inputs (a prefix of the
    /// vector).
    pub fn from_pis(input: &[u64]) -> (r: Self)
        requires
            input@.len() >= 88,
        ensures
            forall|k: int| 0 <= k < 5 ==> r.recipient.0@[k] == input@[k] as u32,
            forall|k: int, j: int|
                0 <= k < 4 && 0 <= j < 8 ==> r.total_amount.0@[k].0@[j] == input@[5 + 8 * k
                    + j] as u32,
            r.start_ebn.0 == input@[37],
            r.end_ebn.0 == input@[38],
            r.block.prev_block_hash.0@ == crate::hashing::spec_be_bytes_of_u32s(
                Seq::new(8, |k: int| input@[39 + k] as u32),
            ),
            r.block.transfer_tree_root.0@ == crate::hashing::spec_be_bytes_of_u32s(
                Seq::new(8, |k: int| input@[47 + k] as u32),
            ),
            forall|k: int, j: int|
                0 <= k < 4 && 0 <= j < 8 ==> r.block.total_deposit.0@[k].0@[j] == input@[55 + 8 * k
                    + j] as u32,
            r.block.block_number == input@[87] as u32,
    {
        let recipient = Address::from_vec(&input[0..5]);
        let total_amount = Assets::from_vec(&input[5..37]);
        let start_ebn = ExtendedBlockNumber::from_vec(&input[37..38]);
        let end_ebn = ExtendedBlockNumber::from_vec(&input[38..39]);
        let block = Block::from_vec(&input[39..88]);
        proof {
            let sub = input@.subrange(39, 88);
            assert(Seq::new(8, |k: int| sub[k] as u32) =~= Seq::new(
                8,
                |k: int| input@[39 + k] as u32,
            ));
            assert(Seq::new(8, |k: int| sub[8 + k] as u32) =~= Seq::new(
                8,
                |k: int| input@[47 + k] as u32,
            ));
        }
        WithdrawPublicInputs { recipient, total_amount, start_ebn, end_ebn, block }
    }
}

/// Witness of one withdrawal step.
pub struct WithdrawValue {
    pub is_first_step: bool,
    pub prev_pis: WithdrawPublicInputs,
    pub new_pis: WithdrawPublicInputs,
    pub transfer_info: TransferInfo,
    pub block_merkle_proof_prev: MerkleProofWithLeaves,
    pub block_merkle_proof_transfer: MerkleProofWithLeaves,
}

impl WithdrawValue {
    /// The order key of the consumed transfer.
    pub open spec fn spec_ebn(transfer_info: &TransferInfo) -> int {
        (transfer_info.block.block_number as int) * 0x1_0000_0000
            + transfer_info.transfer_index as int
    }

    /// The consumed transfer's per-asset contribution.
    pub open spec fn spec_contribution(transfer_info: &TransferInfo, k: int) -> int {
        if transfer_info.transfer.asset.asset_id == k {
            transfer_info.transfer.asset.amount.as_nat() as int
        } else {
            0
        }
    }

    /// Whether the step's inputs are accepted.
    pub open spec fn spec_accepts(
        is_first_step: bool,
        prev_pis: &WithdrawPublicInputs,
        transfer_info: &TransferInfo,
        block_tree_pis: &BlockTreePublicInputs,
        proof_prev: &MerkleProofWithLeaves,
        proof_transfer: &MerkleProofWithLeaves,
    ) -> bool {
        &&& transfer_info.spec_valid()
        &&& transfer_info.transfer.recipient.0@ == prev_pis.recipient.0@
        &&& (is_first_step ==> forall|k: int|
            0 <= k < 4 ==> prev_pis.total_amount.as_nats()[k] == 0)
        &&& (!is_first_step ==> prev_pis.end_ebn.0 < Self::spec_ebn(transfer_info))
        &&& (forall|k: int|
            0 <= k < 4 ==> prev_pis.total_amount.as_nats()[k] + Self::spec_contribution(
                transfer_info,
                k,
            ) < pow2(256))
        &&& merkle_fold(
            prev_pis.block.spec_hash(),
            proof_prev.0.views(),
            prev_pis.block.block_number as int,
        ) == block_tree_pis.block_root.0@
        &&& merkle_fold(
            transfer_info.block.spec_hash(),
            proof_transfer.0.views(),
            transfer_info.block.block_number as int,
        ) == block_tree_pis.block_root.0@
    }

    /// Build and check the step witness. Consuming a transfer whose order
    /// key does not strictly advance the chain is rejected; so is a
    /// transfer that fails its own inclusion check or one whose blocks are
    /// not in the authenticated block log.
    pub fn new(
        is_first_step: bool,
        prev_pis: WithdrawPublicInputs,
        transfer_info: TransferInfo,
        block_tree_pis: &BlockTreePublicInputs,
        block_merkle_proof_prev: MerkleProofWithLeaves,
        block_merkle_proof_transfer: MerkleProofWithLeaves,
    ) -> (r: Result<WithdrawValue, ZkpError>)
        requires
            transfer_info.transfer_index < 0x1_0000_0000,
            transfer_info.transfer.asset.asset_id < 4,
        ensures
            r is Ok <==> Self::spec_accepts(
                is_first_step,
                &prev_pis,
                &transfer_info,
                block_tree_pis,
                &block_merkle_proof_prev,
                &block_merkle_proof_transfer,
            ),
            r is Ok ==> {
                let v = r->Ok_0;
                &&& v.is_first_step == is_first_step
                &&& v.prev_pis == prev_pis
                &&& v.transfer_info == transfer_info
                &&& v.new_pis.recipient.0@ == prev_pis.recipient.0@
                &&& forall|k: int|
                    0 <= k < 4 ==> v.new_pis.total_amount.as_nats()[k]
                        == prev_pis.total_amount.as_nats()[k] + Self::spec_contribution(
                        &transfer_info,
                        k,
                    )
                &&& v.new_pis.start_ebn.0 == if is_first_step {
                    Self::spec_ebn(&transfer_info)
                } else {
                    prev_pis.start_ebn.0 as int
                }
                &&& v.new_pis.end_ebn.0 == Self::spec_ebn(&transfer_info)
                &&& v.new_pis.block == block_tree_pis.block
            },
            !transfer_info.spec_valid() ==> r == Result::<WithdrawValue, ZkpError>::Err(
                ZkpError::MerkleVerifyFailed,
            ),
            transfer_info.spec_valid() && transfer_info.transfer.recipient.0@
                != prev_pis.recipient.0@ ==> r == Result::<WithdrawValue, ZkpError>::Err(
                ZkpError::RecipientMismatch,
            ),
            transfer_info.spec_valid() && transfer_info.transfer.recipient.0@
                == prev_pis.recipient.0@ && is_first_step && !(forall|k: int|
                0 <= k < 4 ==> prev_pis.total_amount.as_nats()[k] == 0) ==> r == Result::<
                WithdrawValue,
                ZkpError,
            >::Err(ZkpError::TotalAmountNotZero),
            transfer_info.spec_valid() && transfer_info.transfer.recipient.0@
                == prev_pis.recipient.0@ && !is_first_step && !(prev_pis.end_ebn.0 < Self::spec_ebn(
                &transfer_info,
            )) ==> r == Result::<WithdrawValue, ZkpError>::Err(ZkpError::EbnNotIncreasing),
    {
        match transfer_info.verify() {
            Ok(u) => u,
            Err(e) => {
                return Err(e);
            },
        }
        if !(transfer_info.transfer.recipient == prev_pis.recipient) {
            return Err(ZkpError::RecipientMismatch);
        }
        let contribution = Assets::from_asset(&transfer_info.transfer.asset);
        let new_end_ebn = transfer_info.ebn();
        if is_first_step {
            let zero = Assets::zero();
            if !prev_pis.total_amount.le(&zero) {
                proof {
                    let k = choose|k: int|
                        0 <= k < 4 && prev_pis.total_amount.as_nats()[k] > zero.as_nats()[k];
                    assert(prev_pis.total_amount.as_nats()[k] != 0);
                }
                return Err(ZkpError::TotalAmountNotZero);
            }
            proof {
                assert forall|k: int| 0 <= k < 4 implies prev_pis.total_amount.as_nats()[k]
                    == 0 by {
                    assert(prev_pis.total_amount.as_nats()[k] <= zero.as_nats()[k]);
                }
            }
        } else {
            if !prev_pis.end_ebn.lt(&new_end_ebn) {
                return Err(ZkpError::EbnNotIncreasing);
            }
        }
        let new_total_amount = match prev_pis.total_amount.checked_add(&contribution) {
            Some(t) => t,
            None => {
                proof {
                    let k = choose|k: int|
                        0 <= k < 4 && prev_pis.total_amount.as_nats()[k] + contribution.as_nats()[k]
                            >= pow2(256);
                    assert(contribution.as_nats()[k] == Self::spec_contribution(
                        &transfer_info,
                        k,
                    ));
                }
                return Err(ZkpError::AmountOverflow);
            },
        };
        match block_merkle_proof_prev.verify(
            &prev_pis.block,
            prev_pis.block.block_number as usize,
            block_tree_pis.block_root,
        ) {
            Ok(u) => u,
            Err(e) => {
                return Err(e);
            },
        }
        match block_merkle_proof_transfer.verify(
            &transfer_info.block,
            transfer_info.block.block_number as usize,
            block_tree_pis.block_root,
        ) {
            Ok(u) => u,
            Err(e) => {
                return Err(e);
            },
        }
        let new_start_ebn = if is_first_step {
            new_end_ebn
        } else {
            prev_pis.start_ebn
        };
        let new_pis = WithdrawPublicInputs {
            recipient: prev_pis.recipient,
            total_amount: new_total_amount,
            start_ebn: new_start_ebn,
            end_ebn: new_end_ebn,
            block: block_tree_pis.block,
        };
        proof {
            assert forall|k: int| 0 <= k < 4 implies new_pis.total_amount.as_nats()[k]
                == prev_pis.total_amount.as_nats()[k] + Self::spec_contribution(
                &transfer_info,
                k,
            ) by {
                assert(contribution.as_nats()[k] == Self::spec_contribution(&transfer_info, k));
                assert(new_total_amount.as_nats()[k] == prev_pis.total_amount.as_nats()[k]
                    + contribution.as_nats()[k]);
            }
            assert forall|k: int| 0 <= k < 4 implies prev_pis.total_amount.as_nats()[k]
                + Self::spec_contribution(&transfer_info, k) < pow2(256) by {
                assert(contribution.as_nats()[k] == Self::spec_contribution(&transfer_info, k));
                assert(prev_pis.total_amount.as_nats()[k] + contribution.as_nats()[k] < pow2(256));
            }
        }
        Ok(
            WithdrawValue {
                is_first_step,
                prev_pis,
                new_pis,
                transfer_info,
                block_merkle_proof_prev,
                block_merkle_proof_transfer,
            },
        )
    }
}

} // verus!
