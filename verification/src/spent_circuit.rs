//! The one-shot per-block circuit's value side: it proves that a batch of
//! transfers conserves value and produces the new block header.

use vstd::prelude::*;
use vstd::arithmetic::power2::pow2;

use crate::asset::Assets;
use crate::block::Block;
use crate::constants::TRANSFER_TREE_HEIGHT;
use crate::error::ZkpError;
use crate::h256::H256;
use crate::merkle_tree_with_leaves::Leafable;
use crate::transfer::{Transfer, calc_transfer_tree, spec_total_amount};

verus! {

/// Public inputs of the spent proof: the new block and the amounts spent
/// in it.
pub struct SpentPublicInputs {
    pub block: Block,
    pub spent: Assets,
}

impl SpentPublicInputs {
    /// The wire encoding: the block's fields, then the spent totals.
    pub open spec fn spec_field_vec(&self) -> Seq<u64> {
        self.block.spec_field_vec() + self.spent.spec_field_vec()
    }

    pub fn to_vec(&self) -> (r: Vec<u64>)
        ensures
            r@ == self.spec_field_vec(),
            r@.len() == 81,
    {
        let mut r = self.block.to_vec();
        let mut s = self.spent.to_vec();
        r.append(&mut s);
        proof {
            assert(r@ =~= self.spec_field_vec());
        }
        r
    }

    pub fn from_vec(input: &[u64]) -> (r: Self)
        requires
            input@.len() == 81,
        ensures
            r.block.prev_block_hash.0@ == crate::hashing::spec_be_bytes_of_u32s(
                Seq::new(8, |k: int| input@[k] as u32),
            ),
            r.block.transfer_tree_root.0@ == crate::hashing::spec_be_bytes_of_u32s(
                Seq::new(8, |k: int| input@[8 + k] as u32),
            ),
            forall|k: int, j: int|
                0 <= k < 4 && 0 <= j < 8 ==> r.block.total_deposit.0@[k].0@[j] == input@[16 + 8 * k
                    + j] as u32,
            r.block.block_number == input@[48] as u32,
            forall|k: int, j: int|
                0 <= k < 4 && 0 <= j < 8 ==> r.spent.0@[k].0@[j] == input@[49 + 8 * k + j] as u32,
    {
        let block = Block::from_vec(&input[0..49]);
        let spent = Assets::from_vec(&input[49..81]);
        proof {
            let sub = input@.subrange(0, 49);
            assert(Seq::new(8, |k: int| sub[k] as u32) =~= Seq::new(8, |k: int| input@[k] as u32));
            assert(Seq::new(8, |k: int| sub[8 + k] as u32) =~= Seq::new(
                8,
                |k: int| input@[8 + k] as u32,
            ));
        }
        SpentPublicInputs { block, spent }
    }
}

/// Witness data of one spent proof: the padded transfer batch and the
/// block header it produces.
pub struct SpentValue {
    pub transfers: Vec<Transfer>,
    pub prev_block_hash: H256,
    pub new_total_deposit: Assets,
    pub new_block_number: u32,
    pub new_block: Block,
    pub spent: Assets,
}

impl SpentValue {
    /// The conditions under which a batch makes a valid spent witness.
    pub open spec fn spec_accepts(
        transfers: Seq<Transfer>,
        new_total_deposit: Assets,
    ) -> bool {
        &&& transfers.len() <= pow2(TRANSFER_TREE_HEIGHT as nat)
        &&& forall|i: int| 0 <= i < transfers.len() ==> transfers[i].asset.asset_id < 4
        &&& forall|k: int|
            0 <= k < 4 ==> spec_total_amount(transfers, k) <= new_total_deposit.as_nats()[k]
    }

    /// Build the witness: compute the transfer-tree root and the spent
    /// totals, and reject a batch whose total spend would exceed the total
    /// deposit before any proving is attempted.
    pub fn new(
        transfers: &[Transfer],
        new_total_deposit: &Assets,
        prev_block_hash: &H256,
        new_block_number: u32,
    ) -> (r: Result<SpentValue, ZkpError>)
        requires
            transfers@.len() <= pow2(TRANSFER_TREE_HEIGHT as nat),
            forall|i: int| 0 <= i < transfers@.len() ==> transfers@[i].asset.asset_id < 4,
        ensures
            r is Ok <==> Self::spec_accepts(transfers@, *new_total_deposit),
            r is Err ==> r->Err_0 == ZkpError::ConservationViolated,
            r is Ok ==> {
                let v = r->Ok_0;
                &&& v.transfers@.len() == pow2(TRANSFER_TREE_HEIGHT as nat)
                &&& v.transfers@.take(transfers@.len() as int) == transfers@
                &&& forall|i: int|
                    transfers@.len() <= i < v.transfers@.len() ==> v.transfers@[i]
                        == Transfer::spec_empty()
                &&& v.prev_block_hash.0@ == prev_block_hash.0@
                &&& v.new_total_deposit == *new_total_deposit
                &&& v.new_block_number == new_block_number
                &&& v.new_block.prev_block_hash.0@ == prev_block_hash.0@
                &&& v.new_block.total_deposit == *new_total_deposit
                &&& v.new_block.block_number == new_block_number
                &&& v.new_block.transfer_tree_root.0@ == crate::hashing::spec_be_bytes_of_u64s(
                    crate::merkle_tree_with_leaves::padded_root(
                        transfers@,
                        TRANSFER_TREE_HEIGHT as int,
                    ),
                )
                &&& forall|k: int|
                    0 <= k < 4 ==> v.spent.as_nats()[k] == spec_total_amount(transfers@, k)
            },
    {
        proof {
            assert forall|k: int| 0 <= k < 4 implies new_total_deposit.as_nats()[k] < pow2(
                256,
            ) by {
                crate::u256::lemma_be_nat_bound(new_total_deposit.0@[k].0@);
                assert(new_total_deposit.as_nats()[k] == new_total_deposit.0@[k].as_nat());
            }
        }
        // the explicit conservation pre-check
        let probe = crate::transfer::get_total_transfer_amount_checked(transfers);
        let spent = match probe {
            Some(s) => s,
            None => {
                return Err(ZkpError::ConservationViolated);
            },
        };
        if !spent.le(new_total_deposit) {
            proof {
                let k = choose|k: int|
                    0 <= k < 4 && spent.as_nats()[k] > new_total_deposit.as_nats()[k];
                assert(spec_total_amount(transfers@, k) > new_total_deposit.as_nats()[k]);
                assert(!Self::spec_accepts(transfers@, *new_total_deposit));
            }
            return Err(ZkpError::ConservationViolated);
        }
        proof {
            assert forall|k: int| 0 <= k < 4 implies spec_total_amount(transfers@, k)
                <= new_total_deposit.as_nats()[k] by {
                assert(spent.as_nats()[k] <= new_total_deposit.as_nats()[k]);
            }
        }
        let (transfer_tree_root, spent2) = calc_transfer_tree(transfers);
        let mut padded: Vec<Transfer> = Vec::new();
        let mut i: usize = 0;
        while i < transfers.len()
            invariant
                i <= transfers@.len(),
                padded@ =~= transfers@.take(i as int),
            decreases transfers@.len() - i,
        {
            padded.push(transfers[i].duplicate());
            proof {
                assert(padded@ =~= transfers@.take(i + 1));
            }
            i = i + 1;
        }
        proof {
            assert(transfers@.take(transfers@.len() as int) =~= transfers@);
            assert(padded@.take(transfers@.len() as int) =~= transfers@);
        }
        let target: usize = 2048;
        proof {
            assert(pow2(TRANSFER_TREE_HEIGHT as nat) == 2048) by {
                vstd::arithmetic::power2::lemma2_to64();
            }
        }
        while padded.len() < target
            invariant
                target == pow2(TRANSFER_TREE_HEIGHT as nat),
                padded@.len() <= target,
                padded@.len() >= transfers@.len(),
                padded@.take(transfers@.len() as int) == transfers@,
                forall|j: int|
                    transfers@.len() <= j < padded@.len() ==> padded@[j]
                        == Transfer::spec_empty(),
            decreases target - padded@.len(),
        {
            padded.push(Transfer::zero());
            proof {
                assert(padded@.take(transfers@.len() as int) =~= transfers@);
            }
        }
        let new_block = Block {
            prev_block_hash: H256(prev_block_hash.0),
            transfer_tree_root: H256::from_digest(transfer_tree_root),
            total_deposit: *new_total_deposit,
            block_number: new_block_number,
        };
        proof {
            assert(padded@.len() == pow2(TRANSFER_TREE_HEIGHT as nat));
            assert(padded@.take(transfers@.len() as int) == transfers@);
            assert(new_block.transfer_tree_root.0@ == crate::hashing::spec_be_bytes_of_u64s(
                crate::merkle_tree_with_leaves::padded_root(
                    transfers@,
                    TRANSFER_TREE_HEIGHT as int,
                ),
            ));
            assert forall|k: int| 0 <= k < 4 implies spent2.as_nats()[k] == spec_total_amount(
                transfers@,
                k,
            ) by {}
        }
        Ok(
            SpentValue {
                transfers: padded,
                prev_block_hash: H256(prev_block_hash.0),
                new_total_deposit: *new_total_deposit,
                new_block_number,
                new_block,
                spent: spent2,
            },
        )
    }
}

} // verus!
