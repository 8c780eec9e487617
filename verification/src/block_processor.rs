//! The per-block driver: it generates spent witnesses, validates block
//! continuity, and advances the block log and the validity state. This is
//! the only state-mutating step of the block pipeline, and it must be
//! applied exactly once per generated block, in order.

use vstd::prelude::*;
use vstd::arithmetic::power2::pow2;

use crate::asset::Assets;
use crate::block::Block;
use crate::block_tree_circuit::{BlockTreePublicInputs, BlockTreeValue};
use crate::constants::{BLOCK_TREE_HEIGHT, TRANSFER_TREE_HEIGHT};
use crate::digest::Digest;
use crate::error::ZkpError;
use crate::merkle_tree_with_leaves::{Leafable, MerkleTreeWithLeaves, padded_leaf_hash};
use crate::spent_circuit::{SpentPublicInputs, SpentValue};
use crate::transfer::Transfer;
use crate::transfer_info::TransferInfo;
use crate::validity_circuit::ValidityPublicInputs;

verus! {

/// A snapshot of the block pipeline's public state.
pub struct BlockStatus {
    pub latest_block: Block,
    pub block_root: Digest,
    pub validity_pis: Option<ValidityPublicInputs>,
    pub block_tree_pis: Option<BlockTreePublicInputs>,
}

/// Value-level consistency of a status: the two chains' public states
/// agree with the claimed latest block and block-log root. Whether the
/// accompanying proofs verify is the proving backend's part.
pub open spec fn spec_status_consistent(
    latest_block: Block,
    block_root: Digest,
    validity_pis: Option<ValidityPublicInputs>,
    block_tree_pis: Option<BlockTreePublicInputs>,
) -> bool {
    if latest_block.spec_is_genesis() {
        &&& block_root.0@ == crate::merkle_tree_with_leaves::padded_root(
            seq![Block::spec_genesis()],
            BLOCK_TREE_HEIGHT as int,
        )
        &&& validity_pis is None
        &&& block_tree_pis is None
    } else {
        &&& validity_pis is Some
        &&& block_tree_pis is Some
        &&& validity_pis->0.block_hash.0@ == latest_block.spec_block_hash()
        &&& validity_pis->0.spec_conserves()
        &&& block_tree_pis->0.block_hash.0@ == latest_block.spec_block_hash()
        &&& block_tree_pis->0.block_root.0@ == block_root.0@
    }
}

impl BlockStatus {
    /// Check the status's value-level consistency; `Ok` exactly when it
    /// holds.
    pub fn verify(&self) -> (r: Result<(), ZkpError>)
        ensures
            r is Ok <==> spec_status_consistent(
                self.latest_block,
                self.block_root,
                self.validity_pis,
                self.block_tree_pis,
            ),
            r is Err ==> r->Err_0 == ZkpError::InvalidStatus,
    {
        if self.latest_block.is_genesis() {
            let expected = BlockTreePublicInputs::genesis();
            if !(self.block_root == expected.block_root) {
                return Err(ZkpError::InvalidStatus);
            }
            if self.validity_pis.is_some() {
                return Err(ZkpError::InvalidStatus);
            }
            if self.block_tree_pis.is_some() {
                return Err(ZkpError::InvalidStatus);
            }
            Ok(())
        } else {
            let latest_hash = self.latest_block.block_hash();
            match (&self.validity_pis, &self.block_tree_pis) {
                (Some(v), Some(bt)) => {
                    if !(v.block_hash == latest_hash) {
                        return Err(ZkpError::InvalidStatus);
                    }
                    let zero = Assets::zero();
                    if !v.total_spent.le(&v.total_deposit) {
                        proof {
                            let k = choose|k: int|
                                0 <= k < 4 && v.total_spent.as_nats()[k]
                                    > v.total_deposit.as_nats()[k];
                            assert(!v.spec_conserves());
                        }
                        return Err(ZkpError::InvalidStatus);
                    }
                    if !(bt.block_hash == latest_hash) {
                        return Err(ZkpError::InvalidStatus);
                    }
                    if !(bt.block_root == self.block_root) {
                        return Err(ZkpError::InvalidStatus);
                    }
                    Ok(())
                },
                _ => Err(ZkpError::InvalidStatus),
            }
        }
    }
}

/// Whether `blocks` continue the block log `leaves`: consecutively
/// numbered from the log's end, each chaining from its predecessor's
/// hash.
pub open spec fn spec_blocks_extend(leaves: Seq<Block>, blocks: Seq<Block>) -> bool {
    &&& forall|i: int|
        0 <= i < blocks.len() ==> (#[trigger] blocks[i]).block_number == leaves.len() + i
    &&& (blocks.len() > 0 && leaves.len() > 0 ==> blocks[0].prev_block_hash.0@
        == leaves.last().spec_block_hash())
    &&& forall|i: int|
        1 <= i < blocks.len() ==> (#[trigger] blocks[i]).prev_block_hash.0@ == blocks[i
            - 1].spec_block_hash()
}

/// The block-log part of the status, for external synchronization.
pub struct BlockTreeStatus {
    pub latest_block_number: u32,
    pub block_root: Digest,
}

/// The outcome of generating one block: the spent witness and, per
/// transfer, the evidence of its inclusion in the new block.
pub struct BlockInfo {
    pub block: Block,
    pub transfer_info: Vec<TransferInfo>,
    pub spent_value: SpentValue,
}

/// The block pipeline's mutable state.
pub struct BlockProcessor {
    pub latest_block: Block,
    pub validity_pis: Option<ValidityPublicInputs>,
    pub block_tree_pis: Option<BlockTreePublicInputs>,
    pub block_tree: MerkleTreeWithLeaves<Block>,
}

/// Append one block to the log and produce the witness of the root
/// transition: the same sibling path shows the empty leaf under the old
/// root and the block under the new root.
fn append_block_witness(tree: &mut MerkleTreeWithLeaves<Block>, new_block: Block) -> (r:
    BlockTreeValue)
    requires
        old(tree).wf(),
        old(tree).spec_height() == BLOCK_TREE_HEIGHT as int,
        1 <= old(tree).leaves_view().len() < pow2(BLOCK_TREE_HEIGHT as nat),
        new_block.block_number == old(tree).leaves_view().len(),
    ensures
        final(tree).wf(),
        final(tree).spec_height() == BLOCK_TREE_HEIGHT as int,
        final(tree).leaves_view() == old(tree).leaves_view().push(new_block),
        r.block == new_block,
        r.block_hash.0@ == new_block.spec_block_hash(),
        r.prev_block_root.0@ == old(tree).spec_root(),
        r.new_block_root.0@ == final(tree).spec_root(),
{
    let index = tree.len();
    let prev_block_root = tree.get_root();
    let merkle_proof = tree.prove(index);
    let ghost a_old = tree.merkle_tree.assignment@;
    tree.push(new_block);
    let new_block_root = tree.get_root();
    proof {
        assert(padded_leaf_hash(old(tree).leaves_view(), index as int)
            == Block::spec_genesis().spec_hash());
        assert(a_old.update(index as int, Block::spec_genesis().spec_hash()) =~= a_old);
        assert(crate::merkle_tree::merkle_fold(
            Block::spec_genesis().spec_hash(),
            merkle_proof.0.views(),
            index as int,
        ) == prev_block_root.0@);
        assert(tree.merkle_tree.assignment@ =~= a_old.update(
            index as int,
            new_block.spec_hash(),
        ));
        assert(crate::merkle_tree::merkle_fold(
            new_block.spec_hash(),
            merkle_proof.0.views(),
            index as int,
        ) == new_block_root.0@);
    }
    let btv = match BlockTreeValue::new(&new_block, prev_block_root, new_block_root, merkle_proof) {
        Ok(v) => v,
        Err(_) => {
            proof {
                assert(false);
            }
            BlockTreeValue {
                block: new_block,
                block_hash: crate::h256::H256([0u8; 32]),
                prev_block_root,
                new_block_root,
                merkle_proof: crate::merkle_tree_with_leaves::MerkleProofWithLeaves(
                    crate::merkle_tree::MerkleProof { siblings: Vec::new() },
                ),
            }
        },
    };
    btv
}

impl BlockProcessor {
    /// The block log's own invariant: it holds the chained blocks in
    /// number order, starting from genesis.
    pub open spec fn wf_tree(&self) -> bool {
        &&& self.block_tree.wf()
        &&& self.block_tree.spec_height() == BLOCK_TREE_HEIGHT as int
        &&& 1 <= self.block_tree.leaves_view().len() <= pow2(BLOCK_TREE_HEIGHT as nat)
        &&& self.block_tree.leaves_view()[0] == Block::spec_genesis()
        &&& forall|i: int|
            0 <= i < self.block_tree.leaves_view().len()
                ==> (#[trigger] self.block_tree.leaves_view()[i]).block_number == i
        &&& forall|i: int|
            1 <= i < self.block_tree.leaves_view().len()
                ==> (#[trigger] self.block_tree.leaves_view()[i]).prev_block_hash.0@
                == self.block_tree.leaves_view()[i - 1].spec_block_hash()
    }

    /// The full state invariant: the log is well formed, the latest block
    /// is its last entry, and the carried public states agree with it.
    pub open spec fn wf(&self) -> bool {
        &&& self.wf_tree()
        &&& self.latest_block == self.block_tree.leaves_view().last()
        &&& self.validity_pis is Some ==> {
            &&& self.validity_pis->0.spec_conserves()
            &&& self.validity_pis->0.block_hash.0@ == self.latest_block.spec_block_hash()
        }
        &&& self.block_tree_pis is Some ==> {
            &&& self.block_tree_pis->0.block_hash.0@ == self.latest_block.spec_block_hash()
            &&& self.block_tree_pis->0.block_root.0@ == self.block_tree.spec_root()
        }
        &&& self.validity_pis is None ==> self.latest_block == Block::spec_genesis()
        &&& self.block_tree_pis is None ==> self.latest_block == Block::spec_genesis()
    }

    /// The cumulative deposit the next block starts from, per asset kind.
    pub open spec fn spec_prior_deposit(&self, k: int) -> nat {
        if self.validity_pis is Some {
            self.validity_pis->0.total_deposit.as_nats()[k]
        } else {
            0
        }
    }

    /// The cumulative spend carried so far, per asset kind.
    pub open spec fn spec_prior_spent(&self, k: int) -> nat {
        if self.validity_pis is Some {
            self.validity_pis->0.total_spent.as_nats()[k]
        } else {
            0
        }
    }

    /// A fresh pipeline: the block log holds only the genesis block.
    pub fn new() -> (r: BlockProcessor)
        ensures
            r.wf(),
            r.block_tree.leaves_view().len() == 1,
            r.latest_block == Block::spec_genesis(),
            r.validity_pis is None,
            r.block_tree_pis is None,
    {
        let mut block_tree = MerkleTreeWithLeaves::<Block>::new(BLOCK_TREE_HEIGHT);
        let genesis_block = Block::genesis();
        proof {
            vstd::arithmetic::power2::lemma_pow2_pos(BLOCK_TREE_HEIGHT as nat);
        }
        block_tree.push(genesis_block);
        proof {
            crate::block::lemma_genesis_fields();
        }
        let r = BlockProcessor {
            latest_block: Block::genesis(),
            validity_pis: None,
            block_tree_pis: None,
            block_tree,
        };
        r
    }

    /// Build the spent witness for the next block plus, per transfer, its
    /// inclusion evidence, without touching the pipeline state. Succeeds
    /// exactly when the new deposit totals fit and cover the batch's
    /// spend; the new block carries the accumulated deposit.
    pub fn generate_block(&self, transfers: &[Transfer], deposit: &Assets) -> (r: Result<
        BlockInfo,
        ZkpError,
    >)
        requires
            self.wf(),
            self.latest_block.block_number < 0xffff_ffff,
            transfers@.len() <= pow2(TRANSFER_TREE_HEIGHT as nat),
            forall|i: int| 0 <= i < transfers@.len() ==> transfers@[i].asset.asset_id < 4,
        ensures
            r is Ok <==> ((forall|k: int|
                0 <= k < 4 ==> self.spec_prior_deposit(k) + deposit.as_nats()[k] < pow2(256))
                && (forall|k: int|
                0 <= k < 4 ==> crate::transfer::spec_total_amount(transfers@, k)
                    <= self.spec_prior_deposit(k) + deposit.as_nats()[k])),
            !(forall|k: int|
                0 <= k < 4 ==> self.spec_prior_deposit(k) + deposit.as_nats()[k] < pow2(256))
                ==> r == Result::<BlockInfo, ZkpError>::Err(ZkpError::AmountOverflow),
            r is Err && (forall|k: int|
                0 <= k < 4 ==> self.spec_prior_deposit(k) + deposit.as_nats()[k] < pow2(256))
                ==> r->Err_0 == ZkpError::ConservationViolated,
            r is Ok ==> {
                let info = r->Ok_0;
                &&& info.block == info.spent_value.new_block
                &&& info.block.block_number == self.latest_block.block_number + 1
                &&& info.block.prev_block_hash.0@ == self.latest_block.spec_block_hash()
                &&& forall|k: int|
                    0 <= k < 4 ==> (#[trigger] info.block.total_deposit.as_nats()[k])
                        == self.spec_prior_deposit(k) + deposit.as_nats()[k]
                &&& forall|k: int|
                    0 <= k < 4 ==> (#[trigger] info.spent_value.spent.as_nats()[k])
                        == crate::transfer::spec_total_amount(transfers@, k)
                &&& info.transfer_info@.len() == transfers@.len()
                &&& forall|i: int|
                    0 <= i < transfers@.len() ==> {
                        &&& (#[trigger] info.transfer_info@[i]).transfer == transfers@[i]
                        &&& info.transfer_info@[i].transfer_index == i
                        &&& info.transfer_info@[i].block == info.block
                        &&& info.transfer_info@[i].spec_valid()
                    }
            },
    {
        let prev_total_deposit = match &self.validity_pis {
            Some(v) => v.total_deposit,
            None => Assets::zero(),
        };
        proof {
            assert forall|k: int| 0 <= k < 4 implies prev_total_deposit.as_nats()[k]
                == self.spec_prior_deposit(k) by {}
        }
        let new_total_deposit = match prev_total_deposit.checked_add(deposit) {
            Some(t) => t,
            None => {
                proof {
                    let k = choose|k: int|
                        0 <= k < 4 && prev_total_deposit.as_nats()[k] + deposit.as_nats()[k]
                            >= pow2(256);
                    assert(self.spec_prior_deposit(k) + deposit.as_nats()[k] >= pow2(256));
                }
                return Err(ZkpError::AmountOverflow);
            },
        };
        proof {
            assert forall|k: int| 0 <= k < 4 implies new_total_deposit.as_nats()[k]
                == self.spec_prior_deposit(k) + deposit.as_nats()[k] by {
                assert(new_total_deposit.as_nats()[k] == prev_total_deposit.as_nats()[k]
                    + deposit.as_nats()[k]);
            }
        }
        let prev_block_hash = self.latest_block.block_hash();
        let new_block_number = self.latest_block.block_number + 1;
        let spent_value = match SpentValue::new(
            transfers,
            &new_total_deposit,
            &prev_block_hash,
            new_block_number,
        ) {
            Ok(v) => v,
            Err(e) => {
                return Err(e);
            },
        };
        let block = Block {
            prev_block_hash: spent_value.new_block.prev_block_hash,
            transfer_tree_root: spent_value.new_block.transfer_tree_root,
            total_deposit: spent_value.new_block.total_deposit,
            block_number: spent_value.new_block.block_number,
        };
        proof {
            assert(block == spent_value.new_block);
        }
        // per-transfer inclusion evidence against the new block
        let mut transfer_tree = MerkleTreeWithLeaves::<Transfer>::new(TRANSFER_TREE_HEIGHT);
        let mut i: usize = 0;
        proof {
            assert(transfers@.take(0) =~= Seq::<Transfer>::empty());
        }
        while i < transfers.len()
            invariant
                i <= transfers@.len(),
                transfers@.len() <= pow2(TRANSFER_TREE_HEIGHT as nat),
                transfer_tree.wf(),
                transfer_tree.spec_height() == TRANSFER_TREE_HEIGHT as int,
                transfer_tree.leaves_view() =~= transfers@.take(i as int),
            decreases transfers@.len() - i,
        {
            let t = transfers[i].duplicate();
            transfer_tree.push(t);
            proof {
                assert(transfer_tree.leaves_view() =~= transfers@.take(i + 1));
            }
            i = i + 1;
        }
        proof {
            assert(transfers@.take(transfers@.len() as int) =~= transfers@);
            transfer_tree.lemma_root_of_leaves();
        }
        let mut transfer_info: Vec<TransferInfo> = Vec::new();
        let mut j: usize = 0;
        while j < transfers.len()
            invariant
                j <= transfers@.len(),
                transfers@.len() <= pow2(TRANSFER_TREE_HEIGHT as nat),
                transfer_tree.wf(),
                transfer_tree.spec_height() == TRANSFER_TREE_HEIGHT as int,
                transfer_tree.leaves_view() == transfers@,
                block.transfer_tree_root.0@ == crate::hashing::spec_be_bytes_of_u64s(
                    transfer_tree.spec_root(),
                ),
                transfer_info@.len() == j,
                forall|i2: int|
                    0 <= i2 < j ==> {
                        &&& (#[trigger] transfer_info@[i2]).transfer == transfers@[i2]
                        &&& transfer_info@[i2].transfer_index == i2
                        &&& transfer_info@[i2].block == block
                        &&& transfer_info@[i2].spec_valid()
                    },
            decreases transfers@.len() - j,
        {
            proof {
                if transfers@.len() > pow2(TRANSFER_TREE_HEIGHT as nat) {
                    assert(false);
                }
                vstd::arithmetic::power2::lemma_pow2_strictly_increases(
                    TRANSFER_TREE_HEIGHT as nat,
                    32,
                );
            }
            let transfer_merkle_proof = transfer_tree.prove(j);
            let info = TransferInfo {
                transfer: transfers[j].duplicate(),
                transfer_index: j,
                transfer_merkle_proof,
                block,
            };
            proof {
                assert(padded_leaf_hash(transfers@, j as int) == transfers@[j as int].spec_hash());
                crate::digest::lemma_words_to_bytes_roundtrip(transfer_tree.spec_root());
                assert(crate::digest::spec_digest_of_bytes(block.transfer_tree_root.0@)
                    == transfer_tree.spec_root());
                assert(info.spec_valid());
            }
            transfer_info.push(info);
            j = j + 1;
        }
        Ok(BlockInfo { block, transfer_info, spent_value })
    }

    /// The current status snapshot: the pipeline's public state, value
    /// for value.
    pub fn get_status(&self) -> (r: BlockStatus)
        requires
            self.wf(),
        ensures
            r.latest_block == self.latest_block,
            r.block_root.0@ == self.block_tree.spec_root(),
            r.validity_pis == self.validity_pis,
            r.block_tree_pis == self.block_tree_pis,
    {
        let validity_pis = match &self.validity_pis {
            Some(v) => Some(v.duplicate()),
            None => None,
        };
        let block_tree_pis = match &self.block_tree_pis {
            Some(bt) => {
                let copy = BlockTreePublicInputs {
                    block: bt.block,
                    block_hash: bt.block_hash,
                    block_root: bt.block_root,
                };
                proof {
                    assert(copy == *bt);
                }
                Some(copy)
            },
            None => None,
        };
        BlockStatus {
            latest_block: self.latest_block,
            block_root: self.block_tree.get_root(),
            validity_pis,
            block_tree_pis,
        }
    }

    /// Apply one proven block to the pipeline: check continuity against
    /// the current state, append the block to the log, and fold the spent
    /// public inputs into the validity state. It succeeds exactly when the
    /// block continues the chain and its cumulative spend stays within the
    /// cumulative deposit; then the returned witness drives the block-tree
    /// proving step and the new status is consistent. On failure nothing
    /// changes.
    #[verifier::rlimit(100)]
    pub fn tick(&mut self, spent_pis: &SpentPublicInputs) -> (r: Result<BlockTreeValue, ZkpError>)
        requires
            old(self).wf(),
            old(self).block_tree.leaves_view().len() < pow2(BLOCK_TREE_HEIGHT as nat),
        ensures
            final(self).wf(),
            r is Err ==> *final(self) == *old(self),
            r is Ok <==> (spent_pis.block.block_number == old(self).latest_block.block_number + 1
                && spent_pis.block.prev_block_hash.0@ == old(self).latest_block.spec_block_hash()
                && (forall|k: int|
                0 <= k < 4 ==> old(self).spec_prior_spent(k) + spent_pis.spent.as_nats()[k]
                    <= spent_pis.block.total_deposit.as_nats()[k])),
            spent_pis.block.block_number != old(self).latest_block.block_number + 1 ==> r
                == Result::<BlockTreeValue, ZkpError>::Err(ZkpError::BlockNumberMismatch),
            spent_pis.block.block_number == old(self).latest_block.block_number + 1
                && spent_pis.block.prev_block_hash.0@ != old(
                self,
            ).latest_block.spec_block_hash() ==> r == Result::<BlockTreeValue, ZkpError>::Err(
                ZkpError::PrevBlockHashMismatch,
            ),
            spent_pis.block.block_number == old(self).latest_block.block_number + 1
                && spent_pis.block.prev_block_hash.0@ == old(self).latest_block.spec_block_hash()
                && r is Err ==> r->Err_0 == ZkpError::ConservationViolated,
            r is Ok ==> {
                &&& final(self).latest_block == spent_pis.block
                &&& final(self).block_tree.leaves_view() == old(self).block_tree.leaves_view().push(
                    spent_pis.block,
                )
                &&& final(self).validity_pis is Some
                &&& final(self).validity_pis->0.spec_conserves()
                &&& final(self).block_tree_pis is Some
                &&& spec_status_consistent(
                    final(self).latest_block,
                    final(self).block_tree_pis->0.block_root,
                    final(self).validity_pis,
                    final(self).block_tree_pis,
                )
            },
    {
        let new_block = spent_pis.block;
        proof {
            let lv = self.block_tree.leaves_view();
            assert(lv[lv.len() - 1].block_number == lv.len() - 1);
            assert(self.latest_block.block_number == lv.len() - 1);
            assert(pow2(32) == 0x1_0000_0000) by {
                vstd::arithmetic::power2::lemma2_to64();
            }
            assert(self.latest_block.block_number < 0xffff_ffff);
        }
        if !(new_block.block_number == self.latest_block.block_number + 1) {
            return Err(ZkpError::BlockNumberMismatch);
        }
        let latest_hash = self.latest_block.block_hash();
        if !(new_block.prev_block_hash == latest_hash) {
            return Err(ZkpError::PrevBlockHashMismatch);
        }
        // fold the spent state into the validity chain first: it is pure
        let prev_validity = match &self.validity_pis {
            Some(v) => v.duplicate(),
            None => ValidityPublicInputs::genesis(),
        };
        proof {
            // the state's carried hash is the latest block's hash, so the
            // chaining check of the fold coincides with the one above
            assert(prev_validity.block_hash.0@ == self.latest_block.spec_block_hash());
            assert forall|k: int| 0 <= k < 4 implies prev_validity.total_spent.as_nats()[k]
                == self.spec_prior_spent(k) by {
                if self.validity_pis is Some {
                    assert(prev_validity.total_spent == self.validity_pis->0.total_spent);
                }
            }
        }
        let new_validity = match ValidityPublicInputs::apply(&prev_validity, spent_pis) {
            Ok(v) => v,
            Err(e) => {
                proof {
                    assert(spent_pis.block.prev_block_hash.0@ == prev_validity.block_hash.0@);
                    let k = choose|k: int|
                        0 <= k < 4 && prev_validity.total_spent.as_nats()[k]
                            + spent_pis.spent.as_nats()[k]
                            > spent_pis.block.total_deposit.as_nats()[k];
                    assert(old(self).spec_prior_spent(k) + spent_pis.spent.as_nats()[k]
                        > spent_pis.block.total_deposit.as_nats()[k]);
                }
                return Err(e);
            },
        };
        // append the block to the log, witnessing the root transition
        proof {
            assert(self.block_tree.leaves_view()[self.block_tree.leaves_view().len() - 1]
                == self.block_tree.leaves_view().last());
        }
        let btv = append_block_witness(&mut self.block_tree, new_block);
        let new_block_root = btv.new_block_root;
        self.block_tree_pis = Some(
            BlockTreePublicInputs {
                block: new_block,
                block_hash: btv.block_hash,
                block_root: new_block_root,
            },
        );
        self.validity_pis = Some(new_validity);
        self.latest_block = new_block;
        Ok(btv)
    }

    pub fn get_validity_pis(&self) -> (r: Option<ValidityPublicInputs>)
        ensures
            r is Some <==> self.validity_pis is Some,
            r is Some ==> (r->0.block_hash.0@ == self.validity_pis->0.block_hash.0@ && r->0.total_spent
                == self.validity_pis->0.total_spent && r->0.total_deposit
                == self.validity_pis->0.total_deposit),
    {
        match &self.validity_pis {
            Some(v) => Some(v.duplicate()),
            None => None,
        }
    }

    pub fn get_block_tree_pis(&self) -> (r: Option<BlockTreePublicInputs>)
        ensures
            r is Some <==> self.block_tree_pis is Some,
            r is Some ==> r->0 == self.block_tree_pis->0,
    {
        match &self.block_tree_pis {
            Some(bt) => Some(
                BlockTreePublicInputs {
                    block: bt.block,
                    block_hash: bt.block_hash,
                    block_root: bt.block_root,
                },
            ),
            None => None,
        }
    }

    /// Reset the block log only, back to the genesis-only tree; the rest
    /// of the state is untouched.
    pub fn reset_block_tree(&mut self)
        ensures
            final(self).block_tree.wf(),
            final(self).block_tree.spec_height() == BLOCK_TREE_HEIGHT as int,
            final(self).block_tree.leaves_view() == seq![Block::spec_genesis()],
            final(self).latest_block == old(self).latest_block,
            final(self).validity_pis == old(self).validity_pis,
            final(self).block_tree_pis == old(self).block_tree_pis,
    {
        let mut block_tree = MerkleTreeWithLeaves::<Block>::new(BLOCK_TREE_HEIGHT);
        proof {
            vstd::arithmetic::power2::lemma_pow2_pos(BLOCK_TREE_HEIGHT as nat);
        }
        block_tree.push(Block::genesis());
        self.block_tree = block_tree;
    }

    /// Reset the whole pipeline to its genesis state.
    pub fn reset(&mut self)
        ensures
            final(self).wf(),
            final(self).block_tree.leaves_view().len() == 1,
            final(self).latest_block == Block::spec_genesis(),
            final(self).validity_pis is None,
            final(self).block_tree_pis is None,
    {
        let fresh = Self::new();
        *self = fresh;
    }

    /// An owned copy of the block log, for settlement snapshots.
    pub fn get_block_tree_snapshot(&self) -> (r: MerkleTreeWithLeaves<Block>)
        requires
            self.wf(),
        ensures
            r.wf(),
            r.spec_height() == BLOCK_TREE_HEIGHT as int,
            r.leaves_view() == self.block_tree.leaves_view(),
            r.spec_root() == self.block_tree.spec_root(),
    {
        self.block_tree.duplicate()
    }

    pub fn get_block_tree_status(&self) -> (r: BlockTreeStatus)
        requires
            self.wf(),
        ensures
            r.latest_block_number == self.block_tree.leaves_view().len() - 1,
            r.block_root.0@ == self.block_tree.spec_root(),
    {
        proof {
            assert(self.block_tree.leaves_view().len() <= pow2(32));
            assert(pow2(32) == 0x1_0000_0000) by {
                vstd::arithmetic::power2::lemma2_to64();
            }
        }
        BlockTreeStatus {
            latest_block_number: (self.block_tree.len() - 1) as u32,
            block_root: self.block_tree.get_root(),
        }
    }

    /// Append externally held blocks to the log. It succeeds exactly when
    /// the batch continues the log in number and hash order and the
    /// resulting root equals the externally attested one; otherwise the
    /// log is left as it was.
    #[verifier::rlimit(100)]
    pub fn sync_block_tree(&mut self, blocks: &[Block], expected_block_root: &Digest) -> (r: Result<
        (),
        ZkpError,
    >)
        requires
            old(self).wf_tree(),
            old(self).block_tree.leaves_view().len() + blocks@.len() <= pow2(
                BLOCK_TREE_HEIGHT as nat,
            ),
        ensures
            r is Ok <==> (spec_blocks_extend(old(self).block_tree.leaves_view(), blocks@)
                && crate::merkle_tree_with_leaves::padded_root(
                old(self).block_tree.leaves_view() + blocks@,
                BLOCK_TREE_HEIGHT as int,
            ) == expected_block_root.0@),
            final(self).wf_tree(),
            final(self).latest_block == old(self).latest_block,
            final(self).validity_pis == old(self).validity_pis,
            final(self).block_tree_pis == old(self).block_tree_pis,
            r is Ok ==> final(self).block_tree.leaves_view() == old(
                self,
            ).block_tree.leaves_view() + blocks@,
            r is Ok ==> final(self).block_tree.spec_root() == expected_block_root.0@,
            r is Err ==> final(self).block_tree.leaves_view() == old(
                self,
            ).block_tree.leaves_view(),
            r is Err ==> final(self).block_tree.merkle_tree.assignment@ == old(
                self,
            ).block_tree.merkle_tree.assignment@,
    {
        let ghost old_leaves = self.block_tree.leaves_view();
        let mut pushed: usize = 0;
        let mut failed = false;
        let mut i: usize = 0;
        while i < blocks.len() && !failed
            invariant
                self.block_tree.wf(),
                self.block_tree.spec_height() == BLOCK_TREE_HEIGHT as int,
                self.latest_block == old(self).latest_block,
                self.validity_pis == old(self).validity_pis,
                self.block_tree_pis == old(self).block_tree_pis,
                old(self).wf_tree(),
                old_leaves == old(self).block_tree.leaves_view(),
                old_leaves.len() + blocks@.len() <= pow2(BLOCK_TREE_HEIGHT as nat),
                i <= blocks@.len(),
                pushed <= i,
                !failed ==> pushed == i,
                self.block_tree.leaves_view() == old_leaves + blocks@.take(pushed as int),
                !failed ==> forall|j: int|
                    0 <= j < self.block_tree.leaves_view().len()
                        ==> (#[trigger] self.block_tree.leaves_view()[j]).block_number == j,
                !failed ==> forall|j: int|
                    1 <= j < self.block_tree.leaves_view().len()
                        ==> (#[trigger] self.block_tree.leaves_view()[j]).prev_block_hash.0@
                        == self.block_tree.leaves_view()[j - 1].spec_block_hash(),
                failed ==> !spec_blocks_extend(old_leaves, blocks@),
            decreases blocks@.len() - i,
        {
            let b = blocks[i].duplicate();
            let cur_len = self.block_tree.len();
            proof {
                assert(cur_len >= 1);
                assert(self.block_tree.leaves_view().len() <= pow2(32));
                assert(pow2(32) == 0x1_0000_0000) by {
                    vstd::arithmetic::power2::lemma2_to64();
                }
            }
            let last = self.block_tree.get_leaf(cur_len - 1);
            let last_hash = last.block_hash();
            if !(b.block_number as usize == cur_len) || !(b.prev_block_hash == last_hash) {
                proof {
                    // a batch that extends the log would have passed both
                    // checks against the conforming prefix pushed so far
                    assert(self.block_tree.leaves_view().len() == old_leaves.len() + i);
                    assert(last == self.block_tree.leaves_view()[cur_len - 1]);
                    if spec_blocks_extend(old_leaves, blocks@) {
                        assert(blocks@[i as int].block_number == old_leaves.len() + i);
                        if i == 0 {
                            assert(last == old_leaves.last());
                            assert(blocks@[0].prev_block_hash.0@
                                == old_leaves.last().spec_block_hash());
                        } else {
                            assert(last == blocks@[i - 1]);
                            assert(blocks@[i as int].prev_block_hash.0@ == blocks@[i
                                - 1].spec_block_hash());
                        }
                        assert(false);
                    }
                }
                failed = true;
            } else {
                self.block_tree.push(b);
                proof {
                    assert(self.block_tree.leaves_view() =~= old_leaves + blocks@.take(
                        pushed + 1,
                    ));
                }
                pushed = pushed + 1;
            }
            i = i + 1;
        }
        if failed {
            // roll the partial sync back
            while pushed > 0
                invariant
                    self.block_tree.wf(),
                    self.block_tree.spec_height() == BLOCK_TREE_HEIGHT as int,
                    self.latest_block == old(self).latest_block,
                    self.validity_pis == old(self).validity_pis,
                    self.block_tree_pis == old(self).block_tree_pis,
                    old(self).wf_tree(),
                    old_leaves == old(self).block_tree.leaves_view(),
                    old_leaves.len() + blocks@.len() <= pow2(BLOCK_TREE_HEIGHT as nat),
                    pushed <= blocks@.len(),
                    self.block_tree.leaves_view() == old_leaves + blocks@.take(pushed as int),
                    !spec_blocks_extend(old_leaves, blocks@),
                decreases pushed,
            {
                proof {
                    assert(self.block_tree.leaves_view().len() == old_leaves.len() + pushed);
                }
                self.block_tree.pop();
                proof {
                    assert((old_leaves + blocks@.take(pushed as int)).drop_last() =~= old_leaves
                        + blocks@.take(pushed - 1));
                }
                pushed = pushed - 1;
            }
            proof {
                assert(old_leaves + blocks@.take(0) =~= old_leaves);
                lemma_tree_wf_from_leaves(old(self), self);
            }
            return Err(ZkpError::BlockNumberMismatch);
        }
        proof {
            assert(blocks@.take(blocks@.len() as int) =~= blocks@);
            assert(self.block_tree.leaves_view()[0] == old_leaves[0]);
            // the combined log conforms, so the batch extends the old log
            let lv = self.block_tree.leaves_view();
            assert(lv == old_leaves + blocks@);
            assert forall|j: int| 0 <= j < blocks@.len() implies (#[trigger] blocks@[j]).block_number
                == old_leaves.len() + j by {
                assert(lv[old_leaves.len() + j] == blocks@[j]);
                assert(lv[old_leaves.len() + j].block_number == old_leaves.len() + j);
            }
            if blocks@.len() > 0 && old_leaves.len() > 0 {
                assert(lv[old_leaves.len() as int] == blocks@[0]);
                assert(lv[old_leaves.len() - 1] == old_leaves.last());
                assert(lv[old_leaves.len() as int].prev_block_hash.0@ == lv[old_leaves.len()
                    - 1].spec_block_hash());
            }
            assert forall|j: int| 1 <= j < blocks@.len() implies (
            #[trigger] blocks@[j]).prev_block_hash.0@ == blocks@[j - 1].spec_block_hash() by {
                assert(lv[old_leaves.len() + j] == blocks@[j]);
                assert(lv[old_leaves.len() + j - 1] == blocks@[j - 1]);
                assert(lv[old_leaves.len() + j].prev_block_hash.0@ == lv[old_leaves.len() + j
                    - 1].spec_block_hash());
            }
            assert(spec_blocks_extend(old_leaves, blocks@));
            self.block_tree.lemma_root_of_leaves();
        }
        let root = self.block_tree.get_root();
        if !(root == *expected_block_root) {
            // roll back: the attested root does not match
            let mut k: usize = blocks.len();
            while k > 0
                invariant
                    self.block_tree.wf(),
                    self.block_tree.spec_height() == BLOCK_TREE_HEIGHT as int,
                    self.latest_block == old(self).latest_block,
                    self.validity_pis == old(self).validity_pis,
                    self.block_tree_pis == old(self).block_tree_pis,
                    old(self).wf_tree(),
                    old_leaves == old(self).block_tree.leaves_view(),
                    old_leaves.len() + blocks@.len() <= pow2(BLOCK_TREE_HEIGHT as nat),
                    k <= blocks@.len(),
                    self.block_tree.leaves_view() == old_leaves + blocks@.take(k as int),
                    spec_blocks_extend(old_leaves, blocks@),
                    crate::merkle_tree_with_leaves::padded_root(
                        old_leaves + blocks@,
                        BLOCK_TREE_HEIGHT as int,
                    ) != expected_block_root.0@,
                decreases k,
            {
                proof {
                    assert(self.block_tree.leaves_view().len() == old_leaves.len() + k);
                }
                self.block_tree.pop();
                proof {
                    assert((old_leaves + blocks@.take(k as int)).drop_last() =~= old_leaves
                        + blocks@.take(k - 1));
                }
                k = k - 1;
            }
            proof {
                assert(old_leaves + blocks@.take(0) =~= old_leaves);
                lemma_tree_wf_from_leaves(old(self), self);
            }
            return Err(ZkpError::BlockRootMismatch);
        }
        proof {
            assert(crate::merkle_tree_with_leaves::padded_root(
                old_leaves + blocks@,
                BLOCK_TREE_HEIGHT as int,
            ) == expected_block_root.0@);
        }
        Ok(())
    }

    /// Restore the pipeline's public state from a status whose block log
    /// has already been synchronized.
    pub fn restore(&mut self, status: &BlockStatus) -> (r: Result<(), ZkpError>)
        requires
            old(self).wf_tree(),
        ensures
            r is Ok <==> (spec_status_consistent(
                status.latest_block,
                status.block_root,
                status.validity_pis,
                status.block_tree_pis,
            ) && old(self).block_tree.spec_root() == status.block_root.0@
                && crate::block::spec_same_block(
                &status.latest_block,
                &old(self).block_tree.leaves_view().last(),
            )),
            final(self).wf_tree(),
            final(self).block_tree.leaves_view() == old(self).block_tree.leaves_view(),
            r is Err ==> *final(self) == *old(self),
            r is Ok ==> final(self).wf(),
            r is Ok ==> final(self).latest_block == status.latest_block,
            r is Ok ==> final(self).validity_pis == status.validity_pis,
            r is Ok ==> final(self).block_tree_pis == status.block_tree_pis,
    {
        match status.verify() {
            Ok(u) => u,
            Err(e) => {
                return Err(e);
            },
        }
        let root = self.block_tree.get_root();
        if !(root == status.block_root) {
            return Err(ZkpError::BlockRootMismatch);
        }
        // the claimed latest block must be the last one in the log
        let len = self.block_tree.len();
        let last = self.block_tree.get_leaf(len - 1);
        if !(status.latest_block == last) {
            return Err(ZkpError::InvalidStatus);
        }
        proof {
            crate::block::lemma_block_eq_from_views(status.latest_block, last);
            assert(status.latest_block == self.block_tree.leaves_view().last());
        }
        self.latest_block = status.latest_block;
        self.validity_pis = match &status.validity_pis {
            Some(v) => {
                let copy = ValidityPublicInputs {
                    block_hash: crate::h256::H256(v.block_hash.0),
                    total_spent: v.total_spent,
                    total_deposit: v.total_deposit,
                };
                proof {
                    assert(copy == *v);
                }
                Some(copy)
            },
            None => None,
        };
        self.block_tree_pis = match &status.block_tree_pis {
            Some(bt) => {
                let copy = BlockTreePublicInputs {
                    block: bt.block,
                    block_hash: bt.block_hash,
                    block_root: bt.block_root,
                };
                proof {
                    assert(copy == *bt);
                }
                Some(copy)
            },
            None => None,
        };
        Ok(())
    }
}

/// A processor whose log holds the same leaves as a well-formed one is
/// well formed itself.
proof fn lemma_tree_wf_from_leaves(a: &BlockProcessor, b: &BlockProcessor)
    requires
        a.wf_tree(),
        b.block_tree.wf(),
        b.block_tree.spec_height() == BLOCK_TREE_HEIGHT as int,
        b.block_tree.leaves_view() == a.block_tree.leaves_view(),
    ensures
        b.wf_tree(),
        b.block_tree.merkle_tree.assignment@ == a.block_tree.merkle_tree.assignment@,
        b.block_tree.spec_root() == a.block_tree.spec_root(),
{
    assert forall|i: int| 0 <= i < b.block_tree.leaves_view().len() implies (
    #[trigger] b.block_tree.leaves_view()[i]).block_number == i by {
        assert(a.block_tree.leaves_view()[i].block_number == i);
    }
    assert forall|i: int| 1 <= i < b.block_tree.leaves_view().len() implies (
    #[trigger] b.block_tree.leaves_view()[i]).prev_block_hash.0@
        == b.block_tree.leaves_view()[i - 1].spec_block_hash() by {
        assert(a.block_tree.leaves_view()[i].prev_block_hash.0@
            == a.block_tree.leaves_view()[i - 1].spec_block_hash());
    }
    assert(b.block_tree.merkle_tree.assignment@ =~= a.block_tree.merkle_tree.assignment@);
}

} // verus!
