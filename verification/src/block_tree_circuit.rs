//! The cyclic block-tree chain's value side: it appends block headers to
//! the running append-only Merkle log.

use vstd::prelude::*;
use vstd::arithmetic::power2::pow2;

use crate::block::Block;
use crate::constants::BLOCK_TREE_HEIGHT;
use crate::digest::Digest;
use crate::error::ZkpError;
use crate::h256::H256;
use crate::merkle_tree::merkle_fold;
use crate::merkle_tree_with_leaves::{Leafable, MerkleProofWithLeaves, MerkleTreeWithLeaves,
    padded_root};

verus! {

/// State carried across the block-tree chain: the newest block, its hash,
/// and the root of the block log after inserting it.
pub struct BlockTreePublicInputs {
    pub block: Block,
    pub block_hash: H256,
    pub block_root: Digest,
}

impl BlockTreePublicInputs {
    /// The state of a chain that holds only the genesis block.
    pub fn genesis() -> (r: BlockTreePublicInputs)
        ensures
            r.block == Block::spec_genesis(),
            r.block_hash.0@ == Block::spec_genesis().spec_block_hash(),
            r.block_root.0@ == padded_root(
                seq![Block::spec_genesis()],
                BLOCK_TREE_HEIGHT as int,
            ),
    {
        let mut tree = MerkleTreeWithLeaves::<Block>::new(BLOCK_TREE_HEIGHT);
        let genesis = Block::genesis();
        proof {
            vstd::arithmetic::power2::lemma_pow2_pos(BLOCK_TREE_HEIGHT as nat);
        }
        tree.push(genesis);
        proof {
            tree.lemma_root_of_leaves();
            assert(tree.leaves_view() =~= seq![Block::spec_genesis()]);
        }
        let block_root = tree.get_root();
        BlockTreePublicInputs {
            block: Block::genesis(),
            block_hash: Block::genesis().block_hash(),
            block_root,
        }
    }

    /// The wire encoding: the block's fields, its hash digits, the root.
    pub open spec fn spec_field_vec(&self) -> Seq<u64> {
        self.block.spec_field_vec() + crate::hashing::u32s_as_u64s(
            crate::h256::spec_h256_digits(self.block_hash.0@),
        ) + self.block_root.0@
    }

    pub fn to_vec(&self) -> (r: Vec<u64>)
        ensures
            r@ == self.spec_field_vec(),
            r@.len() == 61,
    {
        let mut r = self.block.to_vec();
        let mut h = self.block_hash.to_vec();
        r.append(&mut h);
        r.push(self.block_root.0[0]);
        r.push(self.block_root.0[1]);
        r.push(self.block_root.0[2]);
        r.push(self.block_root.0[3]);
        proof {
            assert(r@ =~= self.spec_field_vec());
        }
        r
    }

    /// Read the state back from a proof's public inputs (a prefix of the
    /// vector).
    pub fn from_pis(input: &[u64]) -> (r: Self)
        requires
            input@.len() >= 61,
        ensures
            r.block.prev_block_hash.0@ == crate::hashing::spec_be_bytes_of_u32s(
                Seq::new(8, |k: int| input@[k] as u32),
            ),
            r.block.transfer_tree_root.0@ == crate::hashing::spec_be_bytes_of_u32s(
                Seq::new(8, |k: int| input@[8 + k] as u32),
            ),
            forall|k: int, j: int|
                0 <= k < 4 && 0 <= j < 8 ==> r.block.total_deposit.0@[k].0@[j] == input@[16 + 8 * k
                    + j] as u32,
            r.block.block_number == input@[48] as u32,
            r.block_hash.0@ == crate::hashing::spec_be_bytes_of_u32s(
                Seq::new(8, |k: int| input@[49 + k] as u32),
            ),
            r.block_root.0@ =~= seq![input@[57], input@[58], input@[59], input@[60]],
    {
        let block = Block::from_vec(&input[0..49]);
        let block_hash = H256::from_vec(&input[49..57]);
        let block_root = Digest([input[57], input[58], input[59], input[60]]);
        proof {
            let sub = input@.subrange(0, 49);
            assert(Seq::new(8, |k: int| sub[k] as u32) =~= Seq::new(8, |k: int| input@[k] as u32));
            assert(Seq::new(8, |k: int| sub[8 + k] as u32) =~= Seq::new(
                8,
                |k: int| input@[8 + k] as u32,
            ));
            let subh = input@.subrange(49, 57);
            assert(Seq::new(8, |k: int| subh[k] as u32) =~= Seq::new(
                8,
                |k: int| input@[49 + k] as u32,
            ));
        }
        BlockTreePublicInputs { block, block_hash, block_root }
    }
}

/// Witness of one block-tree step: the new block, the log's roots before
/// and after its insertion, and the Merkle path that witnesses both.
pub struct BlockTreeValue {
    pub block: Block,
    pub block_hash: H256,
    pub prev_block_root: Digest,
    pub new_block_root: Digest,
    pub merkle_proof: MerkleProofWithLeaves,
}

impl BlockTreeValue {
    /// Build and check the step witness: the same path must show the empty
    /// leaf at the block's number under the old root and the block itself
    /// under the new root.
    pub fn new(
        block: &Block,
        prev_block_root: Digest,
        new_block_root: Digest,
        merkle_proof: MerkleProofWithLeaves,
    ) -> (r: Result<BlockTreeValue, ZkpError>)
        ensures
            r is Ok <==> (merkle_fold(
                Block::spec_genesis().spec_hash(),
                merkle_proof.0.views(),
                block.block_number as int,
            ) == prev_block_root.0@ && merkle_fold(
                block.spec_hash(),
                merkle_proof.0.views(),
                block.block_number as int,
            ) == new_block_root.0@),
            r is Err ==> r->Err_0 == ZkpError::MerkleVerifyFailed,
            r is Ok ==> {
                let v = r->Ok_0;
                &&& v.block == *block
                &&& v.block_hash.0@ == block.spec_block_hash()
                &&& v.prev_block_root.0@ == prev_block_root.0@
                &&& v.new_block_root.0@ == new_block_root.0@
            },
    {
        let empty_leaf = Block::genesis();
        match merkle_proof.verify(&empty_leaf, block.block_number as usize, prev_block_root) {
            Ok(u) => u,
            Err(e) => {
                return Err(e);
            },
        }
        match merkle_proof.verify(block, block.block_number as usize, new_block_root) {
            Ok(u) => u,
            Err(e) => {
                return Err(e);
            },
        }
        let block_hash = block.block_hash();
        Ok(
            BlockTreeValue {
                block: *block,
                block_hash,
                prev_block_root,
                new_block_root,
                merkle_proof,
            },
        )
    }
}

} // verus!
