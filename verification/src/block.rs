//! Block headers: the unit of the rollup chain. A block's identity is
//! its solidity-style hash over the fixed-width encoding.

use vstd::prelude::*;

use crate::asset::Assets;
use crate::digest::{Digest, hash_fields, spec_hash_fields};
use crate::h256::{H256, spec_solidity_keccak, spec_h256_digits, solidity_keccak256};
use crate::hashing::{u32s_as_u64s, spec_be_bytes_of_u32s};
use crate::merkle_tree_with_leaves::Leafable;
use crate::u256::U256;

verus! {

pub const BLOCK_VEC_LEN: usize = 49;

#[derive(Copy, Clone, Debug)]
pub struct Block {
    pub prev_block_hash: H256,
    pub transfer_tree_root: H256,
    pub total_deposit: Assets,
    pub block_number: u32,
}

impl PartialEq for Block {
    fn eq(&self, other: &Block) -> (r: bool) {
        self.prev_block_hash == other.prev_block_hash && self.transfer_tree_root
            == other.transfer_tree_root && self.total_deposit == other.total_deposit
            && self.block_number == other.block_number
    }
}

impl Eq for Block {

}

impl vstd::std_specs::cmp::PartialEqSpecImpl for Block {
    open spec fn obeys_eq_spec() -> bool {
        true
    }

    open spec fn eq_spec(&self, other: &Block) -> bool {
        self.prev_block_hash.0@ == other.prev_block_hash.0@ && self.transfer_tree_root.0@
            == other.transfer_tree_root.0@ && self.total_deposit.limb_views()
            == other.total_deposit.limb_views() && self.block_number == other.block_number
    }
}

impl Block {
    /// The genesis block: all-default fields, block number zero.
    pub closed spec fn spec_genesis() -> Block {
        Block {
            prev_block_hash: H256(Self::spec_zero_bytes()),
            transfer_tree_root: H256(Self::spec_zero_bytes()),
            total_deposit: Assets(
                [
                    U256([0u32, 0u32, 0u32, 0u32, 0u32, 0u32, 0u32, 0u32]),
                    U256([0u32, 0u32, 0u32, 0u32, 0u32, 0u32, 0u32, 0u32]),
                    U256([0u32, 0u32, 0u32, 0u32, 0u32, 0u32, 0u32, 0u32]),
                    U256([0u32, 0u32, 0u32, 0u32, 0u32, 0u32, 0u32, 0u32]),
                ],
            ),
            block_number: 0,
        }
    }

    /// 32 zero bytes.
    pub closed spec fn spec_zero_bytes() -> [u8; 32] {
        [
            0u8,
            0u8,
            0u8,
            0u8,
            0u8,
            0u8,
            0u8,
            0u8,
            0u8,
            0u8,
            0u8,
            0u8,
            0u8,
            0u8,
            0u8,
            0u8,
            0u8,
            0u8,
            0u8,
            0u8,
            0u8,
            0u8,
            0u8,
            0u8,
            0u8,
            0u8,
            0u8,
            0u8,
            0u8,
            0u8,
            0u8,
            0u8,
        ]
    }

    /// The genesis block.
    pub fn genesis() -> (r: Block)
        ensures
            r == Block::spec_genesis(),
    {
        let z = H256(
            [
                0u8,
                0u8,
                0u8,
                0u8,
                0u8,
                0u8,
                0u8,
                0u8,
                0u8,
                0u8,
                0u8,
                0u8,
                0u8,
                0u8,
                0u8,
                0u8,
                0u8,
                0u8,
                0u8,
                0u8,
                0u8,
                0u8,
                0u8,
                0u8,
                0u8,
                0u8,
                0u8,
                0u8,
                0u8,
                0u8,
                0u8,
                0u8,
            ],
        );
        let zero = U256([0u32, 0u32, 0u32, 0u32, 0u32, 0u32, 0u32, 0u32]);
        let r = Block {
            prev_block_hash: z,
            transfer_tree_root: z,
            total_deposit: Assets([zero, zero, zero, zero]),
            block_number: 0,
        };
        proof {
            assert(z.0 =~= Block::spec_genesis().prev_block_hash.0);
            assert(zero.0 =~= Block::spec_genesis().total_deposit.0[0].0);
        }
        r
    }

    /// Whether this block is the genesis block, field by field.
    pub open spec fn spec_is_genesis(&self) -> bool {
        let g = Block::spec_genesis();
        &&& self.prev_block_hash.0@ == g.prev_block_hash.0@
        &&& self.transfer_tree_root.0@ == g.transfer_tree_root.0@
        &&& self.total_deposit.limb_views() == g.total_deposit.limb_views()
        &&& self.block_number == 0
    }

    /// Runtime test for the genesis block.
    pub fn is_genesis(&self) -> (r: bool)
        ensures
            r == self.spec_is_genesis(),
    {
        let g = Block::genesis();
        let r = *self == g;
        proof {
            if self.spec_is_genesis() {
                assert(self.prev_block_hash.0@ == g.prev_block_hash.0@);
            }
        }
        r
    }

    /// The 32-bit digit encoding fed into the solidity-style hash.
    pub open spec fn spec_u32_digits(&self) -> Seq<u32> {
        spec_h256_digits(self.prev_block_hash.0@) + spec_h256_digits(self.transfer_tree_root.0@)
            + self.total_deposit.spec_u32_digits() + seq![self.block_number]
    }

    /// The block's identity: the solidity-style hash of its encoding.
    #[verifier::opaque]
    pub open spec fn spec_block_hash(&self) -> Seq<u8> {
        spec_solidity_keccak(self.spec_u32_digits())
    }

    /// Returns the block hash.
    pub fn block_hash(&self) -> (r: H256)
        ensures
            r.0@ == self.spec_block_hash(),
    {
        let mut input: Vec<u32> = Vec::new();
        let prev = self.prev_block_hash.to_u32_digits();
        let root = self.transfer_tree_root.to_u32_digits();
        let deposit = self.total_deposit.to_u32_digits();
        let mut k: usize = 0;
        while k < 8
            invariant
                k <= 8,
                prev@ == spec_h256_digits(self.prev_block_hash.0@),
                input@ =~= prev@.take(k as int),
            decreases 8 - k,
        {
            input.push(prev[k]);
            proof {
                assert(input@ =~= prev@.take(k + 1));
            }
            k = k + 1;
        }
        proof {
            assert(prev@.take(8) =~= prev@);
        }
        let mut k2: usize = 0;
        while k2 < 8
            invariant
                k2 <= 8,
                prev@ == spec_h256_digits(self.prev_block_hash.0@),
                root@ == spec_h256_digits(self.transfer_tree_root.0@),
                input@ =~= prev@ + root@.take(k2 as int),
            decreases 8 - k2,
        {
            input.push(root[k2]);
            proof {
                assert(input@ =~= prev@ + root@.take(k2 + 1));
            }
            k2 = k2 + 1;
        }
        proof {
            assert(root@.take(8) =~= root@);
        }
        let mut k3: usize = 0;
        while k3 < 32
            invariant
                k3 <= 32,
                prev@ == spec_h256_digits(self.prev_block_hash.0@),
                root@ == spec_h256_digits(self.transfer_tree_root.0@),
                deposit@ == self.total_deposit.spec_u32_digits(),
                deposit@.len() == 32,
                input@ =~= prev@ + root@ + deposit@.take(k3 as int),
            decreases 32 - k3,
        {
            input.push(deposit[k3]);
            proof {
                assert(input@ =~= prev@ + root@ + deposit@.take(k3 + 1));
            }
            k3 = k3 + 1;
        }
        proof {
            assert(deposit@.take(32) =~= deposit@);
        }
        input.push(self.block_number);
        proof {
            reveal(Block::spec_block_hash);
            assert(input@ =~= self.spec_u32_digits());
        }
        H256::from_u32_digits(solidity_keccak256(input))
    }

    /// The field-element encoding of the whole header.
    pub open spec fn spec_field_vec(&self) -> Seq<u64> {
        u32s_as_u64s(spec_h256_digits(self.prev_block_hash.0@)) + u32s_as_u64s(
            spec_h256_digits(self.transfer_tree_root.0@),
        ) + self.total_deposit.spec_field_vec() + seq![self.block_number as u64]
    }

    pub fn to_vec(&self) -> (r: Vec<u64>)
        ensures
            r@ == self.spec_field_vec(),
            r@.len() == 49,
    {
        let mut r = self.prev_block_hash.to_vec();
        let mut b = self.transfer_tree_root.to_vec();
        let mut c = self.total_deposit.to_vec();
        r.append(&mut b);
        r.append(&mut c);
        r.push(self.block_number as u64);
        proof {
            assert(r@ =~= self.spec_field_vec());
        }
        r
    }

    pub fn from_vec(input: &[u64]) -> (r: Self)
        requires
            input@.len() == 49,
        ensures
            r.prev_block_hash.0@ == spec_be_bytes_of_u32s(
                Seq::new(8, |k: int| input@[k] as u32),
            ),
            r.transfer_tree_root.0@ == spec_be_bytes_of_u32s(
                Seq::new(8, |k: int| input@[8 + k] as u32),
            ),
            forall|k: int, j: int|
                0 <= k < 4 && 0 <= j < 8 ==> r.total_deposit.0@[k].0@[j] == input@[16 + 8 * k
                    + j] as u32,
            r.block_number == input@[48] as u32,
    {
        let prev_block_hash = H256::from_vec(&input[0..8]);
        let transfer_tree_root = H256::from_vec(&input[8..16]);
        let total_deposit = Assets::from_vec(&input[16..48]);
        let block_number = input[48] as u32;
        let r = Block { prev_block_hash, transfer_tree_root, total_deposit, block_number };
        proof {
            assert(Seq::new(8, |k: int| input@.subrange(0, 8)[k] as u32) =~= Seq::new(
                8,
                |k: int| input@[k] as u32,
            ));
            assert(Seq::new(8, |k: int| input@.subrange(8, 16)[k] as u32) =~= Seq::new(
                8,
                |k: int| input@[8 + k] as u32,
            ));
        }
        r
    }
}

/// Whether two blocks carry the same values, field by field.
pub open spec fn spec_same_block(a: &Block, b: &Block) -> bool {
    &&& a.prev_block_hash.0@ == b.prev_block_hash.0@
    &&& a.transfer_tree_root.0@ == b.transfer_tree_root.0@
    &&& a.total_deposit.limb_views() == b.total_deposit.limb_views()
    &&& a.block_number == b.block_number
}

/// The genesis block's visible facts, usable where its definition is not.
pub proof fn lemma_genesis_fields()
    ensures
        Block::spec_genesis().block_number == 0,
        Block::spec_genesis().spec_is_genesis(),
        forall|b: Block| b.spec_is_genesis() ==> b.block_number == 0,
{
}

/// Field views determine the block: blocks with equal views are equal.
pub proof fn lemma_block_eq_from_views(a: Block, b: Block)
    requires
        a.prev_block_hash.0@ == b.prev_block_hash.0@,
        a.transfer_tree_root.0@ == b.transfer_tree_root.0@,
        a.total_deposit.limb_views() == b.total_deposit.limb_views(),
        a.block_number == b.block_number,
    ensures
        a == b,
{
    broadcast use vstd::array::group_array_axioms;

    assert(a.prev_block_hash.0 =~= b.prev_block_hash.0);
    assert(a.transfer_tree_root.0 =~= b.transfer_tree_root.0);
    assert forall|k: int| 0 <= k < 4 implies a.total_deposit.0@[k] == b.total_deposit.0@[k] by {
        assert(a.total_deposit.limb_views()[k] == b.total_deposit.limb_views()[k]);
        assert(a.total_deposit.0@[k].0 =~= b.total_deposit.0@[k].0);
    }
    assert(a.total_deposit.0@ =~= b.total_deposit.0@);
    assert(a.total_deposit.0 =~= b.total_deposit.0);
}

impl Leafable for Block {
    open spec fn spec_hash(&self) -> Seq<u64> {
        spec_hash_fields(self.spec_field_vec())
    }

    open spec fn spec_empty() -> Self {
        Block::spec_genesis()
    }

    fn empty_leaf() -> (r: Self) {
        Block::genesis()
    }

    fn hash(&self) -> (r: Digest) {
        hash_fields(&self.to_vec())
    }

    fn duplicate(&self) -> (r: Self) {
        *self
    }
}

} // verus!
