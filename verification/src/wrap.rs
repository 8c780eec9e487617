//! The final composition step's value side: it checks that the three
//! top-level public states agree and produces the externally consumable
//! pair, hashed down to one digest for cheap external verification.

use vstd::prelude::*;

use crate::block_tree_circuit::BlockTreePublicInputs;
use crate::digest::Digest;
use crate::error::ZkpError;
use crate::h256::{H256, spec_h256_digits};
use crate::validity_circuit::ValidityPublicInputs;

verus! {

/// Public state of one aggregation-tree proof: the running hash and the
/// block-log root every leaf was checked against.
pub struct DynamicTreePublicInputs {
    pub hash: H256,
    pub block_root: Digest,
}

impl DynamicTreePublicInputs {
    /// The wire encoding: hash digits, then the root words.
    pub open spec fn spec_field_vec(&self) -> Seq<u64> {
        crate::hashing::u32s_as_u64s(spec_h256_digits(self.hash.0@)) + self.block_root.0@
    }

    pub fn to_vec(&self) -> (r: Vec<u64>)
        ensures
            r@ == self.spec_field_vec(),
            r@.len() == 12,
    {
        let mut r = self.hash.to_vec();
        r.push(self.block_root.0[0]);
        r.push(self.block_root.0[1]);
        r.push(self.block_root.0[2]);
        r.push(self.block_root.0[3]);
        proof {
            assert(r@ =~= self.spec_field_vec());
        }
        r
    }

    /// Read the state back from a proof's public inputs (a prefix of the
    /// vector).
    pub fn from_pis(input: &[u64]) -> (r: Self)
        requires
            input@.len() >= 12,
        ensures
            r.hash.0@ == crate::hashing::spec_be_bytes_of_u32s(
                Seq::new(8, |k: int| input@[k] as u32),
            ),
            r.block_root.0@ =~= seq![input@[8], input@[9], input@[10], input@[11]],
    {
        let hash = H256::from_vec(&input[0..8]);
        let block_root = Digest([input[8], input[9], input[10], input[11]]);
        proof {
            let sub = input@.subrange(0, 8);
            assert(Seq::new(8, |k: int| sub[k] as u32) =~= Seq::new(8, |k: int| input@[k] as u32));
        }
        DynamicTreePublicInputs { hash, block_root }
    }
}

/// The externally consumable outcome of one settlement cycle.
pub struct WrapPublicInputs {
    pub block_hash: H256,
    pub settlement_root: H256,
}

impl WrapPublicInputs {
    /// The digit encoding fed into the external digest.
    pub open spec fn spec_u32_digits(&self) -> Seq<u32> {
        spec_h256_digits(self.block_hash.0@) + spec_h256_digits(self.settlement_root.0@)
    }

    /// The single digest an external verifier checks: the hash of the two
    /// concatenated 32-byte values.
    pub fn keccak_hash(&self) -> (r: H256)
        ensures
            r.0@ == crate::tree_processor::keccak_pair(
                self.block_hash.0@,
                self.settlement_root.0@,
            ),
    {
        crate::tree_processor::two_to_one_h256(&self.block_hash, &self.settlement_root)
    }

    /// The digest reduced to four field elements.
    pub fn to_solidity_pis(&self) -> (r: Digest)
        ensures
            crate::hashing::spec_be_bytes_of_u64s(r.0@) == crate::tree_processor::keccak_pair(
                self.block_hash.0@,
                self.settlement_root.0@,
            ),
    {
        self.keccak_hash().reduce_to_digest()
    }
}

/// Check that the three top-level public states agree: the validity chain
/// and the block-tree chain name the same latest block, and the settlement
/// tree was built against the block-tree's root. On success the externally
/// consumable pair is returned.
pub fn validate_wrap(
    validity_pis: &ValidityPublicInputs,
    block_tree_pis: &BlockTreePublicInputs,
    settlement_tree_pis: &DynamicTreePublicInputs,
) -> (r: Result<WrapPublicInputs, ZkpError>)
    ensures
        r is Ok <==> (validity_pis.block_hash.0@ == block_tree_pis.block_hash.0@
            && settlement_tree_pis.block_root.0@ == block_tree_pis.block_root.0@),
        validity_pis.block_hash.0@ != block_tree_pis.block_hash.0@ ==> r == Result::<
            WrapPublicInputs,
            ZkpError,
        >::Err(ZkpError::PrevBlockHashMismatch),
        validity_pis.block_hash.0@ == block_tree_pis.block_hash.0@
            && settlement_tree_pis.block_root.0@ != block_tree_pis.block_root.0@ ==> r == Result::<
            WrapPublicInputs,
            ZkpError,
        >::Err(ZkpError::BlockRootMismatch),
        r is Ok ==> {
            let w = r->Ok_0;
            &&& w.block_hash.0@ == validity_pis.block_hash.0@
            &&& w.settlement_root.0@ == settlement_tree_pis.hash.0@
        },
{
    if !(validity_pis.block_hash == block_tree_pis.block_hash) {
        return Err(ZkpError::PrevBlockHashMismatch);
    }
    if !(settlement_tree_pis.block_root == block_tree_pis.block_root) {
        return Err(ZkpError::BlockRootMismatch);
    }
    Ok(
        WrapPublicInputs {
            block_hash: H256(validity_pis.block_hash.0),
            settlement_root: H256(settlement_tree_pis.hash.0),
        },
    )
}

} // verus!
