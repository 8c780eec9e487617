//! The cyclic validity chain's value side: it accumulates total spent and
//! total deposited across all blocks and enforces conservation.

use vstd::prelude::*;
use vstd::arithmetic::power2::pow2;

use crate::asset::Assets;
use crate::block::Block;
use crate::error::ZkpError;
use crate::h256::H256;
use crate::spent_circuit::SpentPublicInputs;

verus! {

/// State carried across the validity chain: the latest block hash and the
/// running totals.
pub struct ValidityPublicInputs {
    pub block_hash: H256,
    pub total_spent: Assets,
    pub total_deposit: Assets,
}

impl ValidityPublicInputs {
    /// The conservation invariant: nothing spent beyond the deposits.
    pub open spec fn spec_conserves(&self) -> bool {
        forall|k: int|
            0 <= k < 4 ==> self.total_spent.as_nats()[k] <= self.total_deposit.as_nats()[k]
    }

    /// The genesis state: the genesis block's hash and zero totals.
    pub fn genesis() -> (r: ValidityPublicInputs)
        ensures
            r.block_hash.0@ == Block::spec_genesis().spec_block_hash(),
            forall|k: int| 0 <= k < 4 ==> r.total_spent.as_nats()[k] == 0,
            forall|k: int| 0 <= k < 4 ==> r.total_deposit.as_nats()[k] == 0,
            r.spec_conserves(),
    {
        let r = ValidityPublicInputs {
            block_hash: Block::genesis().block_hash(),
            total_spent: Assets::zero(),
            total_deposit: Assets::zero(),
        };
        r
    }

    /// The wire encoding: hash digits, spent totals, deposit totals.
    pub open spec fn spec_field_vec(&self) -> Seq<u64> {
        crate::hashing::u32s_as_u64s(crate::h256::spec_h256_digits(self.block_hash.0@))
            + self.total_spent.spec_field_vec() + self.total_deposit.spec_field_vec()
    }

    pub fn to_vec(&self) -> (r: Vec<u64>)
        ensures
            r@ == self.spec_field_vec(),
            r@.len() == 72,
    {
        let mut r = self.block_hash.to_vec();
        let mut s = self.total_spent.to_vec();
        let mut d = self.total_deposit.to_vec();
        r.append(&mut s);
        r.append(&mut d);
        proof {
            assert(r@ =~= self.spec_field_vec());
        }
        r
    }

    /// Read the state back from a proof's public inputs (a prefix of the
    /// vector).
    pub fn from_pis(input: &[u64]) -> (r: Self)
        requires
            input@.len() >= 72,
        ensures
            r.block_hash.0@ == crate::hashing::spec_be_bytes_of_u32s(
                Seq::new(8, |k: int| input@[k] as u32),
            ),
            forall|k: int, j: int|
                0 <= k < 4 && 0 <= j < 8 ==> r.total_spent.0@[k].0@[j] == input@[8 + 8 * k
                    + j] as u32,
            forall|k: int, j: int|
                0 <= k < 4 && 0 <= j < 8 ==> r.total_deposit.0@[k].0@[j] == input@[40 + 8 * k
                    + j] as u32,
    {
        let block_hash = H256::from_vec(&input[0..8]);
        let total_spent = Assets::from_vec(&input[8..40]);
        let total_deposit = Assets::from_vec(&input[40..72]);
        proof {
            let sub = input@.subrange(0, 8);
            assert(Seq::new(8, |k: int| sub[k] as u32) =~= Seq::new(8, |k: int| input@[k] as u32));
        }
        ValidityPublicInputs { block_hash, total_spent, total_deposit }
    }

    /// One step of the validity chain: fold a spent proof's public inputs
    /// into the running state. The new block must chain from the state's
    /// block hash, and the new cumulative spend must not exceed the new
    /// cumulative deposit; each violation fails with its own error.
    pub fn apply(prev: &ValidityPublicInputs, spent_pis: &SpentPublicInputs) -> (r: Result<
        ValidityPublicInputs,
        ZkpError,
    >)
        ensures
            r is Ok <==> (spent_pis.block.prev_block_hash.0@ == prev.block_hash.0@ && forall|
                k: int,
            |
                0 <= k < 4 ==> prev.total_spent.as_nats()[k] + spent_pis.spent.as_nats()[k]
                    <= spent_pis.block.total_deposit.as_nats()[k]),
            spent_pis.block.prev_block_hash.0@ != prev.block_hash.0@ ==> r == Result::<
                ValidityPublicInputs,
                ZkpError,
            >::Err(ZkpError::PrevBlockHashMismatch),
            spent_pis.block.prev_block_hash.0@ == prev.block_hash.0@ && r is Err ==> r->Err_0
                == ZkpError::ConservationViolated,
            r is Ok ==> {
                let v = r->Ok_0;
                &&& v.block_hash.0@ == spent_pis.block.spec_block_hash()
                &&& forall|k: int|
                    0 <= k < 4 ==> v.total_spent.as_nats()[k] == prev.total_spent.as_nats()[k]
                        + spent_pis.spent.as_nats()[k]
                &&& v.total_deposit == spent_pis.block.total_deposit
                &&& v.spec_conserves()
            },
    {
        if !(spent_pis.block.prev_block_hash == prev.block_hash) {
            return Err(ZkpError::PrevBlockHashMismatch);
        }
        proof {
            assert forall|k: int| 0 <= k < 4 implies spent_pis.block.total_deposit.as_nats()[k]
                < pow2(256) by {
                crate::u256::lemma_be_nat_bound(spent_pis.block.total_deposit.0@[k].0@);
                assert(spent_pis.block.total_deposit.as_nats()[k]
                    == spent_pis.block.total_deposit.0@[k].as_nat());
            }
        }
        let total_spent = match prev.total_spent.checked_add(&spent_pis.spent) {
            Some(s) => s,
            None => {
                proof {
                    let k = choose|k: int|
                        0 <= k < 4 && prev.total_spent.as_nats()[k] + spent_pis.spent.as_nats()[k]
                            >= pow2(256);
                    assert(prev.total_spent.as_nats()[k] + spent_pis.spent.as_nats()[k]
                        > spent_pis.block.total_deposit.as_nats()[k]);
                }
                return Err(ZkpError::ConservationViolated);
            },
        };
        let total_deposit = spent_pis.block.total_deposit;
        if !total_spent.le(&total_deposit) {
            proof {
                let k = choose|k: int|
                    0 <= k < 4 && total_spent.as_nats()[k] > total_deposit.as_nats()[k];
                assert(prev.total_spent.as_nats()[k] + spent_pis.spent.as_nats()[k]
                    > spent_pis.block.total_deposit.as_nats()[k]);
            }
            return Err(ZkpError::ConservationViolated);
        }
        let block_hash = spent_pis.block.block_hash();
        let v = ValidityPublicInputs { block_hash, total_spent, total_deposit };
        proof {
            assert forall|k: int| 0 <= k < 4 implies prev.total_spent.as_nats()[k]
                + spent_pis.spent.as_nats()[k] <= spent_pis.block.total_deposit.as_nats()[k] by {
                assert(total_spent.as_nats()[k] <= total_deposit.as_nats()[k]);
            }
        }
        Ok(v)
    }

    /// An owned copy.
    pub fn duplicate(&self) -> (r: ValidityPublicInputs)
        ensures
            r == *self,
    {
        ValidityPublicInputs {
            block_hash: H256(self.block_hash.0),
            total_spent: self.total_spent,
            total_deposit: self.total_deposit,
        }
    }
}

} // verus!
