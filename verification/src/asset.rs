//! Asset amounts: a single asset entry and the fixed-width vector of
//! per-asset totals.

use vstd::prelude::*;
use vstd::arithmetic::power2::pow2;

use crate::constants::NUM_ASSETS;
use crate::u256::U256;

verus! {

pub const ASSETS_VEC_LEN: usize = 32;

/// One amount of one asset kind.
#[derive(Copy, Clone, Debug)]
pub struct Asset {
    pub asset_id: u32,
    pub amount: U256,
}

impl PartialEq for Asset {
    fn eq(&self, other: &Asset) -> (r: bool) {
        self.asset_id == other.asset_id && self.amount == other.amount
    }
}

impl Eq for Asset {

}

impl vstd::std_specs::cmp::PartialEqSpecImpl for Asset {
    open spec fn obeys_eq_spec() -> bool {
        true
    }

    open spec fn eq_spec(&self, other: &Asset) -> bool {
        self.asset_id == other.asset_id && self.amount.0@ == other.amount.0@
    }
}

impl Asset {
    /// A zero amount of asset kind zero.
    pub fn zero() -> (r: Self)
        ensures
            r.asset_id == 0,
            r.amount.as_nat() == 0,
    {
        Asset { asset_id: 0, amount: U256::zero() }
    }

    /// The field-element encoding: the amount's limbs, then the asset id.
    pub open spec fn spec_field_vec(&self) -> Seq<u64> {
        crate::hashing::u32s_as_u64s(self.amount.0@) + seq![self.asset_id as u64]
    }

    /// Eight field elements of the amount, then the asset id.
    pub fn to_vec(&self) -> (r: Vec<u64>)
        ensures
            r@ == self.spec_field_vec(),
            r@.len() == 9,
    {
        let mut r = self.amount.to_vec();
        r.push(self.asset_id as u64);
        proof {
            assert(r@ =~= self.spec_field_vec());
        }
        r
    }

    /// Read an entry back from field elements.
    pub fn from_vec(input: &[u64]) -> (r: Self)
        requires
            input@.len() == 9,
        ensures
            forall|k: int| 0 <= k < 8 ==> r.amount.0@[k] == input@[k] as u32,
            r.asset_id == input@[8] as u32,
    {
        let amount = U256::from_vec(&input[0..8]);
        let asset_id = input[8] as u32;
        Asset { asset_id, amount }
    }
}

/// Per-asset totals, one 256-bit amount per supported asset kind.
#[derive(Copy, Clone, Debug)]
pub struct Assets(pub [U256; 4]);

impl PartialEq for Assets {
    fn eq(&self, other: &Assets) -> (r: bool) {
        let mut k: usize = 0;
        while k < 4
            invariant
                k <= 4,
                forall|m: int| 0 <= m < k ==> self.limb_views()[m] == other.limb_views()[m],
            decreases 4 - k,
        {
            if !(self.0[k] == other.0[k]) {
                proof {
                    assert(self.limb_views()[k as int] != other.limb_views()[k as int]);
                }
                return false;
            }
            proof {
                assert(self.limb_views()[k as int] == other.limb_views()[k as int]);
            }
            k = k + 1;
        }
        proof {
            assert(self.limb_views() =~= other.limb_views());
        }
        true
    }
}

impl Eq for Assets {

}

impl vstd::std_specs::cmp::PartialEqSpecImpl for Assets {
    open spec fn obeys_eq_spec() -> bool {
        true
    }

    open spec fn eq_spec(&self, other: &Assets) -> bool {
        self.limb_views() == other.limb_views()
    }
}

impl Assets {
    /// The limb sequences of the four entries.
    pub open spec fn limb_views(&self) -> Seq<Seq<u32>> {
        Seq::new(4, |k: int| self.0@[k].0@)
    }

    /// The mathematical value of each entry.
    pub open spec fn as_nats(&self) -> Seq<nat> {
        Seq::new(4, |k: int| self.0@[k].as_nat())
    }

    /// Ties each entry of `as_nats` to its component.
    pub proof fn lemma_as_nats_entries(&self)
        ensures
            forall|k: int| 0 <= k < 4 ==> self.as_nats()[k] == self.0@[k].as_nat(),
    {
    }

    /// All-zero totals.
    pub fn zero() -> (r: Self)
        ensures
            r.as_nats() =~= Seq::new(4, |k: int| 0nat),
    {
        let z = U256::zero();
        let r = Assets([z, z, z, z]);
        proof {
            assert(r.as_nats() =~= Seq::new(4, |k: int| 0nat));
        }
        r
    }

    /// The field-element encoding: the four entries' limbs in order.
    pub open spec fn spec_field_vec(&self) -> Seq<u64> {
        crate::hashing::u32s_as_u64s(self.0@[0].0@) + crate::hashing::u32s_as_u64s(self.0@[1].0@)
            + crate::hashing::u32s_as_u64s(self.0@[2].0@) + crate::hashing::u32s_as_u64s(
            self.0@[3].0@,
        )
    }

    /// The 32-bit digits of the four entries in order.
    pub open spec fn spec_u32_digits(&self) -> Seq<u32> {
        self.0@[0].0@ + self.0@[1].0@ + self.0@[2].0@ + self.0@[3].0@
    }

    /// Eight field elements per entry, entries in order.
    pub fn to_vec(&self) -> (r: Vec<u64>)
        ensures
            r@ == self.spec_field_vec(),
            r@.len() == 32,
            forall|k: int, j: int|
                0 <= k < 4 && 0 <= j < 8 ==> r@[8 * k + j] == self.0@[k].0@[j] as u64,
    {
        let mut r = self.0[0].to_vec();
        let mut p1 = self.0[1].to_vec();
        let mut p2 = self.0[2].to_vec();
        let mut p3 = self.0[3].to_vec();
        let ghost v0 = r@;
        let ghost v1 = p1@;
        let ghost v2 = p2@;
        let ghost v3 = p3@;
        r.append(&mut p1);
        r.append(&mut p2);
        r.append(&mut p3);
        proof {
            assert(r@ == v0 + v1 + v2 + v3);
            assert forall|k: int, j: int| 0 <= k < 4 && 0 <= j < 8 implies r@[8 * k + j]
                == self.0@[k].0@[j] as u64 by {
                if k == 0 {
                    assert(r@[8 * k + j] == v0[j]);
                } else if k == 1 {
                    assert(r@[8 * k + j] == v1[j]);
                } else if k == 2 {
                    assert(r@[8 * k + j] == v2[j]);
                } else {
                    assert(r@[8 * k + j] == v3[j]);
                }
            }
            assert(r@ =~= self.spec_field_vec());
        }
        r
    }

    /// Read totals back from field elements.
    pub fn from_vec(input: &[u64]) -> (r: Self)
        requires
            input@.len() == 32,
        ensures
            forall|k: int, j: int|
                0 <= k < 4 && 0 <= j < 8 ==> r.0@[k].0@[j] == input@[8 * k + j] as u32,
    {
        let a0 = U256::from_vec(&input[0..8]);
        let a1 = U256::from_vec(&input[8..16]);
        let a2 = U256::from_vec(&input[16..24]);
        let a3 = U256::from_vec(&input[24..32]);
        let r = Assets([a0, a1, a2, a3]);
        r
    }

    /// The 32-bit digits of the four entries, in order.
    pub fn to_u32_digits(&self) -> (r: [u32; 32])
        ensures
            r@ == self.spec_u32_digits(),
            forall|k: int, j: int| 0 <= k < 4 && 0 <= j < 8 ==> r@[8 * k + j] == self.0@[k].0@[j],
    {
        let a = &self.0;
        let r: [u32; 32] = [
            a[0].0[0],
            a[0].0[1],
            a[0].0[2],
            a[0].0[3],
            a[0].0[4],
            a[0].0[5],
            a[0].0[6],
            a[0].0[7],
            a[1].0[0],
            a[1].0[1],
            a[1].0[2],
            a[1].0[3],
            a[1].0[4],
            a[1].0[5],
            a[1].0[6],
            a[1].0[7],
            a[2].0[0],
            a[2].0[1],
            a[2].0[2],
            a[2].0[3],
            a[2].0[4],
            a[2].0[5],
            a[2].0[6],
            a[2].0[7],
            a[3].0[0],
            a[3].0[1],
            a[3].0[2],
            a[3].0[3],
            a[3].0[4],
            a[3].0[5],
            a[3].0[6],
            a[3].0[7],
        ];
        proof {
            assert(r@ =~= self.spec_u32_digits());
        }
        r
    }

    /// Totals that hold one single asset entry.
    pub fn from_asset(asset: &Asset) -> (r: Self)
        requires
            asset.asset_id < 4,
        ensures
            r.as_nats() =~= Seq::new(4, |k: int| 0nat).update(
                asset.asset_id as int,
                asset.amount.as_nat(),
            ),
    {
        let mut r = Self::zero();
        let id = asset.asset_id as usize;
        let ghost old_r = r;
        r.0 = [
            if id == 0 {
                asset.amount
            } else {
                r.0[0]
            },
            if id == 1 {
                asset.amount
            } else {
                r.0[1]
            },
            if id == 2 {
                asset.amount
            } else {
                r.0[2]
            },
            if id == 3 {
                asset.amount
            } else {
                r.0[3]
            },
        ];
        proof {
            assert(r.as_nats() =~= Seq::new(4, |k: int| 0nat).update(
                asset.asset_id as int,
                asset.amount.as_nat(),
            ));
        }
        r
    }

    /// Component-wise sum; every component must stay within 256 bits.
    pub fn add(&self, rhs: &Assets) -> (r: Assets)
        requires
            forall|k: int| 0 <= k < 4 ==> self.as_nats()[k] + rhs.as_nats()[k] < pow2(256),
        ensures
            r.as_nats() =~= Seq::new(4, |k: int| (self.as_nats()[k] + rhs.as_nats()[k]) as nat),
    {
        proof {
            assert forall|k: int| 0 <= k < 4 implies self.0@[k].as_nat() + rhs.0@[k].as_nat()
                < pow2(256) by {
                assert(self.as_nats()[k] + rhs.as_nats()[k] < pow2(256));
            }
        }
        let r = Assets(
            [
                self.0[0].add(rhs.0[0]),
                self.0[1].add(rhs.0[1]),
                self.0[2].add(rhs.0[2]),
                self.0[3].add(rhs.0[3]),
            ],
        );
        proof {
            assert(r.as_nats() =~= Seq::new(
                4,
                |k: int| (self.as_nats()[k] + rhs.as_nats()[k]) as nat,
            ));
        }
        r
    }

    /// Component-wise sum, or `None` where a component would not fit.
    pub fn checked_add(&self, rhs: &Assets) -> (r: Option<Assets>)
        ensures
            (forall|k: int| 0 <= k < 4 ==> self.as_nats()[k] + rhs.as_nats()[k] < pow2(256))
                <==> r is Some,
            r is Some ==> r->0.as_nats() =~= Seq::new(
                4,
                |k: int| (self.as_nats()[k] + rhs.as_nats()[k]) as nat,
            ),
    {
        proof {
            self.lemma_as_nats_entries();
            rhs.lemma_as_nats_entries();
        }
        let mut k: usize = 0;
        while k < 4
            invariant
                k <= 4,
                forall|m: int| 0 <= m < k ==> self.as_nats()[m] + rhs.as_nats()[m] < pow2(256),
            decreases 4 - k,
        {
            if self.0[k].does_overflow_after_add(&rhs.0[k]) {
                proof {
                    assert(self.as_nats()[k as int] + rhs.as_nats()[k as int] >= pow2(256));
                }
                return None;
            }
            proof {
                assert(self.as_nats()[k as int] + rhs.as_nats()[k as int] < pow2(256));
            }
            k = k + 1;
        }
        Some(self.add(rhs))
    }

    /// Component-wise difference; no component may underflow.
    pub fn sub(&self, rhs: &Assets) -> (r: Assets)
        requires
            forall|k: int| 0 <= k < 4 ==> self.as_nats()[k] >= rhs.as_nats()[k],
        ensures
            r.as_nats() =~= Seq::new(4, |k: int| (self.as_nats()[k] - rhs.as_nats()[k]) as nat),
    {
        proof {
            assert forall|k: int| 0 <= k < 4 implies self.0@[k].as_nat()
                >= rhs.0@[k].as_nat() by {
                assert(self.as_nats()[k] >= rhs.as_nats()[k]);
            }
        }
        let r = Assets(
            [
                self.0[0].sub(rhs.0[0]),
                self.0[1].sub(rhs.0[1]),
                self.0[2].sub(rhs.0[2]),
                self.0[3].sub(rhs.0[3]),
            ],
        );
        proof {
            assert(r.as_nats() =~= Seq::new(
                4,
                |k: int| (self.as_nats()[k] - rhs.as_nats()[k]) as nat,
            ));
        }
        r
    }

    /// Component-wise order: every entry of `self` at most the entry of
    /// `other`.
    pub fn le(&self, other: &Assets) -> (r: bool)
        ensures
            r == (forall|k: int| 0 <= k < 4 ==> self.as_nats()[k] <= other.as_nats()[k]),
    {
        proof {
            self.lemma_as_nats_entries();
            other.lemma_as_nats_entries();
        }
        let l0 = self.0[0].le(&other.0[0]);
        let l1 = self.0[1].le(&other.0[1]);
        let l2 = self.0[2].le(&other.0[2]);
        let l3 = self.0[3].le(&other.0[3]);
        let r = l0 && l1 && l2 && l3;
        proof {
            if r {
                assert forall|k: int| 0 <= k < 4 implies self.as_nats()[k]
                    <= other.as_nats()[k] by {
                    assert(self.as_nats()[k] == self.0@[k].as_nat());
                }
            } else {
                if !l0 {
                    assert(self.as_nats()[0] > other.as_nats()[0]);
                } else if !l1 {
                    assert(self.as_nats()[1] > other.as_nats()[1]);
                } else if !l2 {
                    assert(self.as_nats()[2] > other.as_nats()[2]);
                } else {
                    assert(self.as_nats()[3] > other.as_nats()[3]);
                }
            }
        }
        r
    }
}

} // verus!
