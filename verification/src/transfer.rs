//! One transfer: a recipient and an asset amount. Transfers are the
//! leaves of each block's transfer Merkle tree.

use vstd::prelude::*;
use vstd::arithmetic::power2::pow2;

use crate::address::Address;
use crate::asset::{Asset, Assets};
use crate::constants::TRANSFER_TREE_HEIGHT;
use crate::digest::{Digest, hash_fields, spec_hash_fields};
use crate::h256::{H256, spec_solidity_keccak, spec_h256_digits, solidity_keccak256};
use crate::hashing::u32s_as_u64s;
use crate::merkle_tree_with_leaves::{Leafable, MerkleTreeWithLeaves};

verus! {

broadcast use vstd::array::group_array_axioms;

#[derive(Copy, Clone, Debug)]
pub struct Transfer {
    pub recipient: Address,
    pub asset: Asset,
}

impl PartialEq for Transfer {
    fn eq(&self, other: &Transfer) -> (r: bool) {
        self.recipient == other.recipient && self.asset == other.asset
    }
}

impl Eq for Transfer {

}

impl vstd::std_specs::cmp::PartialEqSpecImpl for Transfer {
    open spec fn obeys_eq_spec() -> bool {
        true
    }

    open spec fn eq_spec(&self, other: &Transfer) -> bool {
        self.recipient.0@ == other.recipient.0@ && self.asset.asset_id == other.asset.asset_id
            && self.asset.amount.0@ == other.asset.amount.0@
    }
}

impl Transfer {
    /// The all-default transfer that pads a block's transfer tree.
    pub fn zero() -> (r: Self)
        ensures
            r == Transfer::spec_empty(),
    {
        let r = Transfer {
            recipient: Address([0u32, 0u32, 0u32, 0u32, 0u32]),
            asset: Asset {
                asset_id: 0,
                amount: crate::u256::U256([0u32, 0u32, 0u32, 0u32, 0u32, 0u32, 0u32, 0u32]),
            },
        };
        proof {
            let e = Transfer::spec_empty();
            assert(r.recipient.0 =~= e.recipient.0);
            assert(r.asset.amount.0 =~= e.asset.amount.0);
        }
        r
    }

    /// The field-element encoding: recipient digits, then the asset entry.
    pub open spec fn spec_field_vec(&self) -> Seq<u64> {
        u32s_as_u64s(self.recipient.0@) + self.asset.spec_field_vec()
    }

    pub fn to_vec(&self) -> (r: Vec<u64>)
        ensures
            r@ == self.spec_field_vec(),
            r@.len() == 14,
    {
        let mut r = self.recipient.to_vec();
        let mut a = self.asset.to_vec();
        r.append(&mut a);
        proof {
            assert(r@ =~= self.spec_field_vec());
        }
        r
    }

    pub fn from_vec(input: &[u64]) -> (r: Self)
        requires
            input@.len() == 14,
        ensures
            forall|k: int| 0 <= k < 5 ==> r.recipient.0@[k] == input@[k] as u32,
            forall|k: int| 0 <= k < 8 ==> r.asset.amount.0@[k] == input@[5 + k] as u32,
            r.asset.asset_id == input@[13] as u32,
    {
        let recipient = Address::from_vec(&input[0..5]);
        let asset = Asset::from_vec(&input[5..14]);
        Transfer { recipient, asset }
    }

    /// The 32-bit digit encoding fed into the solidity-style hash.
    pub open spec fn spec_u32_digits(&self) -> Seq<u32> {
        self.recipient.0@ + self.asset.amount.0@ + seq![self.asset.asset_id]
    }

    pub fn to_u32_digits(&self) -> (r: Vec<u32>)
        ensures
            r@ == self.spec_u32_digits(),
            r@.len() == 14,
    {
        let mut r: Vec<u32> = Vec::new();
        let rec = self.recipient.to_u32_digits();
        let mut k: usize = 0;
        while k < 5
            invariant
                k <= 5,
                rec@ == self.recipient.0@,
                r@ =~= self.recipient.0@.take(k as int),
            decreases 5 - k,
        {
            r.push(rec[k]);
            proof {
                assert(r@ =~= self.recipient.0@.take(k + 1));
            }
            k = k + 1;
        }
        let amt = self.asset.amount.to_u32_digits();
        let mut j: usize = 0;
        proof {
            assert(self.recipient.0@.take(5) =~= self.recipient.0@);
        }
        while j < 8
            invariant
                j <= 8,
                amt@ == self.asset.amount.0@,
                r@ =~= self.recipient.0@ + self.asset.amount.0@.take(j as int),
            decreases 8 - j,
        {
            r.push(amt[j]);
            proof {
                assert(r@ =~= self.recipient.0@ + self.asset.amount.0@.take(j + 1));
            }
            j = j + 1;
        }
        proof {
            assert(self.asset.amount.0@.take(8) =~= self.asset.amount.0@);
        }
        r.push(self.asset.asset_id);
        proof {
            assert(r@ =~= self.spec_u32_digits());
        }
        r
    }

    /// The solidity-style commitment of this transfer.
    pub fn keccak_hash(&self) -> (r: H256)
        ensures
            r.0@ == spec_be_bytes_of_digits(spec_h256_digits(spec_solidity_keccak(
                self.spec_u32_digits(),
            ))),
    {
        H256::from_u32_digits(solidity_keccak256(self.to_u32_digits()))
    }
}

/// The byte form a digit sequence writes back to.
pub open spec fn spec_be_bytes_of_digits(digits: Seq<u32>) -> Seq<u8> {
    crate::hashing::spec_be_bytes_of_u32s(digits)
}

impl Leafable for Transfer {
    open spec fn spec_hash(&self) -> Seq<u64> {
        spec_hash_fields(self.spec_field_vec())
    }

    open spec fn spec_empty() -> Self {
        Transfer {
            recipient: Address([0u32, 0u32, 0u32, 0u32, 0u32]),
            asset: Asset {
                asset_id: 0,
                amount: crate::u256::U256([0u32, 0u32, 0u32, 0u32, 0u32, 0u32, 0u32, 0u32]),
            },
        }
    }

    fn empty_leaf() -> (r: Self) {
        Transfer::zero()
    }

    fn hash(&self) -> (r: Digest) {
        hash_fields(&self.to_vec())
    }

    fn duplicate(&self) -> (r: Self) {
        *self
    }
}

/// The per-asset totals moved by a list of transfers.
pub open spec fn spec_total_amount(transfers: Seq<Transfer>, k: int) -> int
    decreases transfers.len(),
{
    if transfers.len() == 0 {
        0
    } else {
        spec_total_amount(transfers.drop_last(), k) + if transfers.last().asset.asset_id == k {
            transfers.last().asset.amount.as_nat() as int
        } else {
            0
        }
    }
}

/// Component-wise sum of all transferred amounts. The totals must fit in
/// 256 bits per asset kind; a prefix of a fitting batch always fits.
pub fn get_total_transfer_amount(transfers: &[Transfer]) -> (r: Assets)
    requires
        forall|k: int| 0 <= k < 4 ==> spec_total_amount(transfers@, k) < pow2(256),
        forall|i: int| 0 <= i < transfers@.len() ==> transfers@[i].asset.asset_id < 4,
    ensures
        forall|k: int| 0 <= k < 4 ==> r.as_nats()[k] == spec_total_amount(transfers@, k),
{
    let mut acc = Assets::zero();
    let mut i: usize = 0;
    proof {
        assert(transfers@.take(0) =~= Seq::<Transfer>::empty());
        assert forall|k: int| 0 <= k < 4 implies acc.as_nats()[k] == spec_total_amount(
            transfers@.take(0),
            k,
        ) by {
            assert(acc.as_nats()[k] == 0);
        }
    }
    while i < transfers.len()
        invariant
            i <= transfers@.len(),
            forall|k: int| 0 <= k < 4 ==> spec_total_amount(transfers@, k) < pow2(256),
            forall|j: int| 0 <= j < transfers@.len() ==> transfers@[j].asset.asset_id < 4,
            forall|k: int|
                0 <= k < 4 ==> acc.as_nats()[k] == spec_total_amount(transfers@.take(i as int), k),
        decreases transfers@.len() - i,
    {
        let t = &transfers[i];
        let add = Assets::from_asset(&t.asset);
        proof {
            lemma_total_amount_step(transfers@, i as int);
            lemma_total_amount_prefix_bound(transfers@, i + 1);
            assert forall|k: int| 0 <= k < 4 implies acc.as_nats()[k] + add.as_nats()[k] < pow2(
                256,
            ) by {
                assert(add.as_nats()[k] == if t.asset.asset_id == k {
                    t.asset.amount.as_nat() as int
                } else {
                    0
                });
                assert(acc.as_nats()[k] + add.as_nats()[k] == spec_total_amount(
                    transfers@.take(i + 1),
                    k,
                ));
                assert(spec_total_amount(transfers@.take(i + 1), k) <= spec_total_amount(
                    transfers@,
                    k,
                ));
            }
        }
        let new_acc = acc.add(&add);
        proof {
            assert forall|k: int| 0 <= k < 4 implies new_acc.as_nats()[k] == spec_total_amount(
                transfers@.take(i + 1),
                k,
            ) by {
                assert(new_acc.as_nats()[k] == acc.as_nats()[k] + add.as_nats()[k]);
            }
        }
        acc = new_acc;
        i = i + 1;
    }
    proof {
        assert(transfers@.take(transfers@.len() as int) =~= transfers@);
    }
    acc
}

/// Total the moved amounts, or `None` where a per-asset total does not
/// fit in 256 bits.
pub fn get_total_transfer_amount_checked(transfers: &[Transfer]) -> (r: Option<Assets>)
    requires
        forall|i: int| 0 <= i < transfers@.len() ==> transfers@[i].asset.asset_id < 4,
    ensures
        r is Some <==> (forall|k: int| 0 <= k < 4 ==> spec_total_amount(transfers@, k) < pow2(
            256,
        )),
        r is Some ==> forall|k: int|
            0 <= k < 4 ==> r->0.as_nats()[k] == spec_total_amount(transfers@, k),
{
    let mut acc = Assets::zero();
    let mut i: usize = 0;
    proof {
        assert(transfers@.take(0) =~= Seq::<Transfer>::empty());
        assert forall|k: int| 0 <= k < 4 implies acc.as_nats()[k] == spec_total_amount(
            transfers@.take(0),
            k,
        ) by {
            assert(acc.as_nats()[k] == 0);
        }
    }
    while i < transfers.len()
        invariant
            i <= transfers@.len(),
            forall|j: int| 0 <= j < transfers@.len() ==> transfers@[j].asset.asset_id < 4,
            forall|k: int|
                0 <= k < 4 ==> acc.as_nats()[k] == spec_total_amount(transfers@.take(i as int), k),
        decreases transfers@.len() - i,
    {
        let t = &transfers[i];
        let add = Assets::from_asset(&t.asset);
        proof {
            lemma_total_amount_step(transfers@, i as int);
        }
        match acc.checked_add(&add) {
            Some(new_acc) => {
                proof {
                    assert forall|k: int| 0 <= k < 4 implies new_acc.as_nats()[k]
                        == spec_total_amount(transfers@.take(i + 1), k) by {
                        assert(new_acc.as_nats()[k] == acc.as_nats()[k] + add.as_nats()[k]);
                        assert(add.as_nats()[k] == if t.asset.asset_id == k {
                            t.asset.amount.as_nat() as int
                        } else {
                            0
                        });
                    }
                }
                acc = new_acc;
            },
            None => {
                proof {
                    let k = choose|k: int|
                        0 <= k < 4 && acc.as_nats()[k] + add.as_nats()[k] >= pow2(256);
                    assert(add.as_nats()[k] == if t.asset.asset_id == k {
                        t.asset.amount.as_nat() as int
                    } else {
                        0
                    });
                    assert(spec_total_amount(transfers@.take(i + 1), k) >= pow2(256));
                    lemma_total_amount_prefix_monotone(transfers@, i + 1);
                    assert(spec_total_amount(transfers@, k) >= pow2(256));
                }
                return None;
            },
        }
        i = i + 1;
    }
    proof {
        assert(transfers@.take(transfers@.len() as int) =~= transfers@);
        assert forall|k: int| 0 <= k < 4 implies spec_total_amount(transfers@, k) < pow2(256) by {
            crate::u256::lemma_be_nat_bound(acc.0@[k].0@);
            assert(acc.as_nats()[k] == acc.0@[k].as_nat());
        }
    }
    Some(acc)
}

/// A prefix's totals never exceed the batch's totals.
proof fn lemma_total_amount_prefix_monotone(transfers: Seq<Transfer>, i: int)
    requires
        0 <= i <= transfers.len(),
    ensures
        forall|k: int|
            #![trigger spec_total_amount(transfers.take(i), k)]
            spec_total_amount(transfers.take(i), k) <= spec_total_amount(transfers, k),
{
    lemma_total_amount_prefix_bound(transfers, i);
}

/// Build the transfer tree of one block and total the moved amounts. The
/// root equals the padded full-tree root over the given transfers.
pub fn calc_transfer_tree(transfers: &[Transfer]) -> (r: (Digest, Assets))
    requires
        transfers@.len() <= pow2(TRANSFER_TREE_HEIGHT as nat),
        forall|k: int| 0 <= k < 4 ==> spec_total_amount(transfers@, k) < pow2(256),
        forall|i: int| 0 <= i < transfers@.len() ==> transfers@[i].asset.asset_id < 4,
    ensures
        r.0.0@ == crate::merkle_tree_with_leaves::padded_root(
            transfers@,
            TRANSFER_TREE_HEIGHT as int,
        ),
        forall|k: int| 0 <= k < 4 ==> r.1.as_nats()[k] == spec_total_amount(transfers@, k),
{
    let mut tree = MerkleTreeWithLeaves::<Transfer>::new(TRANSFER_TREE_HEIGHT);
    let mut i: usize = 0;
    proof {
        assert(transfers@.take(0) =~= Seq::<Transfer>::empty());
    }
    while i < transfers.len()
        invariant
            i <= transfers@.len(),
            transfers@.len() <= pow2(TRANSFER_TREE_HEIGHT as nat),
            tree.wf(),
            tree.spec_height() == TRANSFER_TREE_HEIGHT as int,
            tree.leaves_view() =~= transfers@.take(i as int),
        decreases transfers@.len() - i,
    {
        let t = transfers[i].duplicate();
        tree.push(t);
        proof {
            assert(tree.leaves_view() =~= transfers@.take(i + 1));
        }
        i = i + 1;
    }
    proof {
        assert(transfers@.take(transfers@.len() as int) =~= transfers@);
        tree.lemma_root_of_leaves();
    }
    let root = tree.get_root();
    let total = get_total_transfer_amount(transfers);
    (root, total)
}

/// Extending a batch by one transfer adds that transfer's amount to its
/// asset's total.
pub proof fn lemma_total_amount_step(transfers: Seq<Transfer>, i: int)
    requires
        0 <= i < transfers.len(),
    ensures
        forall|k: int|
            #![trigger spec_total_amount(transfers.take(i + 1), k)]
            spec_total_amount(transfers.take(i + 1), k) == spec_total_amount(transfers.take(i), k)
                + if transfers[i].asset.asset_id == k {
                transfers[i].asset.amount.as_nat() as int
            } else {
                0
            },
{
    assert forall|k: int|
        spec_total_amount(transfers.take(i + 1), k) == spec_total_amount(transfers.take(i), k)
        + if transfers[i].asset.asset_id == k {
        transfers[i].asset.amount.as_nat() as int
    } else {
        0
    } by {
        assert(transfers.take(i + 1).drop_last() =~= transfers.take(i));
        assert(transfers.take(i + 1).last() == transfers[i]);
    }
}

/// A prefix's total never exceeds the whole batch's total.
pub proof fn lemma_total_amount_prefix_bound(transfers: Seq<Transfer>, i: int)
    requires
        0 <= i <= transfers.len(),
    ensures
        forall|k: int|
            #![trigger spec_total_amount(transfers.take(i), k)]
            spec_total_amount(transfers.take(i), k) <= spec_total_amount(transfers, k)
                && spec_total_amount(transfers.take(i), k) >= 0,
    decreases transfers.len() - i,
{
    if i == transfers.len() {
        assert(transfers.take(i) =~= transfers);
        lemma_total_amount_nonneg(transfers);
        assert forall|k: int|
            spec_total_amount(transfers.take(i), k) <= spec_total_amount(transfers, k)
            && spec_total_amount(transfers.take(i), k) >= 0 by {
            assert(spec_total_amount(transfers, k) >= 0);
        }
    } else {
        lemma_total_amount_prefix_bound(transfers, i + 1);
        lemma_total_amount_step(transfers, i);
        assert forall|k: int|
            spec_total_amount(transfers.take(i), k) <= spec_total_amount(transfers, k)
            && spec_total_amount(transfers.take(i), k) >= 0 by {
            assert(spec_total_amount(transfers.take(i + 1), k) <= spec_total_amount(transfers, k)
                && spec_total_amount(transfers.take(i + 1), k) >= 0);
            assert(spec_total_amount(transfers.take(i + 1), k) == spec_total_amount(
                transfers.take(i),
                k,
            ) + if transfers[i].asset.asset_id == k {
                transfers[i].asset.amount.as_nat() as int
            } else {
                0
            });
            lemma_total_amount_nonneg(transfers.take(i));
            assert(spec_total_amount(transfers.take(i), k) >= 0);
        }
    }
}

/// Totals are sums of amounts, hence nonnegative.
pub proof fn lemma_total_amount_nonneg(transfers: Seq<Transfer>)
    ensures
        forall|k: int| #![trigger spec_total_amount(transfers, k)] spec_total_amount(transfers, k) >= 0,
    decreases transfers.len(),
{
    if transfers.len() > 0 {
        lemma_total_amount_nonneg(transfers.drop_last());
        assert forall|k: int| spec_total_amount(transfers, k) >= 0 by {
            assert(spec_total_amount(transfers.drop_last(), k) >= 0);
        }
    }
}


/// Removing one transfer takes exactly its contribution out of the total.
pub proof fn lemma_total_amount_remove(transfers: Seq<Transfer>, j: int, k: int)
    requires
        0 <= j < transfers.len(),
    ensures
        spec_total_amount(transfers, k) == spec_total_amount(transfers.remove(j), k)
            + if transfers[j].asset.asset_id == k {
            transfers[j].asset.amount.as_nat() as int
        } else {
            0
        },
    decreases transfers.len(),
{
    if j == transfers.len() - 1 {
        assert(transfers.remove(j) =~= transfers.drop_last());
    } else {
        assert(transfers.remove(j).drop_last() =~= transfers.drop_last().remove(j));
        assert(transfers.remove(j).last() == transfers.last());
        lemma_total_amount_remove(transfers.drop_last(), j, k);
    }
}

/// Totals only depend on which transfers a batch holds, not on their
/// order.
pub proof fn lemma_total_amount_permutation(s1: Seq<Transfer>, s2: Seq<Transfer>, k: int)
    requires
        s1.to_multiset() == s2.to_multiset(),
    ensures
        spec_total_amount(s1, k) == spec_total_amount(s2, k),
    decreases s1.len(),
{
    broadcast use vstd::seq_lib::group_to_multiset_ensures;

    if s1.len() == 0 {
        assert(s2.to_multiset().len() == 0);
        assert(s2.len() == 0);
    } else {
        let x = s1.last();
        let s1p = s1.drop_last();
        assert(s1 =~= s1p.push(x));
        assert(s1.to_multiset() == s1p.to_multiset().insert(x));
        assert(s1.contains(x));
        assert(s2.to_multiset().count(x) > 0);
        assert(s2.contains(x));
        let j = choose|j: int| 0 <= j < s2.len() && s2[j] == x;
        let s2p = s2.remove(j);
        assert(s2p.to_multiset() == s2.to_multiset().remove(x));
        assert(s1p.to_multiset() =~= s2p.to_multiset()) by {
            assert forall|y: Transfer| s1p.to_multiset().count(y) == s2p.to_multiset().count(
                y,
            ) by {
                broadcast use vstd::multiset::group_multiset_axioms;
            }
        }
        lemma_total_amount_permutation(s1p, s2p, k);
        lemma_total_amount_remove(s2, j, k);
    }
}

} // verus!
