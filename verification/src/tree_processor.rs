//! Streaming binary-tree aggregation over solidity-style hashes.
//!
//! Leaves arrive one at a time; whenever a level's count becomes even its
//! last two nodes are compressed into a parent. `finalize` pads odd
//! levels by duplicating the first leaf's hash and rolls everything up to
//! one root, handing out an independently checkable audit proof per leaf.

use vstd::prelude::*;

use crate::error::ZkpError;
use crate::h256::{H256, spec_h256_digits, solidity_keccak256};
use crate::hashing::{keccak256_of, spec_be_bytes_of_u32s, lemma_be_bytes_of_u32s_concat};

verus! {

/// Leaves of the dynamic aggregation tree: anything that commits to a
/// 32-byte hash.
pub trait DynamicLeafable: Sized {
    /// The leaf's commitment at the specification level.
    spec fn spec_dyn_hash(&self) -> Seq<u8>;

    /// The leaf's commitment.
    fn hash(&self) -> (r: H256)
        ensures
            r.0@ == self.spec_dyn_hash(),
    ;

    /// An owned copy of the value.
    fn duplicate(&self) -> (r: Self)
        ensures
            r == *self,
    ;
}

/// The two-to-one compression of the aggregation tree: the hash of the
/// concatenated child hashes.
pub open spec fn keccak_pair(left: Seq<u8>, right: Seq<u8>) -> Seq<u8> {
    keccak256_of(left + right)
}

/// Compress two child hashes into their parent.
pub fn two_to_one_h256(left: &H256, right: &H256) -> (r: H256)
    ensures
        r.0@ == keccak_pair(left.0@, right.0@),
{
    let ld = left.to_u32_digits();
    let rd = right.to_u32_digits();
    let mut input: Vec<u32> = Vec::new();
    let mut k: usize = 0;
    while k < 8
        invariant
            k <= 8,
            ld@ == spec_h256_digits(left.0@),
            input@ =~= ld@.take(k as int),
        decreases 8 - k,
    {
        input.push(ld[k]);
        proof {
            assert(input@ =~= ld@.take(k + 1));
        }
        k = k + 1;
    }
    proof {
        assert(ld@.take(8) =~= ld@);
    }
    let mut k2: usize = 0;
    while k2 < 8
        invariant
            k2 <= 8,
            ld@ == spec_h256_digits(left.0@),
            rd@ == spec_h256_digits(right.0@),
            input@ =~= ld@ + rd@.take(k2 as int),
        decreases 8 - k2,
    {
        input.push(rd[k2]);
        proof {
            assert(input@ =~= ld@ + rd@.take(k2 + 1));
        }
        k2 = k2 + 1;
    }
    proof {
        assert(rd@.take(8) =~= rd@);
        assert(input@ =~= ld@ + rd@);
        lemma_be_bytes_of_u32s_concat(ld@, rd@);
    }
    let out = solidity_keccak256(input);
    H256::from_u32_digits(out)
}

/// The hash values of one level.
pub open spec fn level_view(level: Seq<H256>) -> Seq<Seq<u8>> {
    Seq::new(level.len(), |i: int| level[i].0@)
}

/// One pairing pass over an even-sized level.
pub open spec fn pair_up(level: Seq<Seq<u8>>) -> Seq<Seq<u8>> {
    Seq::new(level.len() / 2, |i: int| keccak_pair(level[2 * i], level[2 * i + 1]))
}

/// The root reached from a level by padding odd counts with `pad` and
/// pairing until one node is left.
pub open spec fn roll_up(level: Seq<Seq<u8>>, pad: Seq<u8>) -> Seq<u8>
    decreases level.len(),
    when level.len() >= 1
{
    if level.len() == 1 {
        level[0]
    } else if level.len() % 2 == 1 {
        roll_up(pair_up(level.push(pad)), pad)
    } else {
        roll_up(pair_up(level), pad)
    }
}

/// Streaming binary-tree builder. `nodes[0]` holds the leaf hashes in
/// arrival order; `nodes[l + 1]` holds the compressions of the completed
/// pairs of `nodes[l]`.
pub struct TreeProcessor<Leaf: DynamicLeafable> {
    pub nodes: Vec<Vec<H256>>,
    pub leaves: Vec<Leaf>,
}

impl<Leaf: DynamicLeafable> TreeProcessor<Leaf> {
    /// The hashes of the leaves added so far.
    pub open spec fn leaf_hashes(&self) -> Seq<Seq<u8>> {
        Seq::new(self.leaves@.len(), |i: int| self.leaves@[i].spec_dyn_hash())
    }

    /// Structural well-formedness of the level pyramid.
    pub open spec fn wf_levels(nodes: Seq<Vec<H256>>) -> bool {
        &&& forall|l: int|
            0 <= l < nodes.len() - 1 ==> #[trigger] nodes[l + 1]@.len() == nodes[l]@.len() / 2
        &&& forall|l: int| 0 <= l < nodes.len() ==> #[trigger] nodes[l]@.len() >= 1
        &&& forall|l: int, i: int|
            0 <= l < nodes.len() - 1 && 0 <= i < nodes[l + 1]@.len()
                ==> #[trigger] nodes[l + 1]@[i].0@ == keccak_pair(
                nodes[l]@[2 * i].0@,
                nodes[l]@[2 * i + 1].0@,
            )
        &&& nodes.len() >= 1 ==> nodes[nodes.len() - 1]@.len() >= 1
    }

    pub open spec fn wf(&self) -> bool {
        &&& Self::wf_levels(self.nodes@)
        &&& self.nodes@.len() == 0 <==> self.leaves@.len() == 0
        &&& self.nodes@.len() >= 1 ==> level_view(self.nodes@[0]@) == self.leaf_hashes()
    }

    pub fn new() -> (r: Self)
        ensures
            r.wf(),
            r.leaves@.len() == 0,
    {
        let r = TreeProcessor { nodes: Vec::new(), leaves: Vec::new() };
        proof {
            assert(r.leaf_hashes() =~= Seq::<Seq<u8>>::empty());
        }
        r
    }

    /// Drop all state, keeping the processor usable.
    pub fn initialize(&mut self)
        ensures
            final(self).wf(),
            final(self).leaves@.len() == 0,
    {
        self.nodes = Vec::new();
        self.leaves = Vec::new();
        proof {
            assert(self.leaf_hashes() =~= Seq::<Seq<u8>>::empty());
        }
    }

    /// An owned copy of the leaves added so far.
    pub fn get(&self) -> (r: Vec<Leaf>)
        ensures
            r@ == self.leaves@,
    {
        let mut out: Vec<Leaf> = Vec::new();
        let mut i: usize = 0;
        while i < self.leaves.len()
            invariant
                i <= self.leaves@.len(),
                out@ =~= self.leaves@.take(i as int),
            decreases self.leaves@.len() - i,
        {
            out.push(self.leaves[i].duplicate());
            proof {
                assert(out@ =~= self.leaves@.take(i + 1));
            }
            i = i + 1;
        }
        proof {
            assert(self.leaves@.take(self.leaves@.len() as int) =~= self.leaves@);
        }
        out
    }

    pub fn len(&self) -> (r: usize)
        ensures
            r == self.leaves@.len(),
    {
        self.leaves.len()
    }

    /// Rebuild the level pyramid that a bottom level determines: each
    /// level holds the compressions of the completed pairs below it, and
    /// an unpaired last node waits at its own level.
    fn build_levels(level0: Vec<H256>) -> (r: Vec<Vec<H256>>)
        requires
            level0@.len() >= 1,
        ensures
            Self::wf_levels(r@),
            r@.len() >= 1,
            r@[0]@ == level0@,
            r@[r@.len() - 1]@.len() <= 1 || r@.len() >= 1 && r@[r@.len() - 1]@.len() / 2 == 0,
    {
        let mut nodes: Vec<Vec<H256>> = Vec::new();
        nodes.push(level0);
        while nodes[nodes.len() - 1].len() >= 2
            invariant
                nodes@.len() >= 1,
                nodes@[0]@ == level0@,
                Self::wf_levels(nodes@),
            decreases nodes@[nodes@.len() - 1]@.len(),
        {
            let ghost old_nodes = nodes@;
            let top = nodes.len() - 1;
            let len_top = nodes[top].len();
            let count = len_top / 2;
            let mut parent: Vec<H256> = Vec::new();
            let mut i: usize = 0;
            let mut pair_at: usize = 0;
            while i < count
                invariant
                    top == nodes@.len() - 1,
                    nodes@ == old_nodes,
                    len_top == nodes@[top as int]@.len(),
                    count == len_top / 2,
                    i <= count,
                    pair_at == 2 * i,
                    parent@.len() == i,
                    forall|j: int|
                        0 <= j < i ==> #[trigger] parent@[j].0@ == keccak_pair(
                            nodes@[top as int]@[2 * j].0@,
                            nodes@[top as int]@[2 * j + 1].0@,
                        ),
                decreases count - i,
            {
                proof {
                    assert(pair_at + 1 < len_top);
                }
                let h = two_to_one_h256(&nodes[top][pair_at], &nodes[top][pair_at + 1]);
                parent.push(h);
                i = i + 1;
                pair_at = pair_at + 2;
            }
            nodes.push(parent);
            proof {
                assert(nodes@[nodes@.len() - 1]@.len() == nodes@[nodes@.len() - 2]@.len() / 2);
                assert forall|l: int| 0 <= l < nodes@.len() - 1 implies #[trigger] nodes@[l
                    + 1]@.len() == nodes@[l]@.len() / 2 by {
                    if l < old_nodes.len() - 1 {
                        assert(nodes@[l + 1]@ == old_nodes[l + 1]@);
                    }
                }
                assert forall|l: int, i2: int|
                    0 <= l < nodes@.len() - 1 && 0 <= i2 < nodes@[l + 1]@.len() implies #[trigger] nodes@[l
                    + 1]@[i2].0@ == keccak_pair(
                    nodes@[l]@[2 * i2].0@,
                    nodes@[l]@[2 * i2 + 1].0@,
                ) by {
                    if l < old_nodes.len() - 1 {
                        assert(nodes@[l + 1]@ == old_nodes[l + 1]@);
                    }
                }
            }
        }
        nodes
    }

    /// Add one leaf. Returns how many level pairs the new leaf completed
    /// (the number of times two divides the new leaf count): the driver
    /// combines its own per-level artifacts bottom-up that many times.
    pub fn add(&mut self, leaf: Leaf) -> (r: usize)
        requires
            old(self).wf(),
        ensures
            final(self).wf(),
            final(self).leaves@ == old(self).leaves@.push(leaf),
            (final(self).leaves@.len() as int) % (vstd::arithmetic::power2::pow2(
                r as nat,
            ) as int) == 0,
            ((final(self).leaves@.len() as int) / (vstd::arithmetic::power2::pow2(
                r as nat,
            ) as int)) % 2 == 1,
    {
        let h = leaf.hash();
        let mut level0: Vec<H256> = if self.nodes.len() == 0 {
            Vec::new()
        } else {
            let mut out: Vec<H256> = Vec::new();
            let mut i: usize = 0;
            while i < self.nodes[0].len()
                invariant
                    self.nodes@.len() >= 1,
                    i <= self.nodes@[0]@.len(),
                    out@ =~= self.nodes@[0]@.take(i as int),
                decreases self.nodes@[0]@.len() - i,
            {
                out.push(self.nodes[0][i]);
                proof {
                    assert(out@ =~= self.nodes@[0]@.take(i + 1));
                }
                i = i + 1;
            }
            proof {
                assert(self.nodes@[0]@.take(self.nodes@[0]@.len() as int) =~= self.nodes@[0]@);
            }
            out
        };
        proof {
            if old(self).nodes@.len() == 0 {
                assert(old(self).leaves@.len() == 0);
            } else {
                assert(level_view(old(self).nodes@[0]@).len() == old(self).leaf_hashes().len());
            }
            assert(level0@.len() == old(self).leaves@.len());
        }
        level0.push(h);
        let ghost new_level0 = level0@;
        let nodes = Self::build_levels(level0);
        self.nodes = nodes;
        self.leaves.push(leaf);
        proof {
            assert(self.nodes@[0]@ == new_level0);
            assert(new_level0.len() == old(self).leaves@.len() + 1);
            assert forall|i: int| 0 <= i < self.leaves@.len() implies level_view(self.nodes@[0]@)[i]
                == self.leaf_hashes()[i] by {
                if i < old(self).leaves@.len() {
                    assert(old(self).nodes@.len() >= 1);
                    assert(level_view(old(self).nodes@[0]@) == old(self).leaf_hashes());
                    assert(level_view(old(self).nodes@[0]@)[i] == old(self).leaf_hashes()[i]);
                    assert(new_level0[i] == old(self).nodes@[0]@[i]);
                    assert(self.leaf_hashes()[i] == old(self).leaf_hashes()[i]);
                } else {
                    assert(i == old(self).leaves@.len());
                    assert(new_level0[i] == h);
                    assert(h.0@ == leaf.spec_dyn_hash());
                    assert(self.leaf_hashes()[i] == leaf.spec_dyn_hash());
                }
            }
            assert(level_view(self.nodes@[0]@) =~= self.leaf_hashes());
        }
        // how many pairs the new leaf completed: the number of times two
        // divides the new leaf count
        let mut m: usize = 0;
        let mut c: usize = self.leaves.len();
        proof {
            assert(vstd::arithmetic::power2::pow2(0) == 1) by {
                vstd::arithmetic::power2::lemma2_to64();
            }
            assert(self.leaves@.len() < 0x1_0000_0000_0000_0000);
        }
        while c % 2 == 0 && c > 0
            invariant
                vstd::arithmetic::power2::pow2(m as nat) * c == self.leaves@.len(),
                self.leaves@.len() < 0x1_0000_0000_0000_0000,
                c >= 0,
                m <= 64,
            decreases c,
        {
            proof {
                if m >= 64 {
                    assert(vstd::arithmetic::power2::pow2(64) == 0x1_0000_0000_0000_0000) by {
                        vstd::arithmetic::power2::lemma2_to64_rest();
                    }
                    if m > 64 {
                        vstd::arithmetic::power2::lemma_pow2_strictly_increases(64, m as nat);
                    }
                    assert(vstd::arithmetic::power2::pow2(m as nat) * c
                        >= 0x1_0000_0000_0000_0000) by (nonlinear_arith)
                        requires
                            vstd::arithmetic::power2::pow2(m as nat) >= 0x1_0000_0000_0000_0000,
                            c >= 1,
                    ;
                    assert(false);
                }
                vstd::arithmetic::power2::lemma_pow2_adds(m as nat, 1);
                assert(vstd::arithmetic::power2::pow2(1) == 2) by {
                    vstd::arithmetic::power2::lemma2_to64();
                }
                assert(vstd::arithmetic::power2::pow2((m + 1) as nat) * (c / 2) as int
                    == vstd::arithmetic::power2::pow2(m as nat) * c) by (nonlinear_arith)
                    requires
                        c % 2 == 0,
                        c > 0,
                        vstd::arithmetic::power2::pow2((m + 1) as nat)
                            == vstd::arithmetic::power2::pow2(m as nat) * 2,
                ;
            }
            c = c / 2;
            m = m + 1;
        }
        proof {
            assert(c >= 1);
            assert(c % 2 == 1);
            vstd::arithmetic::power2::lemma_pow2_pos(m as nat);
            assert(self.leaves@.len() as int == (c as int) * (vstd::arithmetic::power2::pow2(
                m as nat,
            ) as int) + 0) by (nonlinear_arith)
                requires
                    vstd::arithmetic::power2::pow2(m as nat) * c == self.leaves@.len(),
            ;
            vstd::arithmetic::div_mod::lemma_fundamental_div_mod_converse(
                self.leaves@.len() as int,
                vstd::arithmetic::power2::pow2(m as nat) as int,
                c as int,
                0,
            );
        }
        m
    }
}


/// Recompute a root from a leaf commitment, a sibling list (bottom to
/// top) and a position index, using only the 256-bit hash.
pub open spec fn dyn_fold(h: Seq<u8>, siblings: Seq<Seq<u8>>, pos: int) -> Seq<u8>
    decreases siblings.len(),
{
    if siblings.len() == 0 {
        h
    } else {
        let combined = if pos % 2 == 1 {
            keccak_pair(siblings[0], h)
        } else {
            keccak_pair(h, siblings[0])
        };
        dyn_fold(combined, siblings.drop_first(), pos / 2)
    }
}

/// Appending one sibling combines it with the folded value so far, on the
/// side picked by the bit of the index at that level.
pub proof fn lemma_dyn_fold_push(h: Seq<u8>, s: Seq<Seq<u8>>, x: Seq<u8>, i: int)
    requires
        i >= 0,
    ensures
        dyn_fold(h, s.push(x), i) == if (i / (vstd::arithmetic::power2::pow2(
            s.len(),
        ) as int)) % 2 == 1 {
            keccak_pair(x, dyn_fold(h, s, i))
        } else {
            keccak_pair(dyn_fold(h, s, i), x)
        },
    decreases s.len(),
{
    reveal_with_fuel(dyn_fold, 3);
    vstd::arithmetic::power2::lemma_pow2_pos(s.len());
    if s.len() == 0 {
        assert(vstd::arithmetic::power2::pow2(0) == 1) by {
            vstd::arithmetic::power2::lemma2_to64();
        }
        vstd::arithmetic::div_mod::lemma_div_basics(i);
        assert(s.push(x)[0] == x);
        assert(s.push(x).drop_first() =~= Seq::<Seq<u8>>::empty());
    } else {
        assert(s.push(x)[0] == s[0]);
        assert(s.push(x).drop_first() =~= s.drop_first().push(x));
        let c = if i % 2 == 1 {
            keccak_pair(s[0], h)
        } else {
            keccak_pair(h, s[0])
        };
        assert(i / 2 >= 0) by {
            vstd::arithmetic::div_mod::lemma_div_pos_is_pos(i, 2);
        }
        lemma_dyn_fold_push(c, s.drop_first(), x, i / 2);
        vstd::arithmetic::power2::lemma_pow2_adds((s.len() - 1) as nat, 1);
        vstd::arithmetic::power2::lemma2_to64();
        assert(vstd::arithmetic::power2::pow2(s.len()) == vstd::arithmetic::power2::pow2(
            (s.len() - 1) as nat,
        ) * 2);
        vstd::arithmetic::power2::lemma_pow2_pos((s.len() - 1) as nat);
        vstd::arithmetic::div_mod::lemma_div_denominator(
            i,
            2,
            vstd::arithmetic::power2::pow2((s.len() - 1) as nat) as int,
        );
        assert((i / 2) / (vstd::arithmetic::power2::pow2((s.len() - 1) as nat) as int) == i / (2 * (
        vstd::arithmetic::power2::pow2((s.len() - 1) as nat) as int)));
        assert(dyn_fold(h, s, i) == dyn_fold(c, s.drop_first(), i / 2));
        assert(dyn_fold(h, s.push(x), i) == dyn_fold(c, s.drop_first().push(x), i / 2));
    }
}

/// A batch-tree audit proof: the leaf, its position, and the sibling
/// hashes up to the root. It verifies with plain hashing alone.
pub struct DynamicMerkleProofWithLeaf<Leaf: DynamicLeafable> {
    pub index: usize,
    pub siblings: Vec<H256>,
    pub leaf: Leaf,
}

impl<Leaf: DynamicLeafable> DynamicMerkleProofWithLeaf<Leaf> {
    /// The sibling hash values, bottom to top.
    pub open spec fn views(&self) -> Seq<Seq<u8>> {
        level_view(self.siblings@)
    }

    /// Recompute the root from the leaf's commitment; `Ok` exactly when it
    /// meets `root`.
    pub fn verify(&self, root: H256) -> (r: Result<(), ZkpError>)
        ensures
            r is Ok <==> dyn_fold(self.leaf.spec_dyn_hash(), self.views(), self.index as int)
                == root.0@,
            r is Err ==> r->Err_0 == ZkpError::MerkleVerifyFailed,
    {
        let mut h: H256 = self.leaf.hash();
        let mut cur: usize = self.index;
        let mut k: usize = 0;
        proof {
            assert(self.views().skip(0) =~= self.views());
        }
        while k < self.siblings.len()
            invariant
                k <= self.views().len(),
                self.views().len() == self.siblings@.len(),
                dyn_fold(self.leaf.spec_dyn_hash(), self.views(), self.index as int) == dyn_fold(
                    h.0@,
                    self.views().skip(k as int),
                    cur as int,
                ),
            decreases self.siblings@.len() - k,
        {
            let ghost views_rest = self.views().skip(k as int);
            let sib = self.siblings[k];
            proof {
                assert(views_rest.len() > 0);
                assert(views_rest[0] == self.views()[k as int]);
                assert(views_rest.drop_first() =~= self.views().skip(k + 1));
            }
            h = if cur % 2 == 1 {
                two_to_one_h256(&sib, &h)
            } else {
                two_to_one_h256(&h, &sib)
            };
            cur = cur / 2;
            k = k + 1;
        }
        proof {
            assert(self.views().skip(self.views().len() as int) =~= Seq::<Seq<u8>>::empty());
        }
        if h == root {
            Ok(())
        } else {
            Err(ZkpError::MerkleVerifyFailed)
        }
    }
}

impl<Leaf: DynamicLeafable> TreeProcessor<Leaf> {
    /// Close the batch: pad every odd level with the first leaf's hash,
    /// roll up to a single root, and emit one audit proof per leaf. With
    /// no leaves there is nothing to produce.
    ///
    /// The root depends only on the leaf hashes: it equals the direct
    /// pairwise roll-up of the leaf list, however the tree was grown; and
    /// every returned audit proof verifies against it.
    pub fn finalize(&self) -> (r: Option<(H256, Vec<DynamicMerkleProofWithLeaf<Leaf>>)>)
        requires
            self.wf(),
        ensures
            r is Some <==> self.leaves@.len() > 0,
            r is Some ==> (r->0).0.0@ == roll_up(self.leaf_hashes(), self.leaf_hashes()[0]),
            r is Some ==> (r->0).1@.len() == self.leaves@.len(),
            r is Some ==> forall|i: int|
                0 <= i < (r->0).1@.len() ==> ((#[trigger] (r->0).1@[i]).index == i && (
                r->0).1@[i].leaf == self.leaves@[i] && dyn_fold(
                    self.leaves@[i].spec_dyn_hash(),
                    (r->0).1@[i].views(),
                    i,
                ) == (r->0).0.0@),
    {
        if self.leaves.len() == 0 {
            return None;
        }
        let ghost lh = self.leaf_hashes();
        let n = self.leaves.len();
        let dummy = self.nodes[0][0];
        proof {
            assert(level_view(self.nodes@[0]@)[0] == lh[0]);
            assert(dummy.0@ == lh[0]);
        }
        // rebuild the padded pyramid bottom-up
        let mut cur: Vec<H256> = Vec::new();
        let mut i: usize = 0;
        while i < self.nodes[0].len()
            invariant
                self.nodes@.len() >= 1,
                i <= self.nodes@[0]@.len(),
                cur@ =~= self.nodes@[0]@.take(i as int),
            decreases self.nodes@[0]@.len() - i,
        {
            cur.push(self.nodes[0][i]);
            proof {
                assert(cur@ =~= self.nodes@[0]@.take(i + 1));
            }
            i = i + 1;
        }
        proof {
            assert(self.nodes@[0]@.take(self.nodes@[0]@.len() as int) =~= self.nodes@[0]@);
            assert(level_view(cur@) == lh);
        }
        let mut levels: Vec<Vec<H256>> = Vec::new();
        while cur.len() >= 2
            invariant
                cur@.len() >= 1,
                roll_up(lh, lh[0]) == roll_up(level_view(cur@), lh[0]),
                dummy.0@ == lh[0],
                lh.len() == self.leaves@.len(),
                // stored levels are even-sized, with each pair compressed
                // into the level above (or into `cur` for the last one)
                forall|l: int| 0 <= l < levels@.len() ==> (#[trigger] levels@[l]@.len()) % 2 == 0,
                forall|l: int| 0 <= l < levels@.len() ==> (#[trigger] levels@[l]@.len()) >= 2,
                forall|l: int, j: int|
                    0 <= l < levels@.len() - 1 && 0 <= j < levels@[l]@.len() / 2
                        ==> #[trigger] levels@[l + 1]@[j].0@ == keccak_pair(
                        levels@[l]@[2 * j].0@,
                        levels@[l]@[2 * j + 1].0@,
                    ),
                forall|l: int|
                    0 <= l < levels@.len() - 1 ==> (#[trigger] levels@[l + 1]@.len())
                        >= levels@[l]@.len() / 2,
                levels@.len() >= 1 ==> cur@.len() >= levels@[levels@.len() - 1]@.len() / 2,
                levels@.len() >= 1 ==> forall|j: int|
                    0 <= j < levels@[levels@.len() - 1]@.len() / 2 ==> (#[trigger] cur@[j]).0@
                        == keccak_pair(
                        levels@[levels@.len() - 1]@[2 * j].0@,
                        levels@[levels@.len() - 1]@[2 * j + 1].0@,
                    ),
                // the leaf prefix of the bottom level is intact
                levels@.len() == 0 ==> level_view(cur@) == lh,
                levels@.len() >= 1 ==> levels@[0]@.len() >= lh.len(),
                levels@.len() >= 1 ==> forall|j: int|
                    0 <= j < lh.len() ==> (#[trigger] levels@[0]@[j]).0@ == lh[j],
            decreases cur@.len(),
        {
            let ghost pre_pad = cur@;
            if cur.len() % 2 == 1 {
                cur.push(dummy);
                proof {
                    assert(level_view(cur@) =~= level_view(pre_pad).push(lh[0]));
                    assert(roll_up(level_view(pre_pad), lh[0]) == roll_up(
                        pair_up(level_view(pre_pad).push(lh[0])),
                        lh[0],
                    ));
                }
            } else {
                proof {
                    assert(roll_up(level_view(pre_pad), lh[0]) == roll_up(
                        pair_up(level_view(pre_pad)),
                        lh[0],
                    ));
                }
            }
            let ghost padded = cur@;
            let len_cur = cur.len();
            let count = len_cur / 2;
            let mut parent: Vec<H256> = Vec::new();
            let mut j: usize = 0;
            let mut pair_at: usize = 0;
            while j < count
                invariant
                    cur@ == padded,
                    len_cur == cur@.len(),
                    count == len_cur / 2,
                    j <= count,
                    pair_at == 2 * j,
                    parent@.len() == j,
                    forall|t: int|
                        0 <= t < j ==> #[trigger] parent@[t].0@ == keccak_pair(
                            cur@[2 * t].0@,
                            cur@[2 * t + 1].0@,
                        ),
                decreases count - j,
            {
                proof {
                    assert(pair_at + 1 < len_cur);
                }
                let h = two_to_one_h256(&cur[pair_at], &cur[pair_at + 1]);
                parent.push(h);
                j = j + 1;
                pair_at = pair_at + 2;
            }
            proof {
                assert(level_view(parent@) =~= pair_up(level_view(padded)));
                assert(roll_up(level_view(padded), lh[0]) == roll_up(
                    pair_up(level_view(padded)),
                    lh[0],
                ));
            }
            let ghost old_levels = levels@;
            levels.push(cur);
            cur = parent;
            proof {
                assert(levels@[levels@.len() - 1]@ == padded);
                assert forall|l: int, j2: int|
                    0 <= l < levels@.len() - 1 && 0 <= j2 < levels@[l]@.len() / 2 implies #[trigger] levels@[l
                    + 1]@[j2].0@ == keccak_pair(
                    levels@[l]@[2 * j2].0@,
                    levels@[l]@[2 * j2 + 1].0@,
                ) by {
                    if l < old_levels.len() - 1 {
                        assert(levels@[l + 1]@ == old_levels[l + 1]@);
                    }
                }
            }
        }
        let root = cur[0];
        proof {
            assert(level_view(cur@)[0] == root.0@);
            assert(roll_up(level_view(cur@), lh[0]) == level_view(cur@)[0]);
        }
        // emit one audit proof per leaf
        let ghost top_root = root;
        let mut proofs: Vec<DynamicMerkleProofWithLeaf<Leaf>> = Vec::new();
        let mut idx: usize = 0;
        while idx < n
            invariant
                n == self.leaves@.len(),
                lh == self.leaf_hashes(),
                lh.len() == n,
                cur@.len() == 1,
                level_view(cur@)[0] == root.0@,
                forall|l: int| 0 <= l < levels@.len() ==> (#[trigger] levels@[l]@.len()) % 2 == 0,
                forall|l: int| 0 <= l < levels@.len() ==> (#[trigger] levels@[l]@.len()) >= 2,
                forall|l: int, j: int|
                    0 <= l < levels@.len() - 1 && 0 <= j < levels@[l]@.len() / 2
                        ==> #[trigger] levels@[l + 1]@[j].0@ == keccak_pair(
                        levels@[l]@[2 * j].0@,
                        levels@[l]@[2 * j + 1].0@,
                    ),
                forall|l: int|
                    0 <= l < levels@.len() - 1 ==> (#[trigger] levels@[l + 1]@.len())
                        >= levels@[l]@.len() / 2,
                levels@.len() >= 1 ==> cur@.len() >= levels@[levels@.len() - 1]@.len() / 2,
                levels@.len() >= 1 ==> forall|j: int|
                    0 <= j < levels@[levels@.len() - 1]@.len() / 2 ==> (#[trigger] cur@[j]).0@
                        == keccak_pair(
                        levels@[levels@.len() - 1]@[2 * j].0@,
                        levels@[levels@.len() - 1]@[2 * j + 1].0@,
                    ),
                levels@.len() == 0 ==> level_view(cur@) == lh,
                levels@.len() >= 1 ==> levels@[0]@.len() >= lh.len(),
                levels@.len() >= 1 ==> forall|j: int|
                    0 <= j < lh.len() ==> (#[trigger] levels@[0]@[j]).0@ == lh[j],
                idx <= n,
                proofs@.len() == idx,
                forall|i2: int|
                    0 <= i2 < idx ==> {
                        &&& (#[trigger] proofs@[i2]).index == i2
                        &&& proofs@[i2].leaf == self.leaves@[i2]
                        &&& dyn_fold(self.leaves@[i2].spec_dyn_hash(), proofs@[i2].views(), i2)
                            == root.0@
                    },
            decreases n - idx,
        {
            let p = self.generate_audit_proof(idx, &levels, &cur, Ghost(lh), Ghost(root));
            proofs.push(p);
            idx = idx + 1;
        }
        Some((root, proofs))
    }

    /// Collect the audit path of one leaf from the padded pyramid.
    fn generate_audit_proof(
        &self,
        index: usize,
        levels: &Vec<Vec<H256>>,
        top: &Vec<H256>,
        Ghost(lh): Ghost<Seq<Seq<u8>>>,
        Ghost(root): Ghost<H256>,
    ) -> (r: DynamicMerkleProofWithLeaf<Leaf>)
        requires
            lh == self.leaf_hashes(),
            (index as int) < lh.len(),
            lh.len() == self.leaves@.len(),
            top@.len() == 1,
            level_view(top@)[0] == root.0@,
            forall|l: int| 0 <= l < levels@.len() ==> (#[trigger] levels@[l]@.len()) % 2 == 0,
            forall|l: int| 0 <= l < levels@.len() ==> (#[trigger] levels@[l]@.len()) >= 2,
            forall|l: int, j: int|
                0 <= l < levels@.len() - 1 && 0 <= j < levels@[l]@.len() / 2 ==> #[trigger] levels@[l
                    + 1]@[j].0@ == keccak_pair(
                    levels@[l]@[2 * j].0@,
                    levels@[l]@[2 * j + 1].0@,
                ),
            forall|l: int|
                0 <= l < levels@.len() - 1 ==> (#[trigger] levels@[l + 1]@.len()) >= levels@[l]@.len()
                    / 2,
            levels@.len() >= 1 ==> top@.len() >= levels@[levels@.len() - 1]@.len() / 2,
            levels@.len() >= 1 ==> forall|j: int|
                0 <= j < levels@[levels@.len() - 1]@.len() / 2 ==> (#[trigger] top@[j]).0@
                    == keccak_pair(
                    levels@[levels@.len() - 1]@[2 * j].0@,
                    levels@[levels@.len() - 1]@[2 * j + 1].0@,
                ),
            levels@.len() == 0 ==> level_view(top@) == lh,
            levels@.len() >= 1 ==> levels@[0]@.len() >= lh.len(),
            levels@.len() >= 1 ==> forall|j: int|
                0 <= j < lh.len() ==> (#[trigger] levels@[0]@[j]).0@ == lh[j],
        ensures
            r.index == index,
            r.leaf == self.leaves@[index as int],
            dyn_fold(self.leaves@[index as int].spec_dyn_hash(), r.views(), index as int)
                == root.0@,
    {
        let mut siblings: Vec<H256> = Vec::new();
        let mut pos: usize = index;
        let mut l: usize = 0;
        let ghost leaf_hash = lh[index as int];
        proof {
            assert(level_view(siblings@) =~= Seq::<Seq<u8>>::empty());
            if levels@.len() == 0 {
                assert(level_view(top@)[index as int] == lh[index as int]);
                assert(top@[index as int].0@ == leaf_hash);
            } else {
                assert(levels@[0]@[index as int].0@ == leaf_hash);
            }
            assert(vstd::arithmetic::power2::pow2(0) == 1) by {
                vstd::arithmetic::power2::lemma2_to64();
            }
            vstd::arithmetic::div_mod::lemma_div_basics(index as int);
        }
        while l < levels.len()
            invariant
                forall|l2: int| 0 <= l2 < levels@.len() ==> (#[trigger] levels@[l2]@.len()) % 2 == 0,
                forall|l2: int| 0 <= l2 < levels@.len() ==> (#[trigger] levels@[l2]@.len()) >= 2,
                forall|l2: int, j: int|
                    0 <= l2 < levels@.len() - 1 && 0 <= j < levels@[l2]@.len() / 2
                        ==> #[trigger] levels@[l2 + 1]@[j].0@ == keccak_pair(
                        levels@[l2]@[2 * j].0@,
                        levels@[l2]@[2 * j + 1].0@,
                    ),
                forall|l2: int|
                    0 <= l2 < levels@.len() - 1 ==> (#[trigger] levels@[l2 + 1]@.len())
                        >= levels@[l2]@.len() / 2,
                levels@.len() >= 1 ==> top@.len() >= levels@[levels@.len() - 1]@.len() / 2,
                levels@.len() >= 1 ==> forall|j: int|
                    0 <= j < levels@[levels@.len() - 1]@.len() / 2 ==> (#[trigger] top@[j]).0@
                        == keccak_pair(
                        levels@[levels@.len() - 1]@[2 * j].0@,
                        levels@[levels@.len() - 1]@[2 * j + 1].0@,
                    ),
                l <= levels@.len(),
                siblings@.len() == l,
                l < levels@.len() ==> pos < levels@[l as int]@.len(),
                l == levels@.len() ==> pos < top@.len(),
                pos as int == index as int / (vstd::arithmetic::power2::pow2(l as nat) as int),
                dyn_fold(leaf_hash, level_view(siblings@), index as int) == if l
                    < levels@.len() {
                    levels@[l as int]@[pos as int].0@
                } else {
                    top@[pos as int].0@
                },
            decreases levels@.len() - l,
        {
            let ghost pre_views = level_view(siblings@);
            let ghost pos_prev = pos as int;
            let sib_pos: usize = if pos % 2 == 0 {
                pos + 1
            } else {
                pos - 1
            };
            proof {
                assert(levels@[l as int]@.len() % 2 == 0);
                if pos % 2 == 0 {
                    vstd::arithmetic::div_mod::lemma_fundamental_div_mod(pos as int, 2);
                    assert(sib_pos < levels@[l as int]@.len());
                }
            }
            let sib = levels[l][sib_pos];
            siblings.push(sib);
            proof {
                assert(level_view(siblings@) =~= pre_views.push(sib.0@));
                lemma_dyn_fold_push(leaf_hash, pre_views, sib.0@, index as int);
                assert(pre_views.len() == l);
                vstd::arithmetic::div_mod::lemma_fundamental_div_mod(pos_prev, 2);
            }
            pos = pos / 2;
            l = l + 1;
            proof {
                let lv = levels@[l - 1]@;
                if pos_prev % 2 == 1 {
                    assert(2 * (pos as int) == sib_pos as int);
                    assert(2 * (pos as int) + 1 == pos_prev);
                } else {
                    assert(2 * (pos as int) == pos_prev);
                    assert(2 * (pos as int) + 1 == sib_pos as int);
                }
                assert((pos as int) < lv.len() / 2);
                assert(dyn_fold(leaf_hash, level_view(siblings@), index as int) == keccak_pair(
                    lv[2 * (pos as int)].0@,
                    lv[2 * (pos as int) + 1].0@,
                ));
                // position stays on the path
                vstd::arithmetic::power2::lemma_pow2_adds((l - 1) as nat, 1);
                vstd::arithmetic::power2::lemma2_to64();
                vstd::arithmetic::power2::lemma_pow2_pos((l - 1) as nat);
                vstd::arithmetic::div_mod::lemma_div_denominator(
                    index as int,
                    vstd::arithmetic::power2::pow2((l - 1) as nat) as int,
                    2,
                );
                assert(pos as int == index as int / (vstd::arithmetic::power2::pow2(
                    l as nat,
                ) as int));
            }
        }
        proof {
            assert(pos == 0);
            assert(dyn_fold(leaf_hash, level_view(siblings@), index as int) == root.0@);
        }
        let leaf = self.leaves[index].duplicate();
        DynamicMerkleProofWithLeaf { index, siblings, leaf }
    }
}

} // verus!
