//! Append-only indexed Merkle tree that keeps its leaves.
//!
//! The root after `n` pushes equals the root of a full tree whose first
//! `n` positions hold the pushed leaves and whose remaining positions hold
//! the type's designated empty leaf.

use vstd::prelude::*;
use vstd::arithmetic::power2::pow2;

use crate::digest::Digest;
use crate::error::ZkpError;
use crate::merkle_tree::{MerkleTree, MerkleProof, merkle_fold, subtree_hash};

verus! {

/// Values that can be Merkle tree leaves: they hash to a digest and have a
/// designated empty value.
pub trait Leafable: Sized {
    /// The leaf's hash at the specification level.
    spec fn spec_hash(&self) -> Seq<u64>;

    /// The designated empty leaf.
    spec fn spec_empty() -> Self;

    /// Default value which indicates an empty position.
    fn empty_leaf() -> (r: Self)
        ensures
            r == Self::spec_empty(),
    ;

    /// Hash of the value.
    fn hash(&self) -> (r: Digest)
        ensures
            r.0@ == self.spec_hash(),
    ;

    /// An owned copy of the value.
    fn duplicate(&self) -> (r: Self)
        ensures
            r == *self,
    ;
}

/// The leaf hash at `i` once `leaves` occupy the first positions.
pub open spec fn padded_leaf_hash<V: Leafable>(leaves: Seq<V>, i: int) -> Seq<u64> {
    if 0 <= i < leaves.len() {
        leaves[i].spec_hash()
    } else {
        V::spec_empty().spec_hash()
    }
}

/// The root determined by a leaf list alone: the full assignment padded
/// with empty leaves, hashed recursively.
pub open spec fn padded_root<V: Leafable>(leaves: Seq<V>, height: int) -> Seq<u64> {
    subtree_hash(
        Seq::new(pow2(height as nat), |i: int| padded_leaf_hash(leaves, i)),
        height,
        0,
        0,
    )
}

/// Merkle tree that holds its leaves as a vector, for indexed access.
pub struct MerkleTreeWithLeaves<V: Leafable> {
    pub merkle_tree: MerkleTree,
    pub leaves: Vec<V>,
}

impl<V: Leafable> MerkleTreeWithLeaves<V> {
    pub open spec fn spec_height(&self) -> int {
        self.merkle_tree.spec_height()
    }

    pub open spec fn leaves_view(&self) -> Seq<V> {
        self.leaves@
    }

    /// The root the tree denotes.
    pub open spec fn spec_root(&self) -> Seq<u64> {
        self.merkle_tree.spec_root()
    }

    pub open spec fn wf(&self) -> bool {
        &&& self.merkle_tree.wf()
        &&& self.leaves@.len() <= pow2(self.spec_height() as nat)
        &&& self.merkle_tree.empty_leaf_hash() == V::spec_empty().spec_hash()
        &&& forall|i: int|
            0 <= i < pow2(self.spec_height() as nat) ==> self.merkle_tree.assignment@[i]
                == padded_leaf_hash(self.leaves@, i)
    }

    /// The root is a function of the pushed leaves alone.
    pub proof fn lemma_root_of_leaves(&self)
        requires
            self.wf(),
        ensures
            self.spec_root() == padded_root(self.leaves_view(), self.spec_height()),
    {
        assert(self.merkle_tree.assignment@ =~= Seq::new(
            pow2(self.spec_height() as nat),
            |i: int| padded_leaf_hash(self.leaves@, i),
        ));
    }

    pub fn new(height: usize) -> (r: Self)
        requires
            height <= 32,
        ensures
            r.wf(),
            r.spec_height() == height,
            r.leaves_view() =~= Seq::<V>::empty(),
    {
        let empty = V::empty_leaf();
        let empty_hash = empty.hash();
        let merkle_tree = MerkleTree::new(height, empty_hash);
        let r = MerkleTreeWithLeaves { merkle_tree, leaves: Vec::new() };
        proof {
            assert forall|i: int| 0 <= i < pow2(height as nat) implies r.merkle_tree.assignment@[i]
                == padded_leaf_hash(r.leaves@, i) by {
                assert(r.merkle_tree.assignment@[i] == empty_hash.0@);
            }
        }
        r
    }

    pub fn height(&self) -> (r: usize)
        ensures
            r == self.spec_height(),
    {
        self.merkle_tree.height()
    }

    pub fn len(&self) -> (r: usize)
        ensures
            r == self.leaves_view().len(),
    {
        self.leaves.len()
    }

    pub fn is_empty(&self) -> (r: bool)
        ensures
            r == (self.leaves_view().len() == 0),
    {
        self.leaves.len() == 0
    }

    /// The leaf at `index`; positions beyond the current length read as the
    /// empty leaf.
    pub fn get_leaf(&self, index: usize) -> (r: V)
        ensures
            r == if index < self.leaves_view().len() {
                self.leaves_view()[index as int]
            } else {
                V::spec_empty()
            },
    {
        if index < self.leaves.len() {
            self.leaves[index].duplicate()
        } else {
            V::empty_leaf()
        }
    }

    pub fn get_root(&self) -> (r: Digest)
        requires
            self.wf(),
        ensures
            r.0@ == self.spec_root(),
    {
        self.merkle_tree.get_root()
    }

    /// An owned copy of the pushed leaves.
    pub fn leaves(&self) -> (r: Vec<V>)
        ensures
            r@ == self.leaves_view(),
    {
        let mut out: Vec<V> = Vec::new();
        let mut i: usize = 0;
        while i < self.leaves.len()
            invariant
                i <= self.leaves@.len(),
                out@ =~= self.leaves@.take(i as int),
            decreases self.leaves@.len() - i,
        {
            out.push(self.leaves[i].duplicate());
            proof {
                assert(out@ =~= self.leaves@.take(i + 1));
            }
            i = i + 1;
        }
        proof {
            assert(self.leaves@.take(self.leaves@.len() as int) =~= self.leaves@);
        }
        out
    }

    /// Append a leaf at the next position. Capacity is a static parameter:
    /// the caller must stay below `2^height` leaves.
    pub fn push(&mut self, leaf: V)
        requires
            old(self).wf(),
            old(self).leaves_view().len() < pow2(old(self).spec_height() as nat),
        ensures
            final(self).wf(),
            final(self).spec_height() == old(self).spec_height(),
            final(self).leaves_view() == old(self).leaves_view().push(leaf),
    {
        let ghost old_leaves = self.leaves@;
        let index = self.leaves.len();
        proof {
            lemma_u64_range(index as int, old(self).spec_height());
        }
        let leaf_hash = leaf.hash();
        self.merkle_tree.update_leaf(index as u64, leaf_hash);
        self.leaves.push(leaf);
        proof {
            assert forall|i: int|
                0 <= i < pow2(self.spec_height() as nat) implies self.merkle_tree.assignment@[i]
                == padded_leaf_hash(self.leaves@, i) by {
                if i == index as int {
                } else {
                    assert(padded_leaf_hash(self.leaves@, i) == padded_leaf_hash(old_leaves, i));
                }
            }
        }
    }

    /// Remove the most recently pushed leaf.
    pub fn pop(&mut self)
        requires
            old(self).wf(),
            old(self).leaves_view().len() > 0,
        ensures
            final(self).wf(),
            final(self).spec_height() == old(self).spec_height(),
            final(self).leaves_view() == old(self).leaves_view().drop_last(),
    {
        let ghost old_leaves = self.leaves@;
        self.leaves.pop();
        let index = self.leaves.len();
        proof {
            lemma_u64_range(index as int, old(self).spec_height());
        }
        let empty_hash = V::empty_leaf().hash();
        self.merkle_tree.update_leaf(index as u64, empty_hash);
        proof {
            assert(self.leaves@ =~= old_leaves.drop_last());
            assert forall|i: int|
                0 <= i < pow2(self.spec_height() as nat) implies self.merkle_tree.assignment@[i]
                == padded_leaf_hash(self.leaves@, i) by {
                if i == index as int {
                } else {
                    assert(padded_leaf_hash(self.leaves@, i) == padded_leaf_hash(old_leaves, i));
                }
            }
        }
    }

    /// An owned copy with the same visible state.
    pub fn duplicate(&self) -> (r: Self)
        ensures
            r.merkle_tree.height == self.merkle_tree.height,
            r.merkle_tree.assignment@ == self.merkle_tree.assignment@,
            r.leaves_view() == self.leaves_view(),
            r.spec_root() == self.spec_root(),
            r.spec_height() == self.spec_height(),
            self.wf() ==> r.wf(),
    {
        let merkle_tree = self.merkle_tree.duplicate();
        let leaves = self.leaves();
        MerkleTreeWithLeaves { merkle_tree, leaves }
    }

    /// An inclusion proof for position `index`, which may also be an empty
    /// position. The proof always verifies against the current root.
    pub fn prove(&self, index: usize) -> (r: MerkleProofWithLeaves)
        requires
            self.wf(),
            index < pow2(self.spec_height() as nat),
        ensures
            r.0.views().len() == self.spec_height(),
            merkle_fold(padded_leaf_hash(self.leaves_view(), index as int), r.0.views(), index as int)
                == self.spec_root(),
            forall|x: Seq<u64>|
                #[trigger] merkle_fold(x, r.0.views(), index as int) == subtree_hash(
                    self.merkle_tree.assignment@.update(index as int, x),
                    self.spec_height(),
                    0,
                    0,
                ),
    {
        proof {
            lemma_u64_range(index as int, self.spec_height());
        }
        MerkleProofWithLeaves(self.merkle_tree.prove(index as u64))
    }
}

/// An index below `2^height` for `height <= 32` fits in a `u64` unchanged.
proof fn lemma_u64_range(index: int, height: int)
    requires
        0 <= height <= 32,
        0 <= index < pow2(height as nat),
    ensures
        index < 0x1_0000_0000,
        (index as u64) as int == index,
{
    if height < 32 {
        vstd::arithmetic::power2::lemma_pow2_strictly_increases(height as nat, 32);
    }
    assert(pow2(32) == 0x1_0000_0000) by {
        vstd::arithmetic::power2::lemma2_to64();
    }
}

/// A Merkle inclusion proof over leaf values.
pub struct MerkleProofWithLeaves(pub MerkleProof);

impl MerkleProofWithLeaves {
    /// Check the leaf value against a root; `Ok` exactly when the root
    /// recomputed from the leaf's hash and the siblings matches.
    pub fn verify<V: Leafable>(&self, leaf_data: &V, index: usize, merkle_root: Digest) -> (r:
        Result<(), ZkpError>)
        ensures
            r is Ok <==> merkle_fold(leaf_data.spec_hash(), self.0.views(), index as int)
                == merkle_root.0@,
            r is Err ==> r->Err_0 == ZkpError::MerkleVerifyFailed,
    {
        proof {
            assert((index as u64) as int == index as int);
        }
        let leaf_hash = leaf_data.hash();
        self.0.verify_hash(&leaf_hash, index as u64, &merkle_root)
    }

    pub fn height(&self) -> (r: usize)
        ensures
            r == self.0.views().len(),
    {
        self.0.height()
    }
}

} // verus!
