//! Sparse fixed-height Merkle tree over digests.
//!
//! Only non-default nodes are stored; every node absent from the store is
//! the root of an all-default subtree. The tree is specified against a
//! ghost assignment of one leaf hash per position: every stored or derived
//! node equals the recursive two-to-one hash of its subtree's assignment.

use vstd::prelude::*;
use vstd::arithmetic::power2::{pow2, lemma_pow2_adds, lemma_pow2_pos};
use vstd::arithmetic::div_mod::{
    lemma_div_denominator, lemma_fundamental_div_mod, lemma_div_basics,
};
use std::collections::HashMap;

use crate::digest::{Digest, spec_two_to_one, two_to_one};
use crate::error::ZkpError;

verus! {

broadcast use vstd::std_specs::hash::group_hash_axioms;

/// The hash of the subtree rooted at depth `d`, position `pos`, under the
/// leaf-hash assignment `a` of a tree of the given height. Depth `height`
/// is the leaf layer; depth 0 is the root.
pub open spec fn subtree_hash(a: Seq<Seq<u64>>, height: int, d: int, pos: int) -> Seq<u64>
    decreases height - d,
    when 0 <= d <= height
{
    if d == height {
        a[pos]
    } else {
        spec_two_to_one(
            subtree_hash(a, height, d + 1, 2 * pos),
            subtree_hash(a, height, d + 1, 2 * pos + 1),
        )
    }
}

/// The hash of an all-default subtree with `levels` levels above the
/// default leaf hash `e`.
pub open spec fn empty_subtree_hash(e: Seq<u64>, levels: int) -> Seq<u64>
    decreases levels,
    when levels >= 0
{
    if levels <= 0 {
        e
    } else {
        spec_two_to_one(empty_subtree_hash(e, levels - 1), empty_subtree_hash(e, levels - 1))
    }
}

/// Recompute a root from a leaf hash, a sibling list (leaf to root) and a
/// position index.
pub open spec fn merkle_fold(leaf: Seq<u64>, siblings: Seq<Seq<u64>>, pos: int) -> Seq<u64>
    decreases siblings.len(),
{
    if siblings.len() == 0 {
        leaf
    } else {
        let combined = if pos % 2 == 1 {
            spec_two_to_one(siblings[0], leaf)
        } else {
            spec_two_to_one(leaf, siblings[0])
        };
        merkle_fold(combined, siblings.drop_first(), pos / 2)
    }
}

/// The views of a list of digests.
pub open spec fn digests_view(s: Seq<Digest>) -> Seq<Seq<u64>> {
    Seq::new(s.len(), |i: int| s[i].0@)
}

/// Key of the node at depth `d`, position `pos`, in the sparse store.
pub open spec fn spec_node_id(d: int, pos: int) -> int {
    pow2(d as nat) + pos
}

/// Keys of nodes at a strictly shallower depth are strictly smaller.
proof fn lemma_node_id_ordered(d1: int, p1: int, d2: int, p2: int)
    requires
        0 <= d1 < d2,
        0 <= p1 < pow2(d1 as nat),
        0 <= p2 < pow2(d2 as nat),
    ensures
        spec_node_id(d1, p1) < spec_node_id(d2, p2),
{
    lemma_pow2_adds(d1 as nat, 1);
    vstd::arithmetic::power2::lemma2_to64();
    assert(pow2((d1 + 1) as nat) == pow2(d1 as nat) * 2);
    if d1 + 1 < d2 {
        vstd::arithmetic::power2::lemma_pow2_strictly_increases((d1 + 1) as nat, d2 as nat);
    }
    assert(spec_node_id(d1, p1) < 2 * pow2(d1 as nat));
    assert(spec_node_id(d2, p2) >= pow2(d2 as nat) >= pow2((d1 + 1) as nat));
}

/// Node keys are distinct across distinct (depth, position) pairs.
pub proof fn lemma_node_id_injective(d1: int, p1: int, d2: int, p2: int)
    requires
        0 <= d1,
        0 <= d2,
        0 <= p1 < pow2(d1 as nat),
        0 <= p2 < pow2(d2 as nat),
        !(d1 == d2 && p1 == p2),
    ensures
        spec_node_id(d1, p1) != spec_node_id(d2, p2),
{
    if d1 == d2 {
    } else if d1 < d2 {
        lemma_node_id_ordered(d1, p1, d2, p2);
    } else {
        lemma_node_id_ordered(d2, p2, d1, p1);
    }
}

/// A subtree hash does not depend on leaves outside the subtree: updating
/// a leaf whose position does not fall under `(d, pos)` leaves the hash
/// unchanged.
pub proof fn lemma_subtree_frame(
    a: Seq<Seq<u64>>,
    a2: Seq<Seq<u64>>,
    height: int,
    d: int,
    pos: int,
    idx: int,
    v: Seq<u64>,
)
    requires
        0 <= d <= height,
        0 <= pos < pow2(d as nat),
        0 <= idx < a.len(),
        a.len() == pow2(height as nat),
        a2 == a.update(idx, v),
        pos != idx / (pow2((height - d) as nat) as int),
    ensures
        subtree_hash(a2, height, d, pos) == subtree_hash(a, height, d, pos),
    decreases height - d,
{
    if d == height {
        assert(pow2(0) == 1) by {
            vstd::arithmetic::power2::lemma2_to64();
        }
        assert(idx / 1 == idx) by {
            lemma_div_basics(idx);
        }
        assert(pos != idx);
    } else {
        let p = pow2((height - d - 1) as nat) as int;
        lemma_pow2_pos((height - d - 1) as nat);
        lemma_pow2_adds((height - d - 1) as nat, 1);
        vstd::arithmetic::power2::lemma2_to64();
        assert(pow2((height - d) as nat) == p * 2);
        let q = idx / p;
        assert(q / 2 == idx / (p * 2)) by {
            lemma_div_denominator(idx, p, 2);
        }
        assert(q >= 0) by {
            vstd::arithmetic::div_mod::lemma_div_pos_is_pos(idx, p);
        }
        // the child positions of `pos` cannot be on the updated path
        assert(2 * pos != q && 2 * pos + 1 != q) by {
            if 2 * pos == q || 2 * pos + 1 == q {
                assert(q / 2 == pos) by {
                    lemma_fundamental_div_mod(q, 2);
                }
            }
        }
        lemma_pow2_adds(d as nat, 1);
        assert(pow2((d + 1) as nat) == pow2(d as nat) * 2);
        lemma_subtree_frame(a, a2, height, d + 1, 2 * pos, idx, v);
        lemma_subtree_frame(a, a2, height, d + 1, 2 * pos + 1, idx, v);
    }
}

/// The hash a reader sees for the node at `(d, pos)` in a store `m` with
/// default hashes `zh`.
pub open spec fn map_node_view(m: Map<u64, Digest>, zh: Seq<Digest>, d: int, pos: int) -> Seq<
    u64,
> {
    if m.contains_key((spec_node_id(d, pos)) as u64) {
        m[(spec_node_id(d, pos)) as u64].0@
    } else {
        zh[d].0@
    }
}

/// Sparse fixed-height Merkle tree. The leaf-hash assignment is carried
/// as ghost state; leaves themselves live in the callers.
pub struct MerkleTree {
    pub height: usize,
    pub node_hashes: HashMap<u64, Digest>,
    pub zero_hashes: Vec<Digest>,
    pub assignment: Ghost<Seq<Seq<u64>>>,
}

impl MerkleTree {
    /// Height of the tree; the leaf layer has `2^height` positions.
    pub open spec fn spec_height(&self) -> int {
        self.height as int
    }

    /// The default (absent) leaf hash.
    pub open spec fn empty_leaf_hash(&self) -> Seq<u64> {
        self.zero_hashes@[self.spec_height()].0@
    }

    /// The hash a reader sees for the node at `(d, pos)`.
    pub open spec fn node_view(&self, d: int, pos: int) -> Seq<u64> {
        map_node_view(self.node_hashes@, self.zero_hashes@, d, pos)
    }

    /// The root value the tree currently denotes.
    pub open spec fn spec_root(&self) -> Seq<u64> {
        subtree_hash(self.assignment@, self.spec_height(), 0, 0)
    }

    /// Structural well-formedness: every visible node hash equals the
    /// recursive hash of its subtree's assignment.
    pub open spec fn wf(&self) -> bool {
        &&& self.height <= 32
        &&& self.assignment@.len() == pow2(self.height as nat)
        &&& self.zero_hashes@.len() == self.height + 1
        &&& forall|d: int|
            0 <= d <= self.spec_height() ==> self.zero_hashes@[d].0@ == empty_subtree_hash(
                self.empty_leaf_hash(),
                self.spec_height() - d,
            )
        &&& forall|d: int, pos: int|
            0 <= d <= self.spec_height() && 0 <= pos < pow2(d as nat) ==> #[trigger] self.node_view(
                d,
                pos,
            ) == subtree_hash(self.assignment@, self.spec_height(), d, pos)
    }

    /// A fresh tree: every leaf position carries the default leaf hash.
    pub fn new(height: usize, empty_leaf_hash: Digest) -> (r: Self)
        requires
            height <= 32,
        ensures
            r.wf(),
            r.spec_height() == height,
            r.empty_leaf_hash() == empty_leaf_hash.0@,
            r.assignment@ =~= Seq::new(pow2(height as nat), |i: int| empty_leaf_hash.0@),
    {
        // zh[k] is the default hash with k levels above the leaf layer
        let mut zh: Vec<Digest> = Vec::new();
        zh.push(empty_leaf_hash);
        let mut k: usize = 0;
        while k < height
            invariant
                k <= height,
                zh@.len() == k + 1,
                forall|j: int| 0 <= j <= k ==> zh@[j].0@ == empty_subtree_hash(empty_leaf_hash.0@, j),
            decreases height - k,
        {
            let top = two_to_one(&zh[k], &zh[k]);
            zh.push(top);
            proof {
                assert(zh@[k + 1] == top);
                assert(zh@[k as int].0@ == empty_subtree_hash(empty_leaf_hash.0@, k as int));
                assert(top.0@ == spec_two_to_one(zh@[k as int].0@, zh@[k as int].0@));
                assert(empty_subtree_hash(empty_leaf_hash.0@, k + 1) == spec_two_to_one(
                    empty_subtree_hash(empty_leaf_hash.0@, k as int),
                    empty_subtree_hash(empty_leaf_hash.0@, k as int),
                ));
                assert(zh@[k + 1].0@ == empty_subtree_hash(empty_leaf_hash.0@, k + 1));
            }
            k = k + 1;
        }
        // zero_hashes[d] serves depth d, i.e. height - d levels above the leaves
        let mut zero_hashes: Vec<Digest> = Vec::new();
        let mut d: usize = 0;
        while d <= height
            invariant
                d <= height + 1,
                height <= 32,
                zh@.len() == height + 1,
                forall|j: int|
                    0 <= j <= height ==> zh@[j].0@ == empty_subtree_hash(empty_leaf_hash.0@, j),
                zero_hashes@.len() == d,
                forall|j: int|
                    0 <= j < d ==> zero_hashes@[j].0@ == empty_subtree_hash(
                        empty_leaf_hash.0@,
                        height - j,
                    ),
            decreases height + 1 - d,
        {
            zero_hashes.push(zh[height - d]);
            d = d + 1;
        }
        let r = MerkleTree {
            height,
            node_hashes: HashMap::new(),
            zero_hashes,
            assignment: Ghost(Seq::new(pow2(height as nat), |i: int| empty_leaf_hash.0@)),
        };
        proof {
            assert(r.empty_leaf_hash() == empty_leaf_hash.0@);
            assert forall|d2: int, pos: int|
                0 <= d2 <= r.spec_height() && 0 <= pos < pow2(d2 as nat) implies #[trigger] r
                .node_view(d2, pos) == subtree_hash(r.assignment@, r.spec_height(), d2, pos) by {
                lemma_subtree_all_empty(
                    r.assignment@,
                    empty_leaf_hash.0@,
                    r.spec_height(),
                    d2,
                    pos,
                );
            }
        }
        r
    }

    pub fn height(&self) -> (r: usize)
        ensures
            r == self.spec_height(),
    {
        self.height
    }

    /// The stored or default hash of the node at `(d, pos)`.
    fn get_node(&self, d: usize, pos: u64) -> (r: Digest)
        requires
            self.wf(),
            d <= self.spec_height(),
            pos < pow2(d as nat),
        ensures
            r.0@ == subtree_hash(self.assignment@, self.spec_height(), d as int, pos as int),
    {
        proof {
            lemma_pow2_pos(d as nat);
            if d < 32 {
                vstd::arithmetic::power2::lemma_pow2_strictly_increases(d as nat, 32);
            }
            assert(pow2(32) == 0x1_0000_0000) by {
                vstd::arithmetic::power2::lemma2_to64();
            }
        }
        let id: u64 = node_id(d, pos);
        proof {
            assert(id == (spec_node_id(d as int, pos as int)) as u64);
            assert(self.node_view(d as int, pos as int) == subtree_hash(
                self.assignment@,
                self.spec_height(),
                d as int,
                pos as int,
            ));
        }
        match self.node_hashes.get(&id) {
            Some(h) => *h,
            None => self.zero_hashes[d],
        }
    }

    /// Read a node hash without assuming full well-formedness (used while
    /// an update is in flight).
    fn read_node(&self, d: usize, pos: u64) -> (r: Digest)
        requires
            d <= 32,
            d < self.zero_hashes@.len(),
            pos < pow2(d as nat),
        ensures
            r.0@ == self.node_view(d as int, pos as int),
    {
        proof {
            lemma_pow2_pos(d as nat);
            if d < 32 {
                vstd::arithmetic::power2::lemma_pow2_strictly_increases(d as nat, 32);
            }
            assert(pow2(32) == 0x1_0000_0000) by {
                vstd::arithmetic::power2::lemma2_to64();
            }
        }
        let id: u64 = node_id(d, pos);
        proof {
            assert(id == (spec_node_id(d as int, pos as int)) as u64);
        }
        match self.node_hashes.get(&id) {
            Some(h) => *h,
            None => self.zero_hashes[d],
        }
    }

    /// Replace the leaf hash at `index` and recompute the path to the root.
    pub fn update_leaf(&mut self, index: u64, leaf_hash: Digest)
        requires
            old(self).wf(),
            index < pow2(old(self).spec_height() as nat),
        ensures
            final(self).wf(),
            final(self).height == old(self).height,
            final(self).zero_hashes@ == old(self).zero_hashes@,
            final(self).assignment@ == old(self).assignment@.update(index as int, leaf_hash.0@),
    {
        let ghost a_old = self.assignment@;
        let ghost a2 = a_old.update(index as int, leaf_hash.0@);
        let ghost hgt = self.spec_height();
        let ghost zh = self.zero_hashes@;
        proof {
            assert(pow2(0) == 1) by {
                vstd::arithmetic::power2::lemma2_to64();
            }
        }
        self.assignment = Ghost(a2);
        let mut d: usize = self.height;
        let mut pos: u64 = index;
        let mut h: Digest = leaf_hash;
        let ghost m_before = self.node_hashes@;
        let id0 = node_id(d, pos);
        self.node_hashes.insert(id0, h);
        proof {
            lemma_div_basics(index as int);
            lemma_node_id_in_range(hgt, index as int);
            assert(index as int / (pow2((hgt - d) as nat) as int) == index as int);
            assert forall|e: int, q: int|
                0 <= e <= hgt && 0 <= q < pow2(e as nat) && (e > d || q != index as int / (pow2(
                    (hgt - e) as nat,
                ) as int) || (e == d && q == pos as int)) implies #[trigger] map_node_view(
                self.node_hashes@,
                zh,
                e,
                q,
            ) == subtree_hash(a2, hgt, e, q) by {
                if e == hgt && q == index as int {
                    assert(self.node_hashes@.contains_key((spec_node_id(e, q)) as u64));
                    assert(map_node_view(self.node_hashes@, zh, e, q) == leaf_hash.0@);
                    assert(subtree_hash(a2, hgt, e, q) == a2[index as int]);
                } else {
                    lemma_node_id_injective(e, q, hgt, index as int);
                    lemma_node_id_in_range(e, q);
                    assert((spec_node_id(e, q)) as u64 != (spec_node_id(hgt, index as int)) as u64);
                    assert(map_node_view(self.node_hashes@, zh, e, q) == map_node_view(
                        m_before,
                        zh,
                        e,
                        q,
                    ));
                    assert(old(self).node_view(e, q) == subtree_hash(a_old, hgt, e, q));
                    assert(map_node_view(m_before, zh, e, q) == subtree_hash(a_old, hgt, e, q));
                    if e == hgt {
                        lemma_div_basics(q);
                        lemma_subtree_frame(a_old, a2, hgt, e, q, index as int, leaf_hash.0@);
                    } else {
                        assert(q != index as int / (pow2((hgt - e) as nat) as int));
                        lemma_subtree_frame(a_old, a2, hgt, e, q, index as int, leaf_hash.0@);
                    }
                }
            }
        }
        while d > 0
            invariant
                self.height == old(self).height,
                self.zero_hashes@ == zh,
                zh == old(self).zero_hashes@,
                self.assignment@ == a2,
                hgt == self.spec_height(),
                0 <= hgt <= 32,
                zh.len() == hgt + 1,
                a_old.len() == pow2(hgt as nat),
                a2 == a_old.update(index as int, leaf_hash.0@),
                index < pow2(hgt as nat),
                d <= hgt,
                pos < pow2(d as nat),
                pos as int == index as int / (pow2((hgt - d) as nat) as int),
                h.0@ == subtree_hash(a2, hgt, d as int, pos as int),
                forall|e: int, q: int|
                    0 <= e <= hgt && 0 <= q < pow2(e as nat) && (e > d || q != index as int / (
                    pow2((hgt - e) as nat) as int) || (e == d && q == pos as int))
                        ==> #[trigger] map_node_view(self.node_hashes@, zh, e, q) == subtree_hash(
                        a2,
                        hgt,
                        e,
                        q,
                    ),
            decreases d,
        {
            let ghost m_prev = self.node_hashes@;
            let ghost d_prev = d as int;
            let ghost pos_prev = pos as int;
            let sib_pos: u64 = if pos % 2 == 0 {
                proof {
                    lemma_pos_sibling_bound(pos as int, d as int);
                }
                pos + 1
            } else {
                pos - 1
            };
            proof {
                assert(sib_pos < pow2(d as nat));
                assert(sib_pos != pos);
                assert(map_node_view(self.node_hashes@, zh, d as int, sib_pos as int)
                    == subtree_hash(a2, hgt, d as int, sib_pos as int));
            }
            let sib = self.read_node(d, sib_pos);
            let parent = if pos % 2 == 1 {
                two_to_one(&sib, &h)
            } else {
                two_to_one(&h, &sib)
            };
            d = d - 1;
            pos = pos / 2;
            h = parent;
            proof {
                lemma_fundamental_div_mod(pos_prev, 2);
                assert(pos as int == pos_prev / 2);
                lemma_pos_half_bound(pos_prev, d_prev);
                assert(pos < pow2(d as nat));
                // the two children of the new position are the old position
                // and its sibling, in parity order
                if pos_prev % 2 == 1 {
                    assert(2 * (pos as int) == sib_pos as int);
                    assert(2 * (pos as int) + 1 == pos_prev);
                } else {
                    assert(2 * (pos as int) == pos_prev);
                    assert(2 * (pos as int) + 1 == sib_pos as int);
                }
                assert(parent.0@ == spec_two_to_one(
                    subtree_hash(a2, hgt, d_prev, 2 * (pos as int)),
                    subtree_hash(a2, hgt, d_prev, 2 * (pos as int) + 1),
                ));
                assert(parent.0@ == subtree_hash(a2, hgt, d as int, pos as int));
                // the new position stays on the updated path
                lemma_pow2_adds((hgt - d_prev) as nat, 1);
                lemma_pow2_pos((hgt - d_prev) as nat);
                vstd::arithmetic::power2::lemma2_to64();
                assert(pow2((hgt - d) as nat) == pow2((hgt - d_prev) as nat) * 2);
                lemma_div_denominator(index as int, pow2((hgt - d_prev) as nat) as int, 2);
                assert(index as int / (pow2((hgt - d) as nat) as int) == (index as int / (pow2(
                    (hgt - d_prev) as nat,
                ) as int)) / 2);
                assert(pos as int == index as int / (pow2((hgt - d) as nat) as int));
            }
            let idn = node_id(d, pos);
            self.node_hashes.insert(idn, h);
            proof {
                lemma_node_id_in_range(d as int, pos as int);
                assert forall|e: int, q: int|
                    0 <= e <= hgt && 0 <= q < pow2(e as nat) && (e > d || q != index as int / (
                    pow2((hgt - e) as nat) as int) || (e == d && q == pos as int)) implies #[trigger] map_node_view(
                    self.node_hashes@,
                    zh,
                    e,
                    q,
                ) == subtree_hash(a2, hgt, e, q) by {
                    if e == d && q == pos as int {
                        assert(self.node_hashes@.contains_key((spec_node_id(e, q)) as u64));
                        assert(map_node_view(self.node_hashes@, zh, e, q) == parent.0@);
                    } else {
                        lemma_node_id_injective(e, q, d as int, pos as int);
                        lemma_node_id_in_range(e, q);
                        assert((spec_node_id(e, q)) as u64 != (spec_node_id(
                            d as int,
                            pos as int,
                        )) as u64);
                        assert(map_node_view(self.node_hashes@, zh, e, q) == map_node_view(
                            m_prev,
                            zh,
                            e,
                            q,
                        ));
                        // the node was already covered before this step
                        if e > d_prev || q != index as int / (pow2((hgt - e) as nat) as int) || (e
                            == d_prev && q == pos_prev) {
                            assert(map_node_view(m_prev, zh, e, q) == subtree_hash(a2, hgt, e, q));
                        } else {
                            assert(e <= d_prev && q == index as int / (pow2(
                                (hgt - e) as nat,
                            ) as int));
                            if e == d_prev {
                                assert(q == pos_prev);
                                assert(false);
                            } else {
                                assert(e <= d);
                                assert(e == d && q == pos as int);
                                assert(false);
                            }
                        }
                    }
                }
            }
        }
        proof {
            assert(pos as int == index as int / (pow2(hgt as nat) as int));
            assert(pos == 0) by {
                vstd::arithmetic::div_mod::lemma_basic_div(index as int, pow2(hgt as nat) as int);
            }
            assert forall|e: int, q: int|
                0 <= e <= hgt && 0 <= q < pow2(e as nat) implies #[trigger] map_node_view(
                self.node_hashes@,
                zh,
                e,
                q,
            ) == subtree_hash(a2, hgt, e, q) by {
                if e == 0 {
                    assert(pow2(0) == 1) by {
                        vstd::arithmetic::power2::lemma2_to64();
                    }
                    assert(q == 0);
                }
            }
        }
    }

    /// An owned copy with the same visible state.
    pub fn duplicate(&self) -> (r: MerkleTree)
        ensures
            r.height == self.height,
            r.node_hashes@ == self.node_hashes@,
            r.zero_hashes@ == self.zero_hashes@,
            r.assignment@ == self.assignment@,
            self.wf() ==> r.wf(),
    {
        let node_hashes = self.node_hashes.clone();
        let mut zero_hashes: Vec<Digest> = Vec::new();
        let mut i: usize = 0;
        while i < self.zero_hashes.len()
            invariant
                i <= self.zero_hashes@.len(),
                zero_hashes@ =~= self.zero_hashes@.take(i as int),
            decreases self.zero_hashes@.len() - i,
        {
            zero_hashes.push(self.zero_hashes[i]);
            proof {
                assert(zero_hashes@ =~= self.zero_hashes@.take(i + 1));
            }
            i = i + 1;
        }
        proof {
            assert(self.zero_hashes@.take(self.zero_hashes@.len() as int) =~= self.zero_hashes@);
        }
        let r = MerkleTree {
            height: self.height,
            node_hashes,
            zero_hashes,
            assignment: Ghost(self.assignment@),
        };
        proof {
            if self.wf() {
                assert forall|d: int, pos: int|
                    0 <= d <= r.spec_height() && 0 <= pos < pow2(d as nat) implies #[trigger] r.node_view(
                    d,
                    pos,
                ) == subtree_hash(r.assignment@, r.spec_height(), d, pos) by {
                    assert(self.node_view(d, pos) == subtree_hash(
                        self.assignment@,
                        self.spec_height(),
                        d,
                        pos,
                    ));
                }
            }
        }
        r
    }

    /// The root hash.
    pub fn get_root(&self) -> (r: Digest)
        requires
            self.wf(),
        ensures
            r.0@ == self.spec_root(),
    {
        proof {
            lemma_pow2_pos(0);
        }
        self.get_node(0, 0)
    }
}

/// The store key of the node at `(d, pos)`.
fn node_id(d: usize, pos: u64) -> (r: u64)
    requires
        d <= 32,
        pos < pow2(d as nat),
    ensures
        r == spec_node_id(d as int, pos as int),
{
    proof {
        if d < 32 {
            vstd::arithmetic::power2::lemma_pow2_strictly_increases(d as nat, 32);
        }
        assert(pow2(32) == 0x1_0000_0000) by {
            vstd::arithmetic::power2::lemma2_to64();
        }
        lemma_pow2_shift(d);
    }
    (1u64 << (d as u64)) + pos
}

///`1 << d` is `pow2(d)` for small `d`.
proof fn lemma_pow2_shift(d: usize)
    requires
        d <= 32,
    ensures
        (1u64 << (d as u64)) == pow2(d as nat),
{
    let dd = d as u64;
    assert((1u64 << dd) == pow2(dd as nat)) by {
        vstd::bits::lemma_u64_pow2_no_overflow(dd as nat);
        vstd::bits::lemma_u64_shl_is_mul(1u64, dd);
    }
}

/// In an all-default assignment every subtree hash is the default hash of
/// its size.
pub proof fn lemma_subtree_all_empty(a: Seq<Seq<u64>>, e: Seq<u64>, height: int, d: int, pos: int)
    requires
        0 <= d <= height,
        0 <= pos < pow2(d as nat),
        a.len() == pow2(height as nat),
        forall|i: int| 0 <= i < a.len() ==> a[i] == e,
    ensures
        subtree_hash(a, height, d, pos) == empty_subtree_hash(e, height - d),
    decreases height - d,
{
    if d == height {
        assert(pos < a.len());
    } else {
        lemma_pow2_adds(d as nat, 1);
        vstd::arithmetic::power2::lemma2_to64();
        assert(pow2((d + 1) as nat) == pow2(d as nat) * 2);
        lemma_subtree_all_empty(a, e, height, d + 1, 2 * pos);
        lemma_subtree_all_empty(a, e, height, d + 1, 2 * pos + 1);
    }
}


/// The store key fits comfortably in 64 bits.
proof fn lemma_node_id_in_range(d: int, pos: int)
    requires
        0 <= d <= 32,
        0 <= pos < pow2(d as nat),
    ensures
        0 <= spec_node_id(d, pos) < 0x2_0000_0000,
        (spec_node_id(d, pos)) as u64 == spec_node_id(d, pos),
{
    if d < 32 {
        vstd::arithmetic::power2::lemma_pow2_strictly_increases(d as nat, 32);
    }
    assert(pow2(32) == 0x1_0000_0000) by {
        vstd::arithmetic::power2::lemma2_to64();
    }
}

/// An even position below an even power-of-two bound has its sibling below
/// the bound too.
proof fn lemma_pos_sibling_bound(pos: int, d: int)
    requires
        1 <= d <= 32,
        0 <= pos < pow2(d as nat),
        pos % 2 == 0,
    ensures
        pos + 1 < pow2(d as nat),
{
    lemma_pow2_adds((d - 1) as nat, 1);
    vstd::arithmetic::power2::lemma2_to64();
    assert(pow2(d as nat) == pow2((d - 1) as nat) * 2);
    if pos + 1 == pow2(d as nat) {
        lemma_fundamental_div_mod(pos, 2);
    }
}

/// Halving a position below `2^d` lands below `2^(d-1)`.
proof fn lemma_pos_half_bound(pos: int, d: int)
    requires
        1 <= d,
        0 <= pos < pow2(d as nat),
    ensures
        0 <= pos / 2 < pow2((d - 1) as nat),
{
    lemma_pow2_adds((d - 1) as nat, 1);
    vstd::arithmetic::power2::lemma2_to64();
    assert(pow2(d as nat) == pow2((d - 1) as nat) * 2);
    lemma_fundamental_div_mod(pos, 2);
}


impl MerkleTree {
    /// Collect the sibling hashes along the path from leaf `index` to the
    /// root. The result always verifies against the current root.
    pub fn prove(&self, index: u64) -> (r: MerkleProof)
        requires
            self.wf(),
            index < pow2(self.spec_height() as nat),
        ensures
            r.views().len() == self.spec_height(),
            merkle_fold(self.assignment@[index as int], r.views(), index as int)
                == self.spec_root(),
            // the siblings recompute the root of any reassignment of the
            // proven position
            forall|x: Seq<u64>|
                #[trigger] merkle_fold(x, r.views(), index as int) == subtree_hash(
                    self.assignment@.update(index as int, x),
                    self.spec_height(),
                    0,
                    0,
                ),
    {
        let ghost hgt = self.spec_height();
        let ghost a = self.assignment@;
        let mut siblings: Vec<Digest> = Vec::new();
        let mut d: usize = self.height;
        let mut cur: u64 = index;
        proof {
            assert(pow2(0) == 1) by {
                vstd::arithmetic::power2::lemma2_to64();
            }
            lemma_div_basics(index as int);
            assert(digests_view(siblings@) =~= Seq::<Seq<u64>>::empty());
        }
        while d > 0
            invariant
                self.wf(),
                hgt == self.spec_height(),
                a == self.assignment@,
                index < pow2(hgt as nat),
                d <= hgt,
                siblings@.len() == hgt - d,
                cur < pow2(d as nat),
                cur as int == index as int / (pow2((hgt - d) as nat) as int),
                merkle_fold(a[index as int], digests_view(siblings@), index as int)
                    == subtree_hash(a, hgt, d as int, cur as int),
                forall|x: Seq<u64>|
                    #[trigger] merkle_fold(x, digests_view(siblings@), index as int)
                        == subtree_hash(
                        a.update(index as int, x),
                        hgt,
                        d as int,
                        cur as int,
                    ),
            decreases d,
        {
            let ghost d_prev = d as int;
            let ghost cur_prev = cur as int;
            let ghost views_prev = digests_view(siblings@);
            let sib_pos: u64 = if cur % 2 == 0 {
                proof {
                    lemma_pos_sibling_bound(cur as int, d as int);
                }
                cur + 1
            } else {
                cur - 1
            };
            let sib = self.get_node(d, sib_pos);
            siblings.push(sib);
            d = d - 1;
            cur = cur / 2;
            proof {
                assert(digests_view(siblings@) =~= views_prev.push(sib.0@));
                lemma_merkle_fold_push(a[index as int], views_prev, sib.0@, index as int);
                assert(views_prev.len() == hgt - d_prev);
                // parity of the running position decides the combine order
                lemma_fundamental_div_mod(cur_prev, 2);
                lemma_pos_half_bound(cur_prev, d_prev);
                if cur_prev % 2 == 1 {
                    assert(2 * (cur as int) == sib_pos as int);
                    assert(2 * (cur as int) + 1 == cur_prev);
                } else {
                    assert(2 * (cur as int) == cur_prev);
                    assert(2 * (cur as int) + 1 == sib_pos as int);
                }
                assert(merkle_fold(a[index as int], digests_view(siblings@), index as int)
                    == spec_two_to_one(
                    subtree_hash(a, hgt, d_prev, 2 * (cur as int)),
                    subtree_hash(a, hgt, d_prev, 2 * (cur as int) + 1),
                ));
                assert(merkle_fold(a[index as int], digests_view(siblings@), index as int)
                    == subtree_hash(a, hgt, d as int, cur as int));
                lemma_pow2_adds((hgt - d_prev) as nat, 1);
                lemma_pow2_pos((hgt - d_prev) as nat);
                vstd::arithmetic::power2::lemma2_to64();
                assert(pow2((hgt - d) as nat) == pow2((hgt - d_prev) as nat) * 2);
                lemma_div_denominator(index as int, pow2((hgt - d_prev) as nat) as int, 2);
                assert(cur as int == index as int / (pow2((hgt - d) as nat) as int));
                assert forall|x: Seq<u64>|
                    #[trigger] merkle_fold(x, digests_view(siblings@), index as int)
                        == subtree_hash(
                        a.update(index as int, x),
                        hgt,
                        d as int,
                        cur as int,
                    ) by {
                    let a2 = a.update(index as int, x);
                    lemma_merkle_fold_push(x, views_prev, sib.0@, index as int);
                    // the sibling is off the updated path, so its subtree
                    // is unchanged by the reassignment
                    lemma_subtree_frame(a, a2, hgt, d_prev, sib_pos as int, index as int, x);
                    assert(subtree_hash(a2, hgt, d_prev, sib_pos as int) == sib.0@);
                    assert(merkle_fold(x, views_prev, index as int) == subtree_hash(
                        a2,
                        hgt,
                        d_prev,
                        cur_prev,
                    ));
                    assert(merkle_fold(x, digests_view(siblings@), index as int)
                        == spec_two_to_one(
                        subtree_hash(a2, hgt, d_prev, 2 * (cur as int)),
                        subtree_hash(a2, hgt, d_prev, 2 * (cur as int) + 1),
                    ));
                }
            }
        }
        proof {
            assert forall|x: Seq<u64>|
                #[trigger] merkle_fold(x, digests_view(siblings@), index as int) == subtree_hash(
                    a.update(index as int, x),
                    hgt,
                    0,
                    0,
                ) by {}
            assert(a.update(index as int, a[index as int]) =~= a);
            assert(merkle_fold(a[index as int], digests_view(siblings@), index as int)
                == subtree_hash(a, hgt, 0, 0));
        }
        MerkleProof { siblings }
    }
}

/// A Merkle inclusion proof: the sibling hashes from the leaf layer up to
/// the root.
pub struct MerkleProof {
    pub siblings: Vec<Digest>,
}

impl MerkleProof {
    /// The sibling hash values, leaf to root.
    pub open spec fn views(&self) -> Seq<Seq<u64>> {
        digests_view(self.siblings@)
    }

    pub fn height(&self) -> (r: usize)
        ensures
            r == self.views().len(),
    {
        self.siblings.len()
    }

    /// Recompute the root from a leaf hash and compare; `Ok` exactly when
    /// the recomputation meets `merkle_root`.
    pub fn verify_hash(&self, leaf_hash: &Digest, index: u64, merkle_root: &Digest) -> (r: Result<
        (),
        ZkpError,
    >)
        ensures
            r is Ok <==> merkle_fold(leaf_hash.0@, self.views(), index as int) == merkle_root.0@,
            r is Err ==> r->Err_0 == ZkpError::MerkleVerifyFailed,
    {
        let mut h: Digest = *leaf_hash;
        let mut cur: u64 = index;
        let mut k: usize = 0;
        proof {
            assert(self.views().skip(0) =~= self.views());
        }
        while k < self.siblings.len()
            invariant
                k <= self.views().len(),
                self.views().len() == self.siblings@.len(),
                merkle_fold(leaf_hash.0@, self.views(), index as int) == merkle_fold(
                    h.0@,
                    self.views().skip(k as int),
                    cur as int,
                ),
            decreases self.siblings@.len() - k,
        {
            let ghost views_rest = self.views().skip(k as int);
            let sib = self.siblings[k];
            proof {
                assert(views_rest.len() > 0);
                assert(views_rest[0] == self.views()[k as int]);
                assert(views_rest.drop_first() =~= self.views().skip(k + 1));
            }
            h = if cur % 2 == 1 {
                two_to_one(&sib, &h)
            } else {
                two_to_one(&h, &sib)
            };
            cur = cur / 2;
            k = k + 1;
        }
        proof {
            assert(self.views().skip(self.views().len() as int) =~= Seq::<Seq<u64>>::empty());
        }
        if h == *merkle_root {
            Ok(())
        } else {
            Err(ZkpError::MerkleVerifyFailed)
        }
    }
}

/// Appending one sibling combines it with the folded value so far, on the
/// side picked by the bit of the index at that level.
pub proof fn lemma_merkle_fold_push(leaf: Seq<u64>, s: Seq<Seq<u64>>, x: Seq<u64>, i: int)
    requires
        i >= 0,
    ensures
        merkle_fold(leaf, s.push(x), i) == if (i / (pow2(s.len()) as int)) % 2 == 1 {
            spec_two_to_one(x, merkle_fold(leaf, s, i))
        } else {
            spec_two_to_one(merkle_fold(leaf, s, i), x)
        },
    decreases s.len(),
{
    reveal_with_fuel(merkle_fold, 3);
    lemma_pow2_pos(s.len());
    if s.len() == 0 {
        assert(pow2(0) == 1) by {
            vstd::arithmetic::power2::lemma2_to64();
        }
        lemma_div_basics(i);
        assert(s.push(x)[0] == x);
        assert(s.push(x).drop_first() =~= Seq::<Seq<u64>>::empty());
    } else {
        assert(s.push(x)[0] == s[0]);
        assert(s.push(x).drop_first() =~= s.drop_first().push(x));
        let c = if i % 2 == 1 {
            spec_two_to_one(s[0], leaf)
        } else {
            spec_two_to_one(leaf, s[0])
        };
        assert(i / 2 >= 0) by {
            vstd::arithmetic::div_mod::lemma_div_pos_is_pos(i, 2);
        }
        lemma_merkle_fold_push(c, s.drop_first(), x, i / 2);
        lemma_pow2_adds((s.len() - 1) as nat, 1);
        vstd::arithmetic::power2::lemma2_to64();
        assert(pow2(s.len()) == pow2((s.len() - 1) as nat) * 2);
        lemma_pow2_pos((s.len() - 1) as nat);
        lemma_div_denominator(i, 2, pow2((s.len() - 1) as nat) as int);
        assert((i / 2) / (pow2((s.len() - 1) as nat) as int) == i / (2 * (pow2(
            (s.len() - 1) as nat,
        ) as int)));
        assert(merkle_fold(leaf, s, i) == merkle_fold(c, s.drop_first(), i / 2));
        assert(merkle_fold(leaf, s.push(x), i) == merkle_fold(c, s.drop_first().push(x), i / 2));
    }
}

} // verus!
