//! The per-settlement-cycle driver: it folds transfers into withdrawal
//! chains in increasing order, couples withdrawal claims with evidence,
//! and aggregates the settlement leaves into the batch tree.

use vstd::prelude::*;
use vstd::arithmetic::power2::pow2;

use crate::block::Block;
use crate::block_tree_circuit::BlockTreePublicInputs;
use crate::constants::BLOCK_TREE_HEIGHT;
use crate::digest::Digest;
use crate::error::ZkpError;
use crate::merkle_tree::merkle_fold;
use crate::merkle_tree_with_leaves::{Leafable, MerkleProofWithLeaves, MerkleTreeWithLeaves, padded_leaf_hash};
use crate::settlement_leaf::SettlementLeaf;
use crate::transfer::Transfer;
use crate::transfer_info::TransferInfo;
use crate::tree_processor::{DynamicLeafable, DynamicMerkleProofWithLeaf, TreeProcessor};
use crate::withdraw_circuit::{WithdrawPublicInputs, WithdrawValue};

verus! {

/// The settlement batch tree over settlement leaves.
pub type SettlementTreeProcessor = TreeProcessor<SettlementLeaf>;

/// The audit proof handed out per settlement leaf.
pub type SettlementMerkleProof = DynamicMerkleProofWithLeaf<SettlementLeaf>;

/// Whether a block sits in the block log at its own number, by its leaf
/// hash.
pub open spec fn spec_block_in_log(tree: &MerkleTreeWithLeaves<Block>, block: &Block) -> bool {
    &&& (block.block_number as int) < tree.leaves_view().len()
    &&& tree.leaves_view()[block.block_number as int].spec_hash() == block.spec_hash()
}

/// The order key of a transfer info.
pub open spec fn spec_info_ebn(info: &TransferInfo) -> int {
    (info.block.block_number as int) * 0x1_0000_0000 + info.transfer_index as int
}

/// Whether two infos carry the same transfer claim.
pub open spec fn spec_info_matches(a: &TransferInfo, b: &TransferInfo) -> bool {
    &&& a.transfer == b.transfer
    &&& a.transfer_index == b.transfer_index
    &&& a.transfer_merkle_proof.0.views() == b.transfer_merkle_proof.0.views()
    &&& a.block == b.block
}

/// Everything a transfer info claims, as one plain value.
pub open spec fn spec_claim(info: &TransferInfo) -> (Transfer, usize, Seq<Seq<u64>>, Block) {
    (info.transfer, info.transfer_index, info.transfer_merkle_proof.0.views(), info.block)
}

/// The claims of a batch, in order.
pub open spec fn spec_claims(infos: Seq<TransferInfo>) -> Seq<(Transfer, usize, Seq<Seq<u64>>, Block)> {
    Seq::new(infos.len(), |i: int| spec_claim(&infos[i]))
}

/// The transfers of a batch, in order.
pub open spec fn spec_batch_transfers(infos: Seq<TransferInfo>) -> Seq<Transfer> {
    Seq::new(infos.len(), |i: int| infos[i].transfer)
}

/// The transfers consumed by a step chain, in order.
pub open spec fn spec_step_infos(steps: Seq<WithdrawValue>) -> Seq<TransferInfo> {
    Seq::new(steps.len(), |i: int| steps[i].transfer_info)
}

/// Sort transfer infos by their order key, non-decreasing; the claims are
/// a permutation of the input's.
fn sort_by_ebn(infos: &[TransferInfo]) -> (r: Vec<TransferInfo>)
    requires
        forall|j: int|
            0 <= j < infos@.len() ==> (#[trigger] infos@[j]).transfer_index < 0x1_0000_0000
                && infos@[j].transfer.asset.asset_id < 4,
    ensures
        r@.len() == infos@.len(),
        forall|i: int, j: int|
            0 <= i < j < r@.len() ==> spec_info_ebn(&r@[i]) <= spec_info_ebn(&r@[j]),
        forall|i: int|
            0 <= i < r@.len() ==> (#[trigger] r@[i]).transfer_index < 0x1_0000_0000
                && r@[i].transfer.asset.asset_id < 4,
        spec_claims(r@).to_multiset() == spec_claims(infos@).to_multiset(),
        spec_batch_transfers(r@).to_multiset() == spec_batch_transfers(infos@).to_multiset(),
{
    broadcast use vstd::seq_lib::group_to_multiset_ensures;

    let mut out: Vec<TransferInfo> = Vec::new();
    let mut i: usize = 0;
    proof {
        assert(spec_claims(out@) =~= spec_claims(infos@.take(0)));
        assert(spec_batch_transfers(out@) =~= spec_batch_transfers(infos@.take(0)));
    }
    while i < infos.len()
        invariant
            forall|j: int|
                0 <= j < infos@.len() ==> (#[trigger] infos@[j]).transfer_index < 0x1_0000_0000
                    && infos@[j].transfer.asset.asset_id < 4,
            i <= infos@.len(),
            out@.len() == i,
            forall|a: int, b: int|
                0 <= a < b < out@.len() ==> spec_info_ebn(&out@[a]) <= spec_info_ebn(&out@[b]),
            forall|a: int|
                0 <= a < out@.len() ==> (#[trigger] out@[a]).transfer_index < 0x1_0000_0000
                    && out@[a].transfer.asset.asset_id < 4,
            spec_claims(out@).to_multiset() == spec_claims(infos@.take(i as int)).to_multiset(),
            spec_batch_transfers(out@).to_multiset() == spec_batch_transfers(
                infos@.take(i as int),
            ).to_multiset(),
        decreases infos@.len() - i,
    {
        let info = infos[i].duplicate();
        let key_hi = info.block.block_number;
        let key_lo = info.transfer_index;
        // find the insertion position
        let mut pos: usize = 0;
        while pos < out.len() && !ebn_greater(&out[pos], key_hi, key_lo)
            invariant
                pos <= out@.len(),
                key_lo < 0x1_0000_0000,
                forall|a: int|
                    0 <= a < out@.len() ==> (#[trigger] out@[a]).transfer_index < 0x1_0000_0000
                        && out@[a].transfer.asset.asset_id < 4,
                forall|a: int|
                    0 <= a < pos ==> spec_info_ebn(&out@[a]) <= (key_hi as int) * 0x1_0000_0000
                        + key_lo as int,
            decreases out@.len() - pos,
        {
            pos = pos + 1;
        }
        let ghost pre = out@;
        out.insert(pos, info);
        proof {
            broadcast use vstd::seq_lib::group_to_multiset_ensures;

            assert(spec_info_ebn(&info) == (key_hi as int) * 0x1_0000_0000 + key_lo as int);
            assert(spec_info_matches(&info, &infos@[i as int]));
            // claims and transfers: one insertion on each side
            assert(spec_claims(out@) =~= spec_claims(pre).insert(pos as int, spec_claim(&info)));
            assert(spec_claims(infos@.take(i + 1)) =~= spec_claims(infos@.take(i as int)).push(
                spec_claim(&infos@[i as int]),
            ));
            assert(spec_claim(&info) == spec_claim(&infos@[i as int]));
            assert(spec_batch_transfers(out@) =~= spec_batch_transfers(pre).insert(
                pos as int,
                info.transfer,
            ));
            assert(spec_batch_transfers(infos@.take(i + 1)) =~= spec_batch_transfers(
                infos@.take(i as int),
            ).push(infos@[i as int].transfer));
            assert(info.transfer == infos@[i as int].transfer);
            assert forall|a: int, b: int|
                0 <= a < b < out@.len() implies spec_info_ebn(&out@[a]) <= spec_info_ebn(
                &out@[b],
            ) by {
                if a < pos && b == pos {
                    assert(out@[a] == pre[a]);
                } else if a == pos && b > pos {
                    assert(out@[b] == pre[b - 1]);
                    assert(spec_info_ebn(&pre[pos as int]) > (key_hi as int) * 0x1_0000_0000
                        + key_lo as int || pos == pre.len());
                } else if a < pos && b > pos {
                    assert(out@[a] == pre[a]);
                    assert(out@[b] == pre[b - 1]);
                } else if a > pos && b > pos {
                    assert(out@[a] == pre[a - 1]);
                    assert(out@[b] == pre[b - 1]);
                }
            }
            assert forall|a: int|
                0 <= a < out@.len() implies (#[trigger] out@[a]).transfer_index < 0x1_0000_0000
                && out@[a].transfer.asset.asset_id < 4 by {
                if a < pos {
                    assert(out@[a] == pre[a]);
                } else if a > pos {
                    assert(out@[a] == pre[a - 1]);
                } else {
                    assert(out@[a] == info);
                    assert(info.transfer_index == infos@[i as int].transfer_index);
                    assert(info.transfer.asset.asset_id == infos@[i as int].transfer.asset.asset_id);
                }
            }
        }
        i = i + 1;
    }
    proof {
        assert(infos@.take(infos@.len() as int) =~= infos@);
    }
    out
}

/// Whether `info`'s order key strictly exceeds the given key.
fn ebn_greater(info: &TransferInfo, key_hi: u32, key_lo: usize) -> (r: bool)
    requires
        info.transfer_index < 0x1_0000_0000,
        key_lo < 0x1_0000_0000,
    ensures
        r == (spec_info_ebn(info) > (key_hi as int) * 0x1_0000_0000 + key_lo as int),
{
    if info.block.block_number > key_hi {
        true
    } else if info.block.block_number < key_hi {
        false
    } else {
        info.transfer_index > key_lo
    }
}

/// The totals a withdrawal chain starts from: the prior chain's, or zero.
pub open spec fn spec_base_total(withdraw_pis: &Option<WithdrawPublicInputs>, k: int) -> int {
    match *withdraw_pis {
        Some(w) => w.total_amount.as_nats()[k] as int,
        None => 0,
    }
}

/// The hypotheses under which extending a withdrawal chain by a batch is
/// owed to succeed: every claim is valid, sits in the authenticated block
/// log, addresses the one recipient, carries a fresh strictly-ordered key,
/// and the accumulated totals fit.
pub open spec fn spec_batch_ok(
    block_tree: &MerkleTreeWithLeaves<Block>,
    block_tree_pis: &BlockTreePublicInputs,
    infos: Seq<TransferInfo>,
    withdraw_pis: &Option<WithdrawPublicInputs>,
) -> bool {
    &&& infos.len() > 0
    &&& block_tree_pis.block_root.0@ == block_tree.spec_root()
    &&& spec_block_in_log(block_tree, &block_tree_pis.block)
    &&& forall|i: int| 0 <= i < infos.len() ==> (#[trigger] infos[i]).spec_valid()
    &&& forall|i: int|
        0 <= i < infos.len() ==> spec_block_in_log(block_tree, &(#[trigger] infos[i]).block)
    &&& forall|i: int, j: int|
        0 <= i < infos.len() && 0 <= j < infos.len() && i != j ==> spec_info_ebn(&infos[i])
            != spec_info_ebn(&infos[j])
    &&& forall|i: int|
        0 <= i < infos.len() ==> (#[trigger] infos[i]).transfer.recipient.0@
            == infos[0].transfer.recipient.0@
    &&& match *withdraw_pis {
        Some(w) => {
            &&& w.recipient.0@ == infos[0].transfer.recipient.0@
            &&& spec_block_in_log(block_tree, &w.block)
            &&& forall|i: int|
                0 <= i < infos.len() ==> spec_info_ebn(&(#[trigger] infos[i])) > w.end_ebn.0
            &&& forall|k: int|
                0 <= k < 4 ==> w.total_amount.as_nats()[k] + crate::transfer::spec_total_amount(
                    spec_batch_transfers(infos),
                    k,
                ) < pow2(256)
        },
        None => {
            &&& block_tree.leaves_view().len() > 0
            &&& block_tree.leaves_view()[0].spec_hash() == Block::spec_genesis().spec_hash()
            &&& forall|k: int|
                0 <= k < 4 ==> crate::transfer::spec_total_amount(
                    spec_batch_transfers(infos),
                    k,
                ) < pow2(256)
        },
    }
}

/// Every sorted entry carries one of the batch's claims.
proof fn lemma_batch_member(sorted: Seq<TransferInfo>, infos: Seq<TransferInfo>, a: int) -> (j:
    int)
    requires
        spec_claims(sorted).to_multiset() == spec_claims(infos).to_multiset(),
        0 <= a < sorted.len(),
    ensures
        0 <= j < infos.len(),
        spec_claim(&sorted[a]) == spec_claim(&infos[j]),
{
    broadcast use vstd::seq_lib::group_to_multiset_ensures;

    let c = spec_claims(sorted)[a];
    assert(spec_claims(sorted).contains(c));
    assert(spec_claims(sorted).to_multiset().count(c) > 0);
    assert(spec_claims(infos).to_multiset().count(c) > 0);
    assert(spec_claims(infos).contains(c));
    let j = choose|j: int| 0 <= j < spec_claims(infos).len() && spec_claims(infos)[j] == c;
    j
}

/// A value held at two positions occurs at least twice in the multiset.
proof fn lemma_two_indices_count<A>(s: Seq<A>, a: int, b: int)
    requires
        0 <= a < b < s.len(),
        s[a] == s[b],
    ensures
        s.to_multiset().count(s[a]) >= 2,
{
    broadcast use vstd::seq_lib::group_to_multiset_ensures;
    broadcast use vstd::multiset::group_multiset_axioms;

    let t = s.remove(a);
    assert(t[b - 1] == s[b]);
    assert(t.contains(s[a]));
    assert(t.to_multiset().count(s[a]) > 0);
    assert(t.to_multiset() == s.to_multiset().remove(s[a]));
    assert(s.to_multiset().contains(s[a]));
}

/// With pairwise distinct keys in the batch, sorted neighbors with equal
/// keys are impossible.
proof fn lemma_sorted_strict(sorted: Seq<TransferInfo>, infos: Seq<TransferInfo>, a: int, b: int)
    requires
        spec_claims(sorted).to_multiset() == spec_claims(infos).to_multiset(),
        sorted.len() == infos.len(),
        forall|i: int, j: int|
            0 <= i < infos.len() && 0 <= j < infos.len() && i != j ==> spec_info_ebn(&infos[i])
                != spec_info_ebn(&infos[j]),
        0 <= a < b < sorted.len(),
    ensures
        spec_info_ebn(&sorted[a]) != spec_info_ebn(&sorted[b]),
{
    broadcast use vstd::seq_lib::group_to_multiset_ensures;

    if spec_info_ebn(&sorted[a]) == spec_info_ebn(&sorted[b]) {
        let ja = lemma_batch_member(sorted, infos, a);
        let jb = lemma_batch_member(sorted, infos, b);
        assert(spec_info_ebn(&infos[ja]) == spec_info_ebn(&sorted[a]));
        assert(spec_info_ebn(&infos[jb]) == spec_info_ebn(&sorted[b]));
        assert(ja == jb);
        assert(spec_claims(sorted)[a] == spec_claims(sorted)[b]);
        lemma_two_indices_count(spec_claims(sorted), a, b);
        // but the batch's claims are pairwise distinct
        assert(spec_claims(infos).no_duplicates()) by {
            assert forall|i: int, j: int|
                0 <= i < spec_claims(infos).len() && 0 <= j < spec_claims(infos).len() && i
                    != j implies spec_claims(infos)[i] != spec_claims(infos)[j] by {
                if spec_claims(infos)[i] == spec_claims(infos)[j] {
                    assert(spec_info_ebn(&infos[i]) == spec_info_ebn(&infos[j]));
                }
            }
        }
        spec_claims(infos).lemma_multiset_has_no_duplicates();
        assert(spec_claims(infos).to_multiset().count(spec_claims(sorted)[a]) <= 1);
        assert(false);
    }
}

/// One planned withdrawal-chain extension, for the proving driver.
/// The running totals plus the next transfer's contribution stay within
/// bounds whenever the whole batch's totals do.
proof fn lemma_batch_step_totals(
    infos: Seq<TransferInfo>,
    sorted: Seq<TransferInfo>,
    i: int,
    base: int,
    k: int,
    cur_total: int,
    contribution: int,
)
    requires
        sorted.len() == infos.len(),
        0 <= i < sorted.len(),
        spec_batch_transfers(sorted).to_multiset() == spec_batch_transfers(infos).to_multiset(),
        base + crate::transfer::spec_total_amount(spec_batch_transfers(infos), k) < pow2(256),
        cur_total == base + crate::transfer::spec_total_amount(
            spec_batch_transfers(sorted).take(i),
            k,
        ),
        contribution == (if sorted[i].transfer.asset.asset_id == k {
            sorted[i].transfer.asset.amount.as_nat() as int
        } else {
            0
        }),
    ensures
        cur_total + contribution < pow2(256),
{
    let tr = spec_batch_transfers(sorted);
    crate::transfer::lemma_total_amount_step(tr, i);
    assert(tr[i] == sorted[i].transfer);
    crate::transfer::lemma_total_amount_prefix_bound(tr, i + 1);
    crate::transfer::lemma_total_amount_permutation(tr, spec_batch_transfers(infos), k);
    assert(crate::transfer::spec_total_amount(tr.take(i + 1), k)
        == crate::transfer::spec_total_amount(tr.take(i), k) + contribution);
    assert(crate::transfer::spec_total_amount(tr.take(i + 1), k)
        <= crate::transfer::spec_total_amount(tr, k));
}

/// Under the batch hypotheses, the step built at position `i` of the
/// sorted batch is accepted.
#[verifier::rlimit(100)]
proof fn lemma_batch_step_accepted(
    block_tree: &MerkleTreeWithLeaves<Block>,
    block_tree_pis: &BlockTreePublicInputs,
    infos: Seq<TransferInfo>,
    withdraw_pis: Option<WithdrawPublicInputs>,
    sorted: Seq<TransferInfo>,
    i: int,
    is_first: bool,
    cur: WithdrawPublicInputs,
    info: TransferInfo,
    pp: MerkleProofWithLeaves,
    pt: MerkleProofWithLeaves,
)
    requires
        spec_batch_ok(block_tree, block_tree_pis, infos, &withdraw_pis),
        block_tree.wf(),
        sorted.len() == infos.len(),
        0 <= i < sorted.len(),
        spec_claims(sorted).to_multiset() == spec_claims(infos).to_multiset(),
        spec_batch_transfers(sorted).to_multiset() == spec_batch_transfers(infos).to_multiset(),
        forall|a: int, b: int|
            0 <= a < b < sorted.len() ==> spec_info_ebn(&sorted[a]) <= spec_info_ebn(&sorted[b]),
        spec_claim(&info) == spec_claim(&sorted[i]),
        is_first == (i == 0 && withdraw_pis is None),
        i == 0 && withdraw_pis is Some ==> cur == withdraw_pis->0,
        i > 0 ==> cur.end_ebn.0 == spec_info_ebn(&sorted[i - 1]),
        cur.recipient.0@ == infos[0].transfer.recipient.0@,
        spec_block_in_log(block_tree, &cur.block),
        forall|k: int|
            0 <= k < 4 ==> cur.total_amount.as_nats()[k] == spec_base_total(&withdraw_pis, k)
                + crate::transfer::spec_total_amount(spec_batch_transfers(sorted).take(i), k),
        merkle_fold(
            padded_leaf_hash(block_tree.leaves_view(), cur.block.block_number as int),
            pp.0.views(),
            cur.block.block_number as int,
        ) == block_tree.spec_root(),
        merkle_fold(
            padded_leaf_hash(block_tree.leaves_view(), info.block.block_number as int),
            pt.0.views(),
            info.block.block_number as int,
        ) == block_tree.spec_root(),
    ensures
        WithdrawValue::spec_accepts(is_first, &cur, &info, block_tree_pis, &pp, &pt),
{
    let lv = block_tree.leaves_view();
    let pbn = cur.block.block_number as int;
    assert(padded_leaf_hash(lv, pbn) == cur.block.spec_hash());
    let j = lemma_batch_member(sorted, infos, i);
    assert(spec_claim(&info) == spec_claim(&infos[j]));
    assert(info.transfer == infos[j].transfer);
    assert(info.block == infos[j].block);
    assert(info.transfer_index == infos[j].transfer_index);
    assert(info.transfer_merkle_proof.0.views() == infos[j].transfer_merkle_proof.0.views());
    assert(infos[j].spec_valid());
    assert(info.spec_valid());
    assert(spec_block_in_log(block_tree, &infos[j].block));
    let tbn = info.block.block_number as int;
    assert(padded_leaf_hash(lv, tbn) == info.block.spec_hash());
    assert(info.transfer.recipient.0@ == infos[0].transfer.recipient.0@);
    assert(WithdrawValue::spec_ebn(&info) == spec_info_ebn(&info));
    assert(spec_info_ebn(&info) == spec_info_ebn(&sorted[i]));
    if is_first {
        assert(spec_batch_transfers(sorted).take(0) =~= Seq::<Transfer>::empty());
        assert forall|k: int| 0 <= k < 4 implies cur.total_amount.as_nats()[k] == 0 by {
            assert(crate::transfer::spec_total_amount(Seq::<Transfer>::empty(), k) == 0);
        }
    } else {
        if i == 0 {
            assert(cur == withdraw_pis->0);
            assert(spec_info_ebn(&infos[j]) > (withdraw_pis->0).end_ebn.0);
        } else {
            lemma_sorted_strict(sorted, infos, i - 1, i);
            assert(spec_info_ebn(&sorted[i - 1]) <= spec_info_ebn(&sorted[i]));
            assert(cur.end_ebn.0 < spec_info_ebn(&info));
        }
    }
    assert forall|k: int| 0 <= k < 4 implies cur.total_amount.as_nats()[k]
        + WithdrawValue::spec_contribution(&info, k) < pow2(256) by {
        assert(WithdrawValue::spec_contribution(&info, k) == (
        if sorted[i].transfer.asset.asset_id == k {
            sorted[i].transfer.asset.amount.as_nat() as int
        } else {
            0
        }));
        lemma_batch_step_totals(
            infos,
            sorted,
            i,
            spec_base_total(&withdraw_pis, k),
            k,
            cur.total_amount.as_nats()[k] as int,
            WithdrawValue::spec_contribution(&info, k),
        );
    }
}

pub struct SettlementProcessor {
    pub settlement_tree_processor: SettlementTreeProcessor,
    pub block_root: Option<Digest>,
}

impl SettlementProcessor {
    pub open spec fn wf(&self) -> bool {
        self.settlement_tree_processor.wf()
    }

    pub fn new() -> (r: SettlementProcessor)
        ensures
            r.wf(),
            r.block_root is None,
            r.settlement_tree_processor.leaves@.len() == 0,
    {
        SettlementProcessor { settlement_tree_processor: TreeProcessor::new(), block_root: None }
    }

    /// Pin the block-log root the settlement cycle works against and clear
    /// the batch.
    pub fn initialize(&mut self, block_tree_snapshot: &MerkleTreeWithLeaves<Block>)
        requires
            block_tree_snapshot.wf(),
        ensures
            final(self).wf(),
            final(self).block_root is Some,
            (final(self).block_root->0).0@ == block_tree_snapshot.spec_root(),
            final(self).settlement_tree_processor.leaves@.len() == 0,
    {
        self.block_root = Some(block_tree_snapshot.get_root());
        self.settlement_tree_processor.initialize();
    }

    /// Plan the extension of a withdrawal chain by a batch of transfers:
    /// sort them by order key and fold them one at a time, starting a new
    /// chain where no prior state is given. Each returned step witnesses
    /// one proving call, in order.
    #[verifier::rlimit(100)]
    pub fn append_withdraw_proof(
        &self,
        block_tree_pis: &BlockTreePublicInputs,
        block_tree: &MerkleTreeWithLeaves<Block>,
        transfer_info: &[TransferInfo],
        withdraw_pis: &Option<WithdrawPublicInputs>,
    ) -> (r: Result<Vec<WithdrawValue>, ZkpError>)
        requires
            block_tree.wf(),
            block_tree.spec_height() == BLOCK_TREE_HEIGHT as int,
            forall|i: int|
                0 <= i < transfer_info@.len() ==> (#[trigger] transfer_info@[i]).transfer_index
                    < 0x1_0000_0000,
            forall|i: int|
                0 <= i < transfer_info@.len()
                    ==> (#[trigger] transfer_info@[i]).transfer.asset.asset_id < 4,
        ensures
            transfer_info@.len() == 0 ==> r == Result::<Vec<WithdrawValue>, ZkpError>::Err(
                ZkpError::EmptyInput,
            ),
            transfer_info@.len() > 0 && block_tree_pis.block_root.0@ != block_tree.spec_root()
                ==> r == Result::<Vec<WithdrawValue>, ZkpError>::Err(ZkpError::BlockRootMismatch),
            spec_batch_ok(block_tree, block_tree_pis, transfer_info@, withdraw_pis) ==> r is Ok,
            r is Ok ==> {
                let steps = r->Ok_0;
                &&& steps@.len() == transfer_info@.len()
                &&& (withdraw_pis is Some ==> steps@[0].prev_pis == withdraw_pis->0
                    && !steps@[0].is_first_step)
                &&& (withdraw_pis is None ==> steps@[0].is_first_step)
                // the chain is linked step to step
                &&& forall|i: int|
                    1 <= i < steps@.len() ==> (#[trigger] steps@[i]).prev_pis == steps@[i
                        - 1].new_pis && !steps@[i].is_first_step
                // each step accumulates its transfer's amount and advances
                // the order key
                &&& forall|i: int, k: int|
                    0 <= i < steps@.len() && 0 <= k < 4
                        ==> (#[trigger] steps@[i].new_pis.total_amount.as_nats()[k])
                        == steps@[i].prev_pis.total_amount.as_nats()[k]
                        + WithdrawValue::spec_contribution(&steps@[i].transfer_info, k)
                &&& forall|i: int|
                    1 <= i < steps@.len() ==> (#[trigger] steps@[i].new_pis.end_ebn.0)
                        > steps@[i].prev_pis.end_ebn.0
                // even the first step strictly advances a given chain
                &&& (withdraw_pis is Some ==> steps@[0].new_pis.end_ebn.0 > (
                withdraw_pis->0).end_ebn.0)
                // each step ends at its own transfer's order key, and the
                // consumed keys come in sorted order
                &&& forall|i: int|
                    0 <= i < steps@.len() ==> (#[trigger] steps@[i].new_pis.end_ebn.0)
                        == spec_info_ebn(&steps@[i].transfer_info)
                &&& forall|i: int, j: int|
                    0 <= i < j < steps@.len() ==> spec_info_ebn(&steps@[i].transfer_info)
                        <= spec_info_ebn(&steps@[j].transfer_info)
                // so the chain ends at the largest consumed order key
                &&& forall|i: int|
                    0 <= i < steps@.len() ==> spec_info_ebn(&(#[trigger] steps@[i]).transfer_info)
                        <= steps@[steps@.len() - 1].new_pis.end_ebn.0
                // the consumed claims are exactly the given ones
                &&& spec_claims(spec_step_infos(steps@)).to_multiset() == spec_claims(
                    transfer_info@,
                ).to_multiset()
            },
    {
        if transfer_info.len() == 0 {
            return Err(ZkpError::EmptyInput);
        }
        let root = block_tree.get_root();
        if !(block_tree_pis.block_root == root) {
            return Err(ZkpError::BlockRootMismatch);
        }
        let sorted = sort_by_ebn(transfer_info);
        let ghost ok = spec_batch_ok(block_tree, block_tree_pis, transfer_info@, withdraw_pis);
        let mut steps: Vec<WithdrawValue> = Vec::new();
        let mut cur_pis: WithdrawPublicInputs;
        let mut is_first: bool;
        match withdraw_pis {
            Some(p) => {
                cur_pis = WithdrawPublicInputs {
                    recipient: p.recipient,
                    total_amount: p.total_amount,
                    start_ebn: p.start_ebn,
                    end_ebn: p.end_ebn,
                    block: p.block,
                };
                proof {
                    assert(cur_pis == withdraw_pis->0);
                }
                is_first = false;
            },
            None => {
                cur_pis = WithdrawPublicInputs::initial(sorted[0].transfer.recipient);
                is_first = true;
            },
        }
        proof {
            if ok {
                // the chain starts on the batch's one recipient, at a block
                // that sits in the log, with the base totals
                if withdraw_pis is None {
                    let j0 = lemma_batch_member(sorted@, transfer_info@, 0);
                    assert(sorted@[0].transfer == transfer_info@[j0].transfer);
                    assert(cur_pis.recipient.0@ == transfer_info@[0].transfer.recipient.0@);
                    crate::block::lemma_genesis_fields();
                    assert(cur_pis.block.spec_hash() == Block::spec_genesis().spec_hash());
                    assert(spec_block_in_log(block_tree, &cur_pis.block));
                }
                assert forall|k: int| 0 <= k < 4 implies cur_pis.total_amount.as_nats()[k]
                    == spec_base_total(withdraw_pis, k) + crate::transfer::spec_total_amount(
                    spec_batch_transfers(sorted@).take(0),
                    k,
                ) by {
                    assert(spec_batch_transfers(sorted@).take(0)
                        =~= Seq::<Transfer>::empty());
                }
            }
        }
        let mut i: usize = 0;
        while i < sorted.len()
            invariant
                block_tree.wf(),
                block_tree.spec_height() == BLOCK_TREE_HEIGHT as int,
                block_tree_pis.block_root.0@ == block_tree.spec_root(),
                sorted@.len() == transfer_info@.len(),
                forall|a: int|
                    0 <= a < sorted@.len() ==> (#[trigger] sorted@[a]).transfer_index
                        < 0x1_0000_0000 && sorted@[a].transfer.asset.asset_id < 4,
                i <= sorted@.len(),
                steps@.len() == i,
                i > 0 ==> cur_pis == steps@[i - 1].new_pis,
                i == 0 ==> (withdraw_pis is Some ==> cur_pis == withdraw_pis->0 && !is_first),
                i == 0 ==> (withdraw_pis is None ==> is_first),
                i > 0 ==> !is_first,
                steps@.len() > 0 ==> (withdraw_pis is Some ==> steps@[0].prev_pis == withdraw_pis->0
                    && !steps@[0].is_first_step),
                steps@.len() > 0 ==> (withdraw_pis is None ==> steps@[0].is_first_step),
                forall|a: int|
                    1 <= a < steps@.len() ==> (#[trigger] steps@[a]).prev_pis == steps@[a
                        - 1].new_pis && !steps@[a].is_first_step,
                forall|a: int, k: int|
                    0 <= a < steps@.len() && 0 <= k < 4
                        ==> (#[trigger] steps@[a].new_pis.total_amount.as_nats()[k])
                        == steps@[a].prev_pis.total_amount.as_nats()[k]
                        + WithdrawValue::spec_contribution(&steps@[a].transfer_info, k),
                forall|a: int|
                    1 <= a < steps@.len() ==> (#[trigger] steps@[a].new_pis.end_ebn.0)
                        > steps@[a].prev_pis.end_ebn.0,
                steps@.len() > 0 && withdraw_pis is Some ==> steps@[0].new_pis.end_ebn.0 > (
                withdraw_pis->0).end_ebn.0,
                forall|a: int|
                    0 <= a < steps@.len() ==> (#[trigger] steps@[a].new_pis.end_ebn.0)
                        == spec_info_ebn(&steps@[a].transfer_info),
                forall|a: int|
                    0 <= a < steps@.len() ==> spec_claim(&(#[trigger] steps@[a]).transfer_info)
                        == spec_claim(&sorted@[a]),
                forall|a: int, b: int|
                    0 <= a < b < sorted@.len() ==> spec_info_ebn(&sorted@[a]) <= spec_info_ebn(
                        &sorted@[b],
                    ),
                i > 0 ==> cur_pis.end_ebn.0 == spec_info_ebn(&sorted@[i - 1]),
                ok == spec_batch_ok(block_tree, block_tree_pis, transfer_info@, withdraw_pis),
                spec_claims(sorted@).to_multiset() == spec_claims(transfer_info@).to_multiset(),
                spec_batch_transfers(sorted@).to_multiset() == spec_batch_transfers(
                    transfer_info@,
                ).to_multiset(),
                is_first ==> forall|k: int| 0 <= k < 4 ==> cur_pis.total_amount.as_nats()[k] == 0,
                ok ==> cur_pis.recipient.0@ == transfer_info@[0].transfer.recipient.0@,
                ok ==> spec_block_in_log(block_tree, &cur_pis.block),
                ok ==> forall|k: int|
                    0 <= k < 4 ==> cur_pis.total_amount.as_nats()[k] == spec_base_total(
                        withdraw_pis,
                        k,
                    ) + crate::transfer::spec_total_amount(
                        spec_batch_transfers(sorted@).take(i as int),
                        k,
                    ),
            decreases sorted@.len() - i,
        {
            let info = sorted[i].duplicate();
            proof {
                assert(sorted@[i as int].transfer_index < 0x1_0000_0000);
            }
            let prev_bn = cur_pis.block.block_number;
            let transfer_bn = info.block.block_number;
            proof {
                assert(pow2(32) == 0x1_0000_0000) by {
                    vstd::arithmetic::power2::lemma2_to64();
                }
            }
            let proof_prev = block_tree.prove(prev_bn as usize);
            let proof_transfer = block_tree.prove(transfer_bn as usize);
            let ghost ginfo = info;
            let ghost gpp = proof_prev;
            let ghost gpt = proof_transfer;
            let ghost gcur = cur_pis;
            let step = match WithdrawValue::new(
                is_first,
                cur_pis,
                info,
                block_tree_pis,
                proof_prev,
                proof_transfer,
            ) {
                Ok(v) => v,
                Err(e) => {
                    proof {
                        if ok {
                            // under the batch hypotheses every step is
                            // accepted, so this exit is unreachable
                            lemma_batch_step_accepted(
                                block_tree,
                                block_tree_pis,
                                transfer_info@,
                                *withdraw_pis,
                                sorted@,
                                i as int,
                                is_first,
                                gcur,
                                ginfo,
                                gpp,
                                gpt,
                            );
                            assert(false);
                        }
                    }
                    return Err(e);
                },
            };
            cur_pis = WithdrawPublicInputs {
                recipient: step.new_pis.recipient,
                total_amount: step.new_pis.total_amount,
                start_ebn: step.new_pis.start_ebn,
                end_ebn: step.new_pis.end_ebn,
                block: step.new_pis.block,
            };
            proof {
                assert(cur_pis == step.new_pis);
                assert(spec_claim(&step.transfer_info) == spec_claim(&sorted@[i as int]));
                assert(step.new_pis.end_ebn.0 == spec_info_ebn(&step.transfer_info));
                if !step.is_first_step {
                    assert(step.new_pis.end_ebn.0 > step.prev_pis.end_ebn.0);
                }
                if ok {
                    assert(step.new_pis.block == block_tree_pis.block);
                    assert(spec_block_in_log(block_tree, &cur_pis.block));
                    assert forall|k: int| 0 <= k < 4 implies cur_pis.total_amount.as_nats()[k]
                        == spec_base_total(withdraw_pis, k)
                        + crate::transfer::spec_total_amount(
                        spec_batch_transfers(sorted@).take(i + 1),
                        k,
                    ) by {
                        let tr = spec_batch_transfers(sorted@);
                        crate::transfer::lemma_total_amount_step(tr, i as int);
                        assert(tr[i as int] == sorted@[i as int].transfer);
                        assert(cur_pis.total_amount.as_nats()[k]
                            == gcur.total_amount.as_nats()[k]
                            + WithdrawValue::spec_contribution(&step.transfer_info, k));
                        assert(WithdrawValue::spec_contribution(&step.transfer_info, k)
                            == if tr[i as int].asset.asset_id == k {
                            tr[i as int].asset.amount.as_nat() as int
                        } else {
                            0
                        });
                    }
                }
            }
            steps.push(step);
            is_first = false;
            i = i + 1;
        }
        proof {
            assert(spec_claims(spec_step_infos(steps@)) =~= spec_claims(sorted@));
            assert forall|a: int, b: int|
                0 <= a < b < steps@.len() implies spec_info_ebn(
                &(#[trigger] steps@[a]).transfer_info,
            ) <= spec_info_ebn(&(#[trigger] steps@[b]).transfer_info) by {
                assert(spec_claim(&steps@[a].transfer_info) == spec_claim(&sorted@[a]));
                assert(spec_claim(&steps@[b].transfer_info) == spec_claim(&sorted@[b]));
            }
            let last = steps@.len() - 1;
            assert forall|a: int|
                0 <= a < steps@.len() implies spec_info_ebn(
                &(#[trigger] steps@[a]).transfer_info,
            ) <= steps@[last].new_pis.end_ebn.0 by {
                assert(steps@[last].new_pis.end_ebn.0 == spec_info_ebn(
                    &steps@[last].transfer_info,
                ));
                if a < last {
                    assert(spec_info_ebn(&steps@[a].transfer_info) <= spec_info_ebn(
                        &steps@[last].transfer_info,
                    ));
                }
            }
        }
        Ok(steps)
    }

    /// Validate a withdrawal claim and its evidence against the pinned
    /// snapshot before building the settlement leaf.
    pub fn validate(
        &self,
        block_tree_snapshot: &MerkleTreeWithLeaves<Block>,
        withdraw_pis: &WithdrawPublicInputs,
        evidence_transfer_info: &TransferInfo,
    ) -> (r: Result<(), ZkpError>)
        requires
            block_tree_snapshot.wf(),
        ensures
            r is Ok <==> {
                &&& self.block_root is Some
                &&& (self.block_root->0).0@ == block_tree_snapshot.spec_root()
                &&& (withdraw_pis.block.block_number as int)
                    < block_tree_snapshot.leaves_view().len()
                &&& (evidence_transfer_info.block.block_number as int)
                    < block_tree_snapshot.leaves_view().len()
                &&& evidence_transfer_info.spec_valid()
            },
            self.block_root is None ==> r == Result::<(), ZkpError>::Err(ZkpError::NotInitialized),
            self.block_root is Some && (self.block_root->0).0@ != block_tree_snapshot.spec_root()
                ==> r == Result::<(), ZkpError>::Err(ZkpError::SnapshotModified),
    {
        let pinned = match &self.block_root {
            Some(d) => *d,
            None => {
                return Err(ZkpError::NotInitialized);
            },
        };
        let root = block_tree_snapshot.get_root();
        if !(pinned == root) {
            return Err(ZkpError::SnapshotModified);
        }
        let len = block_tree_snapshot.len();
        if len == 0 {
            return Err(ZkpError::SnapshotTooOld);
        }
        if !(withdraw_pis.block.block_number as usize <= len - 1) {
            return Err(ZkpError::SnapshotTooOld);
        }
        if !(evidence_transfer_info.block.block_number as usize <= len - 1) {
            return Err(ZkpError::SnapshotTooOld);
        }
        match evidence_transfer_info.verify() {
            Ok(u) => u,
            Err(e) => {
                return Err(e);
            },
        }
        Ok(())
    }

    /// Validate and ingest one settlement leaf into the batch tree: the
    /// withdrawal claim's fields coupled with the evidence, both bound to
    /// the pinned root. Success is owed whenever validation passes and
    /// both referenced blocks really sit in the snapshot. Returns the
    /// leaf and the number of level pairs it completed, for the proving
    /// driver.
    pub fn add(
        &mut self,
        block_tree_snapshot: &MerkleTreeWithLeaves<Block>,
        withdraw_pis: &WithdrawPublicInputs,
        evidence_transfer_info: &TransferInfo,
    ) -> (r: Result<(SettlementLeaf, usize), ZkpError>)
        requires
            old(self).wf(),
            block_tree_snapshot.wf(),
            block_tree_snapshot.spec_height() == BLOCK_TREE_HEIGHT as int,
            evidence_transfer_info.transfer_index < 0x1_0000_0000,
        ensures
            final(self).wf(),
            ({
                &&& old(self).block_root is Some
                &&& (old(self).block_root->0).0@ == block_tree_snapshot.spec_root()
                &&& evidence_transfer_info.spec_valid()
                &&& spec_block_in_log(block_tree_snapshot, &withdraw_pis.block)
                &&& spec_block_in_log(block_tree_snapshot, &evidence_transfer_info.block)
            }) ==> r is Ok,
            r is Ok ==> {
                let leaf = (r->Ok_0).0;
                &&& leaf.withdraw_leaf.recipient.0@ == withdraw_pis.recipient.0@
                &&& leaf.withdraw_leaf.amount == withdraw_pis.total_amount
                &&& leaf.withdraw_leaf.start_ebn.0 == withdraw_pis.start_ebn.0
                &&& leaf.withdraw_leaf.end_ebn.0 == withdraw_pis.end_ebn.0
                &&& leaf.evidence_leaf.ebn.0 == (
                evidence_transfer_info.block.block_number as int) * 0x1_0000_0000
                    + evidence_transfer_info.transfer_index as int
            },
            r is Ok ==> final(self).settlement_tree_processor.leaves@ == old(
                self,
            ).settlement_tree_processor.leaves@.push(r->Ok_0.0),
            r is Err ==> final(self).settlement_tree_processor.leaves@ == old(
                self,
            ).settlement_tree_processor.leaves@,
    {
        match self.validate(block_tree_snapshot, withdraw_pis, evidence_transfer_info) {
            Ok(u) => u,
            Err(e) => {
                return Err(e);
            },
        }
        let block_root = block_tree_snapshot.get_root();
        proof {
            assert(pow2(32) == 0x1_0000_0000) by {
                vstd::arithmetic::power2::lemma2_to64();
            }
        }
        let proof_withdraw = block_tree_snapshot.prove(withdraw_pis.block.block_number as usize);
        let proof_evidence = block_tree_snapshot.prove(
            evidence_transfer_info.block.block_number as usize,
        );
        proof {
            // a block that sits in the snapshot folds to its root along
            // the freshly produced path
            let lv = block_tree_snapshot.leaves_view();
            let a = block_tree_snapshot.merkle_tree.assignment@;
            if spec_block_in_log(block_tree_snapshot, &withdraw_pis.block) {
                let bn = withdraw_pis.block.block_number as int;
                assert(a.update(bn, withdraw_pis.block.spec_hash()) =~= a);
                assert(crate::merkle_tree::merkle_fold(
                    withdraw_pis.block.spec_hash(),
                    proof_withdraw.0.views(),
                    bn,
                ) == block_root.0@);
            }
            if spec_block_in_log(block_tree_snapshot, &evidence_transfer_info.block) {
                let bn = evidence_transfer_info.block.block_number as int;
                assert(a.update(bn, evidence_transfer_info.block.spec_hash()) =~= a);
                assert(crate::merkle_tree::merkle_fold(
                    evidence_transfer_info.block.spec_hash(),
                    proof_evidence.0.views(),
                    bn,
                ) == block_root.0@);
            }
        }
        let leaf = match SettlementLeaf::new(
            withdraw_pis,
            &block_root,
            &proof_withdraw,
            &proof_evidence,
            evidence_transfer_info,
        ) {
            Ok(l) => l,
            Err(e) => {
                return Err(e);
            },
        };
        let merges = self.settlement_tree_processor.add(leaf);
        Ok((leaf, merges))
    }

    /// An owned copy of the settlement leaves added so far.
    pub fn get(&self) -> (r: Vec<SettlementLeaf>)
        ensures
            r@ == self.settlement_tree_processor.leaves@,
    {
        self.settlement_tree_processor.get()
    }

    /// Close the settlement cycle: clear the pinned root and roll the
    /// batch tree up. With no leaves there is nothing to produce.
    pub fn finalize(&mut self) -> (r: Option<
        (crate::h256::H256, Vec<SettlementMerkleProof>),
    >)
        requires
            old(self).wf(),
        ensures
            final(self).wf(),
            final(self).block_root is None,
            final(self).settlement_tree_processor.leaves@ == old(
                self,
            ).settlement_tree_processor.leaves@,
            r is Some <==> old(self).settlement_tree_processor.leaves@.len() > 0,
            r is Some ==> (r->0).0.0@ == crate::tree_processor::roll_up(
                old(self).settlement_tree_processor.leaf_hashes(),
                old(self).settlement_tree_processor.leaf_hashes()[0],
            ),
            r is Some ==> (r->0).1@.len() == old(self).settlement_tree_processor.leaves@.len(),
            r is Some ==> forall|i: int|
                0 <= i < (r->0).1@.len() ==> ((#[trigger] (r->0).1@[i]).index == i && (
                r->0).1@[i].leaf == old(self).settlement_tree_processor.leaves@[i]
                    && crate::tree_processor::dyn_fold(
                    old(self).settlement_tree_processor.leaves@[i].spec_dyn_hash(),
                    (r->0).1@[i].views(),
                    i,
                ) == (r->0).0.0@),
    {
        self.block_root = None;
        self.settlement_tree_processor.finalize()
    }
}

} // verus!
