//! Plain request and response shapes of the orchestration surface. The
//! marshalling itself (JSON, transport) lives outside; these carry the
//! values the library works on.

use vstd::prelude::*;

use crate::asset::Assets;
use crate::block::Block;
use crate::digest::Digest;
use crate::serialized_proof::SerializedProof;
use crate::serialized_transfer_info::SerializedTransferInfo;
use crate::settlement_processor::SettlementMerkleProof;
use crate::transfer::Transfer;
use crate::withdraw_circuit::WithdrawPublicInputs;
use crate::wrap::WrapPublicInputs;

verus! {

/// A finished outer proof with its public instance values, both in string
/// form for external verifiers.
pub struct ProofResult {
    pub proof: String,
    pub instance: Vec<String>,
}

/// Request to produce the next block from a transfer batch and a deposit.
pub struct GenerateBlockInput {
    pub transfers: Vec<Transfer>,
    pub deposit: Assets,
}

/// Request to advance the pipeline by one proven block.
pub struct TickInput {
    pub spent_proof: SerializedProof,
}

/// Request to extend a withdrawal chain.
pub struct AppendToProofInput {
    pub transfer_info: Vec<SerializedTransferInfo>,
    pub withdraw_proof: Option<SerializedProof>,
}

/// Outcome of extending a withdrawal chain.
pub struct AppendToProofOutput {
    pub withdraw_pis: WithdrawPublicInputs,
    pub withdraw_proof: SerializedProof,
}

/// Request to ingest one settlement leaf.
pub struct AddInput {
    pub withdraw_proof: SerializedProof,
    pub evidence_transfer_info: SerializedTransferInfo,
}

/// Request to replay externally held blocks against an attested root.
pub struct SyncBlockTreeInput {
    pub blocks: Vec<Block>,
    pub expected_block_root: Digest,
}

/// Outcome of closing a settlement cycle; all empty where no leaves were
/// ever added.
pub struct FinalizeOutput {
    pub wrap_public_inputs: Option<WrapPublicInputs>,
    pub settlement_merkle_proofs: Option<Vec<SettlementMerkleProof>>,
    pub wrap_proof: Option<SerializedProof>,
}

} // verus!
