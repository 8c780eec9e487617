//! Core state-transition and proof-bookkeeping logic of a layer-2 rollup:
//! fixed-width numeric types, Merkle tree engines, public-input encodings,
//! and the processors that drive per-block and per-settlement proof
//! construction. Circuit construction and proving are delegated to an
//! outside proving backend; everything value-level is verified here.

pub mod address;
pub mod asset;
pub mod block;
pub mod block_processor;
pub mod block_tree_circuit;
pub mod constants;
pub mod error;
pub mod evidence_leaf;
pub mod extended_block_number;
pub mod h256;
pub mod hashing;
pub mod io;
pub mod keylike;
pub mod merkle_tree;
pub mod merkle_tree_with_leaves;
pub mod digest;
pub mod serialized_proof;
pub mod serialized_transfer_info;
pub mod settlement_leaf;
pub mod settlement_processor;
pub mod spent_circuit;
pub mod strings;
pub mod transfer;
pub mod transfer_info;
pub mod tree_processor;
pub mod u256;
pub mod validity_circuit;
pub mod withdraw_circuit;
pub mod wrap;
pub mod withdraw_leaf;
