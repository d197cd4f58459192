//! A Merkle tree library.
//!
//! Builds a binary hash tree over an ordered sequence of byte records,
//! produces a compact membership proof (authentication path) for any record
//! by index, and verifies such a proof against a known root hash without
//! access to the full record set.
//!
//! Components:
//! - `hasher`: the SHA-256 digest primitive.
//! - `model`: the mathematical model of the tree and its root hash.
//! - `merkle_proof`: the proof value meant for transport.
//! - `prover`: tree construction and proof generation.
//! - `verification`: proof checking against a known root hash.

pub mod error;
pub mod hasher;
pub mod merkle_proof;
pub mod model;
pub mod prover;
pub mod verification;

pub use error::MerkleError;
pub use hasher::hash_data_sequences;
pub use merkle_proof::MerkleProof;
pub use prover::Prover;
pub use prover::MAX_DATA_SIZE;
pub use verification::Verifier;
