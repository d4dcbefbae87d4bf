//! Core of a layered proof-of-replication scheme: deterministic
//! depth-robust graph generation, per-node column commitments over the
//! encoded layers, and the assembly of vanilla replication proofs into
//! the positional public-input and witness vectors consumed by an
//! external succinct-proof backend.

pub mod column;
pub mod compound;
pub mod domain;
pub mod error;
pub mod graph;
pub mod layered;
pub mod pedersen;
pub mod tree;
