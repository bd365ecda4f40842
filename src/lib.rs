//! A binary Merkle hash tree over a sequence of integers, and inclusion
//! proofs for its leaves, with contracts proved by Verus.

pub mod hash;
pub mod hex;
pub mod tree;
pub mod inclusion;
pub mod laws;
