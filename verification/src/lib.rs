//! Batched append proofs for a fixed-depth Poseidon Merkle accumulator.
//!
//! The crate evaluates, in the clear, the predicate that a batch of leaves
//! was appended to the accumulator at consecutive free positions, and proves
//! how its parts relate to a mathematical model of the tree.

pub mod accumulator;
pub mod bits;
pub mod circuit;
pub mod constants;
pub mod field;
pub mod ladder;
pub mod laws;
pub mod native;
pub mod poseidon;
