//! The predicates that the proof system enforces, evaluated on plain values.

pub mod tree_batch;
