//! The data that a batch proof speaks of, in the clear.

pub mod tree_batch;
