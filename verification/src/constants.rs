//! The structural constants of the accumulator.

use vstd::prelude::*;

verus! {

/// Height of the whole accumulator.
pub const HEIGHT: usize = 48;

/// Height of the inner sub-tree that one leaf of the batched tree stands for.
pub const OUTPLUSONELOG: usize = 7;

/// Depth of the tree that batches are appended to, and so the length of
/// every inclusion proof.
pub const DEPTH: usize = HEIGHT - OUTPLUSONELOG;

/// Number of leaves that one batch appends.
pub const BATCH_SIZE: usize = 8;

} // verus!
