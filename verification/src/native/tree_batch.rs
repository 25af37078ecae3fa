//! The public and the private part of a batch append.

use crate::constants::BATCH_SIZE;
use crate::field::Num;
use crate::poseidon::values;
use crate::poseidon::MerkleProof;
use crate::poseidon::MerkleProofView;
use vstd::prelude::*;

verus! {

/// What the verifier sees of a batch append.
#[derive(Clone, Copy, Debug)]
pub struct TreeBatchPub {
    /// Root of the tree before the batch.
    pub root_before: Num,
    /// Root of the tree after the batch.
    pub root_after: Num,
    /// The new leaves, in the order in which they are appended.
    pub leafs: [Num; BATCH_SIZE],
}

/// What only the prover knows of a batch append.
#[derive(Clone, Copy, Debug)]
pub struct TreeBatchSec {
    /// Inclusion proof of the last occupied leaf.
    pub proof_filled: MerkleProof,
    /// Inclusion proof of the first free leaf.
    pub proof_free: MerkleProof,
    /// Value of the last occupied leaf.
    pub prev_leaf: Num,
}

/// The public part as mathematical values.
pub ghost struct TreeBatchPubView {
    pub root_before: nat,
    pub root_after: nat,
    pub leafs: Seq<nat>,
}

/// The private part as mathematical values.
pub ghost struct TreeBatchSecView {
    pub proof_filled: MerkleProofView,
    pub proof_free: MerkleProofView,
    pub prev_leaf: nat,
}

impl View for TreeBatchPub {
    type V = TreeBatchPubView;

    open spec fn view(&self) -> TreeBatchPubView {
        TreeBatchPubView {
            root_before: self.root_before@,
            root_after: self.root_after@,
            leafs: values(self.leafs@),
        }
    }
}

impl View for TreeBatchSec {
    type V = TreeBatchSecView;

    open spec fn view(&self) -> TreeBatchSecView {
        TreeBatchSecView {
            proof_filled: self.proof_filled@,
            proof_free: self.proof_free@,
            prev_leaf: self.prev_leaf@,
        }
    }
}

impl TreeBatchPub {
    /// Takes the public part from its values; `None` unless there is exactly
    /// one leaf for each place in the batch.
    pub fn new(root_before: Num, root_after: Num, leafs: &[Num]) -> (public: Option<TreeBatchPub>)
        ensures
            public.is_some() <==> leafs@.len() == BATCH_SIZE,
            public matches Some(p) ==> p.root_before == root_before && p.root_after == root_after
                && p.leafs@ == leafs@,
    {
        if leafs.len() != BATCH_SIZE {
            return None;
        }
        let mut batch = [Num::zero();BATCH_SIZE];
        let mut at: usize = 0;
        while at < BATCH_SIZE
            invariant
                at <= BATCH_SIZE,
                leafs@.len() == BATCH_SIZE,
                forall|i: int| 0 <= i < at ==> batch@[i] == leafs@[i],
            decreases BATCH_SIZE - at,
        {
            batch[at] = leafs[at];
            at = at + 1;
        }
        assert(batch@ =~= leafs@);
        Some(TreeBatchPub { root_before, root_after, leafs: batch })
    }
}

} // verus!
