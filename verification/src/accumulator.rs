//! A mathematical model of the append-only accumulator.
//!
//! The state of the accumulator is the sequence of the leaves appended so
//! far. Every leaf beyond them holds the empty value. The model says what
//! each node of the tree is, and so what the root and the inclusion proofs
//! are; the batch algorithm is proved against it.

use crate::bits::index_path;
use crate::bits::lemma_node_index_top;
use crate::bits::node_index;
use crate::ladder::ladder;
use crate::poseidon::climb;
use crate::poseidon::merkle_root;
use crate::poseidon::poseidon_compress;
use crate::poseidon::MerkleProofView;
use vstd::arithmetic::power2::pow2;
use vstd::prelude::*;

verus! {

/// The value of the leaf at `index`.
pub open spec fn leaf_at(leaves: Seq<nat>, empty: nat, index: nat) -> nat {
    if index < leaves.len() {
        leaves[index as int]
    } else {
        empty
    }
}

/// The value of the node at `position` of `level`, counted from the leaves.
pub open spec fn node_at(leaves: Seq<nat>, empty: nat, level: nat, position: nat) -> nat
    decreases level,
{
    if level == 0 {
        leaf_at(leaves, empty, position)
    } else {
        let below = (level - 1) as nat;
        poseidon_compress(
            node_at(leaves, empty, below, 2 * position),
            node_at(leaves, empty, below, 2 * position + 1),
        )
    }
}

/// The root of the tree of the given depth.
pub open spec fn tree_root(leaves: Seq<nat>, empty: nat, depth: nat) -> nat {
    node_at(leaves, empty, depth, 0)
}

/// The position of the other child of a node's parent.
pub open spec fn sibling_position(position: nat) -> nat {
    if position % 2 == 1 {
        (position - 1) as nat
    } else {
        position + 1
    }
}

/// The siblings along the path of the leaf at `index`, from the leaf up.
pub open spec fn proof_siblings(leaves: Seq<nat>, empty: nat, depth: nat, index: nat) -> Seq<nat> {
    Seq::new(
        depth,
        |level: int|
            node_at(leaves, empty, level as nat, sibling_position(node_index(index, level as nat))),
    )
}

/// The inclusion proof of the leaf at `index`.
pub open spec fn proof_of(leaves: Seq<nat>, empty: nat, depth: nat, index: nat) -> MerkleProofView {
    MerkleProofView {
        sibling: proof_siblings(leaves, empty, depth, index),
        path: index_path(index, depth),
    }
}

/// A node is determined by the leaves below it.
pub proof fn lemma_node_of_leaves_below(
    one: Seq<nat>,
    other: Seq<nat>,
    empty: nat,
    level: nat,
    position: nat,
)
    requires
        forall|index: nat| #[trigger]
            node_index(index, level) == position ==> leaf_at(one, empty, index) == leaf_at(
                other,
                empty,
                index,
            ),
    ensures
        node_at(one, empty, level, position) == node_at(other, empty, level, position),
    decreases level,
{
    if level == 0 {
        assert(node_index(position, 0) == position);
    } else {
        let below = (level - 1) as nat;
        assert forall|index: nat| #[trigger]
            node_index(index, below) == 2 * position implies leaf_at(one, empty, index) == leaf_at(
            other,
            empty,
            index,
        ) by {
            assert(node_index(index, level) == position);
        }
        assert forall|index: nat| #[trigger]
            node_index(index, below) == 2 * position + 1 implies leaf_at(one, empty, index)
            == leaf_at(other, empty, index) by {
            assert(node_index(index, level) == position);
        }
        lemma_node_of_leaves_below(one, other, empty, below, 2 * position);
        lemma_node_of_leaves_below(one, other, empty, below, 2 * position + 1);
    }
}

/// In the accumulator that holds nothing, every node is an empty subtree.
pub proof fn lemma_node_of_nothing(empty: nat, level: nat, position: nat)
    ensures
        node_at(Seq::<nat>::empty(), empty, level, position) == ladder(empty, level),
    decreases level,
{
    if level > 0 {
        lemma_node_of_nothing(empty, (level - 1) as nat, 2 * position);
        lemma_node_of_nothing(empty, (level - 1) as nat, 2 * position + 1);
    }
}

/// A node with no appended leaf below it is an empty subtree.
pub proof fn lemma_node_beyond_leaves(leaves: Seq<nat>, empty: nat, level: nat, position: nat)
    requires
        forall|index: nat| #[trigger] node_index(index, level) == position ==> index >= leaves.len(),
    ensures
        node_at(leaves, empty, level, position) == ladder(empty, level),
{
    lemma_node_of_leaves_below(leaves, Seq::<nat>::empty(), empty, level, position);
    lemma_node_of_nothing(empty, level, position);
}

/// Climbing from a leaf with its inclusion proof passes through the nodes
/// above the leaf.
pub proof fn lemma_climb_reaches_node(
    leaves: Seq<nat>,
    empty: nat,
    depth: nat,
    index: nat,
    levels: nat,
)
    requires
        levels <= depth,
    ensures
        climb(
            leaf_at(leaves, empty, index),
            index_path(index, depth),
            proof_siblings(leaves, empty, depth, index),
            levels,
        ) == node_at(leaves, empty, levels, node_index(index, levels)),
    decreases levels,
{
    if levels > 0 {
        lemma_climb_reaches_node(leaves, empty, depth, index, (levels - 1) as nat);
    }
}

/// The inclusion proof of a leaf implies the root of the tree.
pub proof fn lemma_proof_implies_root(leaves: Seq<nat>, empty: nat, depth: nat, index: nat)
    requires
        index < pow2(depth),
    ensures
        merkle_root(
            leaf_at(leaves, empty, index),
            proof_of(leaves, empty, depth, index).path,
            proof_of(leaves, empty, depth, index).sibling,
        ) == tree_root(leaves, empty, depth),
{
    lemma_climb_reaches_node(leaves, empty, depth, index, depth);
    lemma_node_index_top(index, depth);
}

/// The siblings along the path of a leaf do not depend on that leaf.
pub proof fn lemma_siblings_without_leaf(
    one: Seq<nat>,
    other: Seq<nat>,
    empty: nat,
    depth: nat,
    index: nat,
)
    requires
        forall|i: nat| i != index ==> #[trigger] leaf_at(one, empty, i) == leaf_at(other, empty, i),
    ensures
        proof_siblings(one, empty, depth, index) == proof_siblings(other, empty, depth, index),
{
    assert forall|level: int| 0 <= level < depth implies proof_siblings(
        one,
        empty,
        depth,
        index,
    )[level] == proof_siblings(other, empty, depth, index)[level] by {
        let position = sibling_position(node_index(index, level as nat));
        lemma_node_of_leaves_below(one, other, empty, level as nat, position);
    }
    assert(proof_siblings(one, empty, depth, index) =~= proof_siblings(other, empty, depth, index));
}

/// Appending a leaf gives the root that the inclusion proof of the first
/// free leaf implies for the new leaf.
pub proof fn lemma_append_root(leaves: Seq<nat>, leaf: nat, empty: nat, depth: nat)
    requires
        leaves.len() < pow2(depth),
    ensures
        merkle_root(
            leaf,
            proof_of(leaves, empty, depth, leaves.len()).path,
            proof_of(leaves, empty, depth, leaves.len()).sibling,
        ) == tree_root(leaves.push(leaf), empty, depth),
{
    let index = leaves.len();
    lemma_siblings_without_leaf(leaves, leaves.push(leaf), empty, depth, index);
    lemma_proof_implies_root(leaves.push(leaf), empty, depth, index);
}

} // verus!
