//! What holds of the batch predicate, stated against the model of the
//! accumulator and proved.

use crate::accumulator::leaf_at;
use crate::accumulator::lemma_append_root;
use crate::accumulator::lemma_climb_reaches_node;
use crate::accumulator::lemma_node_beyond_leaves;
use crate::accumulator::lemma_node_of_leaves_below;
use crate::accumulator::lemma_node_of_nothing;
use crate::accumulator::lemma_proof_implies_root;
use crate::accumulator::lemma_siblings_without_leaf;
use crate::accumulator::node_at;
use crate::accumulator::proof_of;
use crate::accumulator::proof_siblings;
use crate::accumulator::tree_root;
use crate::bits::bits_to_nat;
use crate::bits::index_path;
use crate::bits::lemma_bits_of_path;
use crate::bits::lemma_node_index_monotonic;
use crate::bits::lemma_node_index_successor;
use crate::bits::lemma_node_index_top;
use crate::bits::lemma_path_of_bits;
use crate::bits::node_index;
use crate::bits::path_bit;
use crate::circuit::tree_batch::append_valid;
use crate::circuit::tree_batch::batch_default_hashes;
use crate::circuit::tree_batch::batch_left_nodes;
use crate::circuit::tree_batch::batch_root;
use crate::circuit::tree_batch::batch_siblings;
use crate::circuit::tree_batch::left_nodes_after_insert;
use crate::circuit::tree_batch::root_before_consistent;
use crate::circuit::tree_batch::tree_batch_accepts;
use crate::circuit::tree_batch::zero_leaf;
use crate::circuit::tree_batch::zero_root;
use crate::constants::DEPTH;
use crate::constants::OUTPLUSONELOG;
use crate::ladder::is_ladder;
use crate::ladder::ladder;
use crate::ladder::lemma_ladder_continues;
use crate::native::tree_batch::TreeBatchPubView;
use crate::native::tree_batch::TreeBatchSecView;
use crate::poseidon::climb;
use crate::poseidon::merkle_root;
use crate::poseidon::poseidon_compress;
use crate::poseidon::MerkleProofView;
use vstd::arithmetic::power2::pow2;
use vstd::prelude::*;

verus! {

/// Whether `default_hashes` holds, for each level of a tree of the given
/// depth, the empty subtree over the empty leaf.
pub open spec fn holds_empty_subtrees(default_hashes: Seq<nat>, empty: nat, depth: nat) -> bool {
    &&& default_hashes.len() >= depth
    &&& forall|level: int| 0 <= level < depth ==> default_hashes[level] == ladder(empty, level as nat)
}

/// The siblings that the batch algorithm uses for the next free leaf are
/// those of its inclusion proof, as long as the left nodes it keeps are the
/// left siblings along that leaf's path.
proof fn lemma_batch_siblings_are_proof(
    leaves: Seq<nat>,
    empty: nat,
    depth: nat,
    left_nodes: Seq<nat>,
    default_hashes: Seq<nat>,
)
    requires
        holds_empty_subtrees(default_hashes, empty, depth),
        keeps_left_siblings(leaves, empty, depth, left_nodes),
    ensures
        batch_siblings(leaves.len(), left_nodes, default_hashes) == proof_siblings(
            leaves,
            empty,
            depth,
            leaves.len(),
        ),
{
    let index = leaves.len();
    let used = batch_siblings(index, left_nodes, default_hashes);
    let proved = proof_siblings(leaves, empty, depth, index);
    assert forall|level: int| 0 <= level < depth implies used[level] == proved[level] by {
        let position = node_index(index, level as nat);
        if !path_bit(index, level as nat) {
            assert forall|i: nat| #[trigger]
                node_index(i, level as nat) == position + 1 implies i >= index by {
                if i < index {
                    lemma_node_index_monotonic(i, index, level as nat);
                }
            }
            lemma_node_beyond_leaves(leaves, empty, level as nat, position + 1);
        }
    }
    assert(used =~= proved);
}

/// Whether `left_nodes` holds, at each level where the path of the first
/// free leaf turns right, the node to the left of that path.
pub open spec fn keeps_left_siblings(
    leaves: Seq<nat>,
    empty: nat,
    depth: nat,
    left_nodes: Seq<nat>,
) -> bool {
    &&& left_nodes.len() == depth
    &&& forall|level: int|
        0 <= level < depth && path_bit(leaves.len(), level as nat) ==> left_nodes[level] == node_at(
            leaves,
            empty,
            level as nat,
            (node_index(leaves.len(), level as nat) - 1) as nat,
        )
}

/// Appending one leaf keeps the left nodes in step with the tree.
proof fn lemma_left_nodes_step(
    leaves: Seq<nat>,
    leaf: nat,
    empty: nat,
    depth: nat,
    left_nodes: Seq<nat>,
    default_hashes: Seq<nat>,
)
    requires
        holds_empty_subtrees(default_hashes, empty, depth),
        keeps_left_siblings(leaves, empty, depth, left_nodes),
    ensures
        keeps_left_siblings(
            leaves.push(leaf),
            empty,
            depth,
            left_nodes_after_insert(leaf, leaves.len(), left_nodes, default_hashes),
        ),
{
    let index = leaves.len();
    let grown = leaves.push(leaf);
    let after = left_nodes_after_insert(leaf, index, left_nodes, default_hashes);
    let path = index_path(index, depth);
    let sibling = batch_siblings(index, left_nodes, default_hashes);
    lemma_batch_siblings_are_proof(leaves, empty, depth, left_nodes, default_hashes);
    lemma_siblings_without_leaf(leaves, grown, empty, depth, index);
    assert forall|level: int| 0 <= level < depth && path_bit(grown.len(), level as nat) implies
        after[level] == node_at(
        grown,
        empty,
        level as nat,
        (node_index(grown.len(), level as nat) - 1) as nat,
    ) by {
        let position = node_index(index, level as nat);
        lemma_node_index_successor(index, level as nat);
        if node_index(index + 1, level as nat) == position {
            // The path of the next leaf turns right where this one did: the
            // left sibling holds earlier leaves only.
            assert(path_bit(index, level as nat));
            assert forall|i: nat| #[trigger]
                node_index(i, level as nat) == position - 1 implies leaf_at(leaves, empty, i)
                == leaf_at(grown, empty, i) by {
                if i >= index {
                    lemma_node_index_monotonic(index, i, level as nat);
                }
            }
            lemma_node_of_leaves_below(
                leaves,
                grown,
                empty,
                level as nat,
                (position - 1) as nat,
            );
        } else {
            // The path of the next leaf has moved one node on: the node just
            // computed is now its left sibling.
            assert(!path_bit(index, level as nat));
            lemma_climb_reaches_node(grown, empty, depth, index, level as nat);
            assert(after[level] == climb(leaf, path, sibling, level as nat));
        }
    }
}

/// After any number of leaves of a batch, the left nodes are in step with
/// the tree that holds the leaves so far.
proof fn lemma_batch_keeps_left_siblings(
    leaves: Seq<nat>,
    leafs: Seq<nat>,
    empty: nat,
    depth: nat,
    default_hashes: Seq<nat>,
    count: nat,
)
    requires
        holds_empty_subtrees(default_hashes, empty, depth),
        count <= leafs.len(),
    ensures
        keeps_left_siblings(
            leaves + leafs.take(count as int),
            empty,
            depth,
            batch_left_nodes(
                leafs,
                leaves.len(),
                proof_siblings(leaves, empty, depth, leaves.len()),
                default_hashes,
                count,
            ),
        ),
    decreases count,
{
    if count == 0 {
        assert(leaves + leafs.take(0) =~= leaves);
        let index = leaves.len();
        assert forall|level: int| 0 <= level < depth && path_bit(index, level as nat) implies
            proof_siblings(leaves, empty, depth, index)[level] == node_at(
            leaves,
            empty,
            level as nat,
            (node_index(index, level as nat) - 1) as nat,
        ) by {}
    } else {
        let before = (count - 1) as nat;
        lemma_batch_keeps_left_siblings(leaves, leafs, empty, depth, default_hashes, before);
        let so_far = leaves + leafs.take(before as int);
        assert(so_far.push(leafs[before as int]) =~= leaves + leafs.take(count as int));
        lemma_left_nodes_step(
            so_far,
            leafs[before as int],
            empty,
            depth,
            batch_left_nodes(
                leafs,
                leaves.len(),
                proof_siblings(leaves, empty, depth, leaves.len()),
                default_hashes,
                before,
            ),
            default_hashes,
        );
    }
}

/// The batch algorithm, started from the inclusion proof of the first free
/// leaf, computes the root of the tree that holds the batch after the
/// leaves that were there.
pub proof fn lemma_batch_root_is_tree_root(
    leaves: Seq<nat>,
    leafs: Seq<nat>,
    empty: nat,
    depth: nat,
    default_hashes: Seq<nat>,
)
    requires
        holds_empty_subtrees(default_hashes, empty, depth),
        leafs.len() >= 1,
        leaves.len() + leafs.len() <= pow2(depth),
    ensures
        batch_root(
            leafs,
            leaves.len(),
            proof_siblings(leaves, empty, depth, leaves.len()),
            default_hashes,
        ) == tree_root(leaves + leafs, empty, depth),
{
    let before = (leafs.len() - 1) as nat;
    let so_far = leaves + leafs.take(before as int);
    let left_nodes = batch_left_nodes(
        leafs,
        leaves.len(),
        proof_siblings(leaves, empty, depth, leaves.len()),
        default_hashes,
        before,
    );
    lemma_batch_keeps_left_siblings(leaves, leafs, empty, depth, default_hashes, before);
    lemma_batch_siblings_are_proof(so_far, empty, depth, left_nodes, default_hashes);
    lemma_append_root(so_far, leafs[before as int], empty, depth);
    assert(so_far.push(leafs[before as int]) =~= leaves + leafs);
}

/// Appending a single leaf with the batch algorithm gives the root that the
/// inclusion proof of the insertion point implies for that leaf, whenever
/// the proof's siblings to the right of the path are empty subtrees, as they
/// are at the first free leaf of an append-only tree.
pub proof fn lemma_single_leaf_batch(leaf: nat, proof: MerkleProofView, default_hashes: Seq<nat>)
    requires
        proof.sibling.len() == proof.path.len(),
        forall|level: int|
            0 <= level < proof.path.len() && !proof.path[level] ==> proof.sibling[level]
                == default_hashes[level],
    ensures
        batch_root(seq![leaf], bits_to_nat(proof.path), proof.sibling, default_hashes)
            == merkle_root(leaf, proof.path, proof.sibling),
{
    let index = bits_to_nat(proof.path);
    lemma_path_of_bits(proof.path);
    assert(batch_siblings(index, proof.sibling, default_hashes) =~= proof.sibling);
    assert(batch_left_nodes(seq![leaf], index, proof.sibling, default_hashes, 0) == proof.sibling);
}

/// Appending a single leaf with the batch algorithm, from the inclusion
/// proof of the first free leaf, gives the root of the tree with that leaf
/// in place.
pub proof fn lemma_single_leaf_batch_is_append(
    leaves: Seq<nat>,
    leaf: nat,
    empty: nat,
    depth: nat,
    default_hashes: Seq<nat>,
)
    requires
        holds_empty_subtrees(default_hashes, empty, depth),
        leaves.len() < pow2(depth),
    ensures
        batch_root(
            seq![leaf],
            leaves.len(),
            proof_siblings(leaves, empty, depth, leaves.len()),
            default_hashes,
        ) == merkle_root(
            leaf,
            proof_of(leaves, empty, depth, leaves.len()).path,
            proof_of(leaves, empty, depth, leaves.len()).sibling,
        ),
        batch_root(
            seq![leaf],
            leaves.len(),
            proof_siblings(leaves, empty, depth, leaves.len()),
            default_hashes,
        ) == tree_root(leaves.push(leaf), empty, depth),
{
    lemma_batch_root_is_tree_root(leaves, seq![leaf], empty, depth, default_hashes);
    lemma_append_root(leaves, leaf, empty, depth);
    assert(leaves + seq![leaf] =~= leaves.push(leaf));
}

/// The root after the leaves are appended one at a time, each with the
/// inclusion proof of the first free leaf of the tree as it then stands.
pub open spec fn sequential_root(leaves: Seq<nat>, leafs: Seq<nat>, empty: nat, depth: nat) -> nat
    decreases leafs.len(),
{
    let proof = proof_of(leaves, empty, depth, leaves.len());
    if leafs.len() <= 1 {
        merkle_root(leafs[0], proof.path, proof.sibling)
    } else {
        sequential_root(leaves.push(leafs[0]), leafs.skip(1), empty, depth)
    }
}

/// Appending leaves one at a time, with a fresh proof each time, ends at the
/// root of the tree that holds them all.
pub proof fn lemma_sequential_root_is_tree_root(
    leaves: Seq<nat>,
    leafs: Seq<nat>,
    empty: nat,
    depth: nat,
)
    requires
        leafs.len() >= 1,
        leaves.len() + leafs.len() <= pow2(depth),
    ensures
        sequential_root(leaves, leafs, empty, depth) == tree_root(leaves + leafs, empty, depth),
    decreases leafs.len(),
{
    if leafs.len() == 1 {
        lemma_append_root(leaves, leafs[0], empty, depth);
        assert(leaves.push(leafs[0]) =~= leaves + leafs);
    } else {
        lemma_sequential_root_is_tree_root(leaves.push(leafs[0]), leafs.skip(1), empty, depth);
        assert(leaves.push(leafs[0]) + leafs.skip(1) =~= leaves + leafs);
    }
}

/// One run of the batch algorithm over a batch gives the same root as
/// appending its leaves one at a time, each with a fresh proof of the first
/// free leaf. This holds for every batch of at least one leaf that the tree
/// has room for, and every state of the accumulator.
pub proof fn lemma_batch_equals_sequential(
    leaves: Seq<nat>,
    leafs: Seq<nat>,
    empty: nat,
    depth: nat,
    default_hashes: Seq<nat>,
)
    requires
        holds_empty_subtrees(default_hashes, empty, depth),
        leafs.len() >= 1,
        leaves.len() + leafs.len() <= pow2(depth),
    ensures
        batch_root(
            leafs,
            leaves.len(),
            proof_siblings(leaves, empty, depth, leaves.len()),
            default_hashes,
        ) == sequential_root(leaves, leafs, empty, depth),
{
    lemma_batch_root_is_tree_root(leaves, leafs, empty, depth, default_hashes);
    lemma_sequential_root_is_tree_root(leaves, leafs, empty, depth);
}

/// On the empty tree an append at index zero is valid, whatever the previous
/// leaf and its proof are.
pub proof fn lemma_empty_tree_accepted(
    prev_leaf: nat,
    proof_filled: MerkleProofView,
    proof_free: MerkleProofView,
    zero_leaf: nat,
    zero_root: nat,
)
    requires
        bits_to_nat(proof_free.path) == 0,
    ensures
        append_valid(prev_leaf, zero_root, proof_filled, proof_free, zero_leaf, zero_root),
{
}

/// On a tree whose root is not that of the empty tree, an insertion point
/// other than the one right after the previous leaf is not valid.
pub proof fn lemma_wrong_index_rejected(
    prev_leaf: nat,
    root_before: nat,
    proof_filled: MerkleProofView,
    proof_free: MerkleProofView,
    zero_leaf: nat,
    zero_root: nat,
)
    requires
        root_before != zero_root,
        bits_to_nat(proof_free.path) != bits_to_nat(proof_filled.path) + 1,
    ensures
        !append_valid(prev_leaf, root_before, proof_filled, proof_free, zero_leaf, zero_root),
{
}

/// A root that the proof of the insertion point does not imply for the
/// empty leaf fails the consistency check, and with it the whole predicate.
pub proof fn lemma_stale_root_rejected(public: TreeBatchPubView, secret: TreeBatchSecView)
    requires
        public.root_before != merkle_root(
            zero_leaf(),
            secret.proof_free.path,
            secret.proof_free.sibling,
        ),
    ensures
        !root_before_consistent(public.root_before, secret.proof_free, zero_leaf()),
        !tree_batch_accepts(public, secret),
{
}

/// The recurrence of the default-hash ladder has one solution: two ladders
/// of the same height are equal, entry by entry.
pub proof fn lemma_ladder_unique(one: Seq<nat>, other: Seq<nat>, height: nat)
    requires
        is_ladder(one, height),
        is_ladder(other, height),
    ensures
        one == other,
{
    lemma_ladder_prefix_unique(one, other, height, height);
    assert(one =~= other);
}

/// Two ladders agree up to any level.
proof fn lemma_ladder_prefix_unique(one: Seq<nat>, other: Seq<nat>, height: nat, upto: nat)
    requires
        is_ladder(one, height),
        is_ladder(other, height),
        upto <= height,
    ensures
        forall|level: int| 0 <= level <= upto ==> one[level] == other[level],
    decreases upto,
{
    if upto > 0 {
        lemma_ladder_prefix_unique(one, other, height, (upto - 1) as nat);
        let below = upto - 1;
        assert(one[below + 1] == other[below + 1]);
    }
}

/// The empty subtrees of the batched tree are the upper part of the ladder
/// of the whole accumulator.
pub proof fn lemma_batch_default_hashes()
    ensures
        holds_empty_subtrees(batch_default_hashes(), zero_leaf(), DEPTH as nat),
        tree_root(Seq::<nat>::empty(), zero_leaf(), DEPTH as nat) == zero_root(),
{
    assert forall|level: int| 0 <= level < DEPTH implies batch_default_hashes()[level] == ladder(
        zero_leaf(),
        level as nat,
    ) by {
        lemma_ladder_continues(0, OUTPLUSONELOG as nat, level as nat);
    }
    lemma_ladder_continues(0, OUTPLUSONELOG as nat, DEPTH as nat);
    lemma_node_of_nothing(zero_leaf(), DEPTH as nat, 0);
}

/// A batch that was appended as the accumulator prescribes is accepted: the
/// roots are those of the tree before and after the batch, the proofs are
/// those of the last occupied and the first free leaf, and the last occupied
/// leaf is not empty.
pub proof fn lemma_honest_append_accepted(
    leaves: Seq<nat>,
    public: TreeBatchPubView,
    secret: TreeBatchSecView,
)
    requires
        public.leafs.len() >= 1,
        leaves.len() + public.leafs.len() <= pow2(DEPTH as nat),
        public.root_before == tree_root(leaves, zero_leaf(), DEPTH as nat),
        public.root_after == tree_root(leaves + public.leafs, zero_leaf(), DEPTH as nat),
        secret.proof_free == proof_of(leaves, zero_leaf(), DEPTH as nat, leaves.len()),
        leaves.len() > 0 ==> secret.prev_leaf == leaves.last() && leaves.last() != zero_leaf()
            && secret.proof_filled == proof_of(
            leaves,
            zero_leaf(),
            DEPTH as nat,
            (leaves.len() - 1) as nat,
        ),
    ensures
        tree_batch_accepts(public, secret),
{
    let depth = DEPTH as nat;
    let free = leaves.len();
    lemma_batch_default_hashes();
    lemma_bits_of_path(free, depth);
    lemma_proof_implies_root(leaves, zero_leaf(), depth, free);
    lemma_batch_root_is_tree_root(leaves, public.leafs, zero_leaf(), depth, batch_default_hashes());
    if free > 0 {
        let filled = (free - 1) as nat;
        lemma_bits_of_path(filled, depth);
        lemma_proof_implies_root(leaves, zero_leaf(), depth, filled);
    } else {
        assert(leaves =~= Seq::<nat>::empty());
    }
}

/// Whether two different pairs of inputs have the same hash.
pub open spec fn collision_exists() -> bool {
    exists|a: nat, b: nat, c: nat, d: nat|
        (a != c || b != d) && #[trigger] poseidon_compress(a, b) == #[trigger] poseidon_compress(
            c,
            d,
        )
}

/// Without a collision, equal hashes have equal inputs.
proof fn lemma_equal_hashes(a: nat, b: nat, c: nat, d: nat)
    requires
        !collision_exists(),
        poseidon_compress(a, b) == poseidon_compress(c, d),
    ensures
        a == c,
        b == d,
{
}

/// Without a collision, equal nodes have equal leaves below them.
proof fn lemma_equal_nodes(
    one: Seq<nat>,
    other: Seq<nat>,
    empty: nat,
    level: nat,
    position: nat,
    index: nat,
)
    requires
        !collision_exists(),
        node_at(one, empty, level, position) == node_at(other, empty, level, position),
        node_index(index, level) == position,
    ensures
        leaf_at(one, empty, index) == leaf_at(other, empty, index),
    decreases level,
{
    if level > 0 {
        let below = (level - 1) as nat;
        lemma_equal_hashes(
            node_at(one, empty, below, 2 * position),
            node_at(one, empty, below, 2 * position + 1),
            node_at(other, empty, below, 2 * position),
            node_at(other, empty, below, 2 * position + 1),
        );
        lemma_equal_nodes(one, other, empty, below, node_index(index, below), index);
    }
}

/// Changing a batch changes the root, or else shows a collision of the
/// compression function: two batches of one size that differ in some leaf,
/// appended to the same accumulator, give the same root only if two
/// different pairs of inputs have the same hash.
pub proof fn lemma_tampered_batch_collides(
    leaves: Seq<nat>,
    leafs: Seq<nat>,
    tampered: Seq<nat>,
    empty: nat,
    depth: nat,
    default_hashes: Seq<nat>,
)
    requires
        holds_empty_subtrees(default_hashes, empty, depth),
        leafs.len() >= 1,
        tampered.len() == leafs.len(),
        tampered != leafs,
        leaves.len() + leafs.len() <= pow2(depth),
        batch_root(
            leafs,
            leaves.len(),
            proof_siblings(leaves, empty, depth, leaves.len()),
            default_hashes,
        ) == batch_root(
            tampered,
            leaves.len(),
            proof_siblings(leaves, empty, depth, leaves.len()),
            default_hashes,
        ),
    ensures
        collision_exists(),
{
    lemma_batch_root_is_tree_root(leaves, leafs, empty, depth, default_hashes);
    lemma_batch_root_is_tree_root(leaves, tampered, empty, depth, default_hashes);
    if !collision_exists() {
        assert forall|at: int| 0 <= at < leafs.len() implies leafs[at] == tampered[at] by {
            let index = (leaves.len() + at) as nat;
            lemma_node_index_top(index, depth);
            lemma_equal_nodes(leaves + leafs, leaves + tampered, empty, depth, 0, index);
        }
        assert(leafs =~= tampered);
    }
}

} // verus!
