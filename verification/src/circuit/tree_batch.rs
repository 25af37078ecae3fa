//! The batched append predicate.
//!
//! A batch is accepted when the claimed insertion point is the next free
//! leaf of the tree with root `root_before`, that leaf is empty, and
//! appending the batch's leaves from there on gives `root_after`.

use crate::bits::bits_to_nat;
use crate::bits::index_path;
use crate::bits::into_bits_le;
use crate::bits::lemma_bits_to_nat_bound;
use crate::bits::path_bit;
use crate::constants::DEPTH;
use crate::constants::HEIGHT;
use crate::constants::OUTPLUSONELOG;
use crate::field::Num;
use crate::ladder::build_ladder;
use crate::ladder::default_hash;
use crate::ladder::default_hashes;
use crate::native::tree_batch::TreeBatchPub;
use crate::native::tree_batch::TreeBatchPubView;
use crate::native::tree_batch::TreeBatchSec;
use crate::native::tree_batch::TreeBatchSecView;
use crate::poseidon::climb;
use crate::poseidon::merkle_root;
use crate::poseidon::poseidon_merkle_proof_root;
use crate::poseidon::values;
use crate::poseidon::MerkleProof;
use crate::poseidon::MerkleProofView;
use crate::poseidon::PoolParams;
use vstd::arithmetic::power2::lemma2_to64;
use vstd::arithmetic::power2::lemma2_to64_rest;
use vstd::prelude::*;

verus! {

/// The siblings along the path of the leaf that is appended at `index`:
/// where the path node is a right child, the left node kept for that level;
/// where it is a left child, the empty subtree of that level.
pub open spec fn batch_siblings(index: nat, left_nodes: Seq<nat>, default_hashes: Seq<nat>) -> Seq<
    nat,
> {
    Seq::new(
        left_nodes.len(),
        |level: int|
            if path_bit(index, level as nat) {
                left_nodes[level]
            } else {
                default_hashes[level]
            },
    )
}

/// The root of the tree once `leaf` is appended at `index`.
pub open spec fn root_after_insert(
    leaf: nat,
    index: nat,
    left_nodes: Seq<nat>,
    default_hashes: Seq<nat>,
) -> nat {
    merkle_root(
        leaf,
        index_path(index, left_nodes.len()),
        batch_siblings(index, left_nodes, default_hashes),
    )
}

/// The left nodes once `leaf` is appended at `index`: at each level where
/// the path node is a left child, that node takes the place of the one kept
/// before.
pub open spec fn left_nodes_after_insert(
    leaf: nat,
    index: nat,
    left_nodes: Seq<nat>,
    default_hashes: Seq<nat>,
) -> Seq<nat> {
    let path = index_path(index, left_nodes.len());
    let sibling = batch_siblings(index, left_nodes, default_hashes);
    Seq::new(
        left_nodes.len(),
        |level: int|
            if path[level] {
                left_nodes[level]
            } else {
                climb(leaf, path, sibling, level as nat)
            },
    )
}

/// The left nodes once the first `count` leaves of the batch are appended,
/// the first of them at `index`.
pub open spec fn batch_left_nodes(
    leafs: Seq<nat>,
    index: nat,
    sibling: Seq<nat>,
    default_hashes: Seq<nat>,
    count: nat,
) -> Seq<nat>
    decreases count,
{
    if count == 0 {
        sibling
    } else {
        let before = (count - 1) as nat;
        left_nodes_after_insert(
            leafs[before as int],
            index + before,
            batch_left_nodes(leafs, index, sibling, default_hashes, before),
            default_hashes,
        )
    }
}

/// The root once the whole batch is appended from `index` on, starting from
/// the siblings of the first free leaf. An empty batch gives the empty leaf.
pub open spec fn batch_root(
    leafs: Seq<nat>,
    index: nat,
    sibling: Seq<nat>,
    default_hashes: Seq<nat>,
) -> nat {
    if leafs.len() == 0 {
        default_hashes[0]
    } else {
        let before = (leafs.len() - 1) as nat;
        root_after_insert(
            leafs[before as int],
            index + before,
            batch_left_nodes(leafs, index, sibling, default_hashes, before),
            default_hashes,
        )
    }
}

/// Computes the root of the tree after the leaves are appended at
/// consecutive indices, the first at the index of `proof`. One proof serves
/// the whole batch: the left nodes along the path are carried from leaf to
/// leaf.
pub fn c_poseidon_merkle_proof_root_batch(
    leafs: &[Num],
    proof: &MerkleProof,
    default_hashes: &Vec<Num>,
    params: &PoolParams,
) -> (root: Num)
    requires
        default_hashes@.len() == DEPTH + 1,
    ensures
        root@ == batch_root(
            values(leafs@),
            bits_to_nat(proof@.path),
            proof@.sibling,
            values(default_hashes@),
        ),
{
    let first: u64 = proof.index();
    let mut left_nodes = proof.sibling;
    let mut root = default_hashes[0];
    let ghost batch = values(leafs@);
    let ghost defaults = values(default_hashes@);
    let mut done: usize = 0;
    while done < leafs.len()
        invariant
            done <= leafs@.len(),
            default_hashes@.len() == DEPTH + 1,
            batch == values(leafs@),
            defaults == values(default_hashes@),
            first == bits_to_nat(proof@.path),
            values(left_nodes@) == batch_left_nodes(
                batch,
                first as nat,
                proof@.sibling,
                defaults,
                done as nat,
            ),
            root@ == batch_root(batch.take(done as int), first as nat, proof@.sibling, defaults),
        decreases leafs@.len() - done,
    {
        let index: u128 = first as u128 + done as u128;
        let path = into_bits_le(index, DEPTH);
        let leaf = leafs[done];
        let ghost kept = values(left_nodes@);
        let ghost sibling = batch_siblings(index as nat, kept, defaults);
        let ghost after = left_nodes_after_insert(leaf@, index as nat, kept, defaults);
        root = leaf;
        let mut height: usize = 0;
        while height < DEPTH
            invariant
                height <= DEPTH,
                default_hashes@.len() == DEPTH + 1,
                defaults == values(default_hashes@),
                kept.len() == DEPTH,
                path@ == index_path(index as nat, DEPTH as nat),
                sibling == batch_siblings(index as nat, kept, defaults),
                after == left_nodes_after_insert(leaf@, index as nat, kept, defaults),
                root@ == climb(leaf@, path@, sibling, height as nat),
                forall|level: int| 0 <= level < height ==> (#[trigger] left_nodes@[level])@ == after[level],
                forall|level: int|
                    height <= level < DEPTH ==> (#[trigger] left_nodes@[level])@ == kept[level],
            decreases DEPTH - height,
        {
            let is_right = path[height];
            let sibling_here = left_nodes[height].switch(is_right, &default_hashes[height]);
            let left = sibling_here.switch(is_right, &root);
            let right = root.switch(is_right, &sibling_here);
            left_nodes[height] = left_nodes[height].switch(is_right, &root);
            root = params.compress(&left, &right);
            height = height + 1;
        }
        proof {
            assert(values(left_nodes@) =~= after);
            lemma_batch_root_of_prefix(batch, first as nat, proof@.sibling, defaults, done as nat);
        }
        done = done + 1;
    }
    assert(batch.take(done as int) =~= batch);
    root
}

/// The value of an empty leaf of the batched tree: the root of an empty
/// inner subtree.
pub open spec fn zero_leaf() -> nat {
    default_hash(OUTPLUSONELOG as nat)
}

/// The root of the accumulator while nothing is in it.
pub open spec fn zero_root() -> nat {
    default_hash(HEIGHT as nat)
}

/// The empty subtrees of the batched tree, from its leaves up to its root.
pub open spec fn batch_default_hashes() -> Seq<nat> {
    default_hashes(HEIGHT as nat).skip(OUTPLUSONELOG as int)
}

/// Whether the claimed insertion point is where the next leaf belongs:
/// either right after an occupied leaf of the tree with root `root_before`,
/// or at index zero of the empty tree.
pub open spec fn append_valid(
    prev_leaf: nat,
    root_before: nat,
    proof_filled: MerkleProofView,
    proof_free: MerkleProofView,
    zero_leaf: nat,
    zero_root: nat,
) -> bool {
    let prev_leaf_index = bits_to_nat(proof_filled.path);
    let first_new_leaf_index = bits_to_nat(proof_free.path);
    let root_with_prev_leaf = merkle_root(prev_leaf, proof_filled.path, proof_filled.sibling);
    ||| (root_with_prev_leaf == root_before && prev_leaf != zero_leaf && prev_leaf_index + 1
        == first_new_leaf_index)
    ||| (root_before == zero_root && first_new_leaf_index == 0)
}

/// Whether the leaf at the insertion point is empty in the tree with root
/// `root_before`.
pub open spec fn root_before_consistent(
    root_before: nat,
    proof_free: MerkleProofView,
    zero_leaf: nat,
) -> bool {
    merkle_root(zero_leaf, proof_free.path, proof_free.sibling) == root_before
}

/// Whether appending the batch at the insertion point gives `root_after`.
pub open spec fn root_after_matches(
    public: TreeBatchPubView,
    proof_free: MerkleProofView,
    default_hashes: Seq<nat>,
) -> bool {
    batch_root(public.leafs, bits_to_nat(proof_free.path), proof_free.sibling, default_hashes)
        == public.root_after
}

/// The whole predicate: all three checks hold.
pub open spec fn tree_batch_accepts(public: TreeBatchPubView, secret: TreeBatchSecView) -> bool {
    &&& append_valid(
        secret.prev_leaf,
        public.root_before,
        secret.proof_filled,
        secret.proof_free,
        zero_leaf(),
        zero_root(),
    )
    &&& root_before_consistent(public.root_before, secret.proof_free, zero_leaf())
    &&& root_after_matches(public, secret.proof_free, batch_default_hashes())
}

/// Decides whether the claimed insertion point is valid.
pub fn append_is_valid(
    prev_leaf: &Num,
    root_before: &Num,
    proof_filled: &MerkleProof,
    proof_free: &MerkleProof,
    zero_leaf: &Num,
    zero_root: &Num,
    params: &PoolParams,
) -> (valid: bool)
    ensures
        valid == append_valid(
            prev_leaf@,
            root_before@,
            proof_filled@,
            proof_free@,
            zero_leaf@,
            zero_root@,
        ),
{
    let prev_leaf_index = proof_filled.index();
    let first_new_leaf_index = proof_free.index();
    let root_with_prev_leaf = poseidon_merkle_proof_root(prev_leaf, proof_filled, params);
    proof {
        lemma_bits_to_nat_bound(proof_filled@.path);
        lemma2_to64();
        lemma2_to64_rest();
    }
    let prev_leaf_corresponds_to_root_before = root_with_prev_leaf.equals(root_before);
    let cur_index_is_next_to_previous = prev_leaf_index + 1 == first_new_leaf_index;
    let prev_leaf_is_not_empty = !prev_leaf.equals(zero_leaf);
    let empty_tree = root_before.equals(zero_root);
    let first_new_leaf_index_is_zero = first_new_leaf_index == 0;
    (prev_leaf_corresponds_to_root_before && prev_leaf_is_not_empty
        && cur_index_is_next_to_previous) || (empty_tree && first_new_leaf_index_is_zero)
}

/// Decides whether the insertion point is an empty leaf of the tree with
/// root `root_before`.
pub fn root_before_is_consistent(
    root_before: &Num,
    proof_free: &MerkleProof,
    zero_leaf: &Num,
    params: &PoolParams,
) -> (consistent: bool)
    ensures
        consistent == root_before_consistent(root_before@, proof_free@, zero_leaf@),
{
    let computed_root_before = poseidon_merkle_proof_root(zero_leaf, proof_free, params);
    computed_root_before.equals(root_before)
}

/// Decides whether a batch append is correct: the insertion point is valid,
/// the leaf there is empty before the batch, and the root after the batch is
/// the one claimed.
pub fn tree_batch_update(p: &TreeBatchPub, s: &TreeBatchSec, params: &PoolParams) -> (accepted:
    bool)
    ensures
        accepted == tree_batch_accepts(p@, s@),
{
    let default_hashes = build_ladder(HEIGHT, params);
    let zero_leaf = default_hashes[OUTPLUSONELOG];
    let zero_root_value = default_hashes[HEIGHT];
    let mut batch_hashes: Vec<Num> = Vec::new();
    let mut level: usize = OUTPLUSONELOG;
    while level <= HEIGHT
        invariant
            OUTPLUSONELOG <= level <= HEIGHT + 1,
            default_hashes@.len() == HEIGHT + 1,
            batch_hashes@ == default_hashes@.subrange(OUTPLUSONELOG as int, level as int),
        decreases HEIGHT + 1 - level,
    {
        batch_hashes.push(default_hashes[level]);
        level = level + 1;
        assert(batch_hashes@ =~= default_hashes@.subrange(OUTPLUSONELOG as int, level as int));
    }
    proof {
        let rungs = values(default_hashes@);
        assert(rungs[OUTPLUSONELOG as int] == zero_leaf@ && rungs[HEIGHT as int] == zero_root_value@);
        assert(values(batch_hashes@) =~= batch_default_hashes());
    }
    let valid = append_is_valid(
        &s.prev_leaf,
        &p.root_before,
        &s.proof_filled,
        &s.proof_free,
        &zero_leaf,
        &zero_root_value,
        params,
    );
    let consistent = root_before_is_consistent(&p.root_before, &s.proof_free, &zero_leaf, params);
    let computed_root_after = c_poseidon_merkle_proof_root_batch(
        p.leafs.as_slice(),
        &s.proof_free,
        &batch_hashes,
        params,
    );
    let matches = computed_root_after.equals(&p.root_after);
    valid && consistent && matches
}

/// The root after part of a batch is the root of that part taken as a batch.
proof fn lemma_batch_root_of_prefix(
    leafs: Seq<nat>,
    index: nat,
    sibling: Seq<nat>,
    default_hashes: Seq<nat>,
    done: nat,
)
    requires
        done < leafs.len(),
    ensures
        batch_root(leafs.take(done + 1 as int), index, sibling, default_hashes) == root_after_insert(
            leafs[done as int],
            index + done,
            batch_left_nodes(leafs, index, sibling, default_hashes, done),
            default_hashes,
        ),
{
    lemma_left_nodes_of_prefix(leafs, index, sibling, default_hashes, done + 1, done);
}

/// The left nodes after `count` leaves depend on those leaves only.
proof fn lemma_left_nodes_of_prefix(
    leafs: Seq<nat>,
    index: nat,
    sibling: Seq<nat>,
    default_hashes: Seq<nat>,
    taken: nat,
    count: nat,
)
    requires
        count <= taken <= leafs.len(),
    ensures
        batch_left_nodes(leafs.take(taken as int), index, sibling, default_hashes, count)
            == batch_left_nodes(leafs, index, sibling, default_hashes, count),
    decreases count,
{
    if count > 0 {
        lemma_left_nodes_of_prefix(
            leafs,
            index,
            sibling,
            default_hashes,
            taken,
            (count - 1) as nat,
        );
    }
}

} // verus!
