use fawkes_crypto::rand::{thread_rng, Rng};
use libzeropool::circuit::tree_batch::{
    append_is_valid, c_poseidon_merkle_proof_root_batch, root_before_is_consistent,
    tree_batch_update,
};
use libzeropool::constants::{BATCH_SIZE, DEPTH, HEIGHT, OUTPLUSONELOG};
use libzeropool::field::Num;
use libzeropool::ladder::build_ladder;
use libzeropool::native::tree_batch::{TreeBatchPub, TreeBatchSec};
use libzeropool::poseidon::{poseidon_merkle_proof_root, MerkleProof, PoolParams};
use std::time::Instant;

/// A plain tree that keeps every node that has an appended leaf below it.
struct HashTreeState {
    hashes: Vec<Vec<Num>>,
    default_hashes: Vec<Num>,
}

impl HashTreeState {
    fn new(params: &PoolParams) -> Self {
        let ladder = build_ladder(HEIGHT, params);
        HashTreeState {
            hashes: vec![Vec::new(); DEPTH + 1],
            default_hashes: ladder[OUTPLUSONELOG..].to_vec(),
        }
    }

    fn cell(&self, level: usize, position: usize) -> Num {
        match self.hashes[level].get(position) {
            Some(node) => *node,
            None => self.default_hashes[level],
        }
    }

    fn push(&mut self, leaf: Num, params: &PoolParams) {
        let mut position = self.hashes[0].len();
        self.hashes[0].push(leaf);
        for level in 0..DEPTH {
            position >>= 1;
            let node = params.compress(
                &self.cell(level, 2 * position),
                &self.cell(level, 2 * position + 1),
            );
            if self.hashes[level + 1].len() <= position {
                self.hashes[level + 1].push(node);
            } else {
                self.hashes[level + 1][position] = node;
            }
        }
    }

    fn len(&self) -> usize {
        self.hashes[0].len()
    }

    fn root(&self) -> Num {
        self.cell(DEPTH, 0)
    }

    fn merkle_proof(&self, index: usize) -> MerkleProof {
        let mut sibling = Vec::new();
        let mut path = Vec::new();
        for level in 0..DEPTH {
            let position = index >> level;
            sibling.push(self.cell(level, position ^ 1));
            path.push(position & 1 == 1);
        }
        MerkleProof::new(&sibling, &path).unwrap()
    }
}

fn state_with(leaves: usize, params: &PoolParams) -> HashTreeState {
    let mut state = HashTreeState::new(params);
    for i in 0..leaves {
        state.push(Num::from_u64(100 + i as u64), params);
    }
    state
}

fn batch_ladder(params: &PoolParams) -> Vec<Num> {
    build_ladder(HEIGHT, params)[OUTPLUSONELOG..].to_vec()
}

/// The public and private part of an honest append of `leafs` to `state`.
fn honest_append(
    state: &mut HashTreeState,
    leafs: [Num; BATCH_SIZE],
    params: &PoolParams,
) -> (TreeBatchPub, TreeBatchSec) {
    let filled = state.len();
    let root_before = state.root();
    let proof_free = state.merkle_proof(filled);
    let (proof_filled, prev_leaf) = if filled > 0 {
        (state.merkle_proof(filled - 1), state.cell(0, filled - 1))
    } else {
        (state.merkle_proof(5), Num::from_u64(12345))
    };
    for leaf in leafs.iter() {
        state.push(*leaf, params);
    }
    let root_after = state.root();
    (
        TreeBatchPub { root_before, root_after, leafs },
        TreeBatchSec { proof_filled, proof_free, prev_leaf },
    )
}

fn some_leafs(seed: u64) -> [Num; BATCH_SIZE] {
    let mut leafs = [Num::zero(); BATCH_SIZE];
    for (i, leaf) in leafs.iter_mut().enumerate() {
        *leaf = Num::from_u64(seed * 1000 + i as u64 + 1);
    }
    leafs
}

#[test]
fn test_tree_update_setup_and_prove_batch() {
    let params = PoolParams::new();
    let mut rng = thread_rng();
    let mut state = HashTreeState::new(&params);
    let num_elements: usize = rng.gen_range(1, 1000);

    for _ in 0..num_elements {
        state.push(Num::from_u64(rng.gen()), &params);
    }

    let root_before = state.root();
    let proof_filled = state.merkle_proof(num_elements - 1);
    let proof_free = state.merkle_proof(num_elements);
    let prev_leaf = state.hashes[0].last().unwrap().clone();

    let mut leafs = Vec::new();
    for _ in 0..BATCH_SIZE {
        state.push(Num::from_u64(rng.gen()), &params);
        let leaf = state.hashes[0].last().unwrap().clone();
        leafs.push(leaf);
    }
    let root_after = state.root();

    let p = TreeBatchPub::new(root_before, root_after, &leafs).unwrap();
    let s = TreeBatchSec { proof_filled, proof_free, prev_leaf };

    let ts_verify = Instant::now();
    let res = tree_batch_update(&p, &s, &params);
    assert!(res, "Verifier result should be true");
    let duration = ts_verify.elapsed();
    println!("Time elapsed in verify() is: {:?}", duration);
}

#[test]
fn honest_appends_are_accepted_at_many_sizes() {
    let params = PoolParams::new();
    for filled in [1usize, 2, 3, 7, 8, 9, 63, 64, 65, 200] {
        let mut state = state_with(filled, &params);
        let (p, s) = honest_append(&mut state, some_leafs(filled as u64), &params);
        assert!(tree_batch_update(&p, &s, &params), "{} leaves before the batch", filled);
    }
}

#[test]
fn consecutive_batches_are_accepted() {
    let params = PoolParams::new();
    let mut state = HashTreeState::new(&params);
    for round in 0..4 {
        let (p, s) = honest_append(&mut state, some_leafs(round), &params);
        assert!(tree_batch_update(&p, &s, &params));
        assert_eq!(state.len(), (round as usize + 1) * BATCH_SIZE);
    }
}

#[test]
fn single_leaf_batch_is_the_single_insertion() {
    let params = PoolParams::new();
    let ladder = batch_ladder(&params);
    for filled in [0usize, 1, 2, 5, 6, 7, 8, 100] {
        let mut state = state_with(filled, &params);
        let proof_free = state.merkle_proof(filled);
        let leaf = Num::from_u64(9999);
        let batched = c_poseidon_merkle_proof_root_batch(&[leaf], &proof_free, &ladder, &params);
        assert_eq!(batched, poseidon_merkle_proof_root(&leaf, &proof_free, &params));
        state.push(leaf, &params);
        assert_eq!(batched, state.root());
    }
}

#[test]
fn batch_is_the_sequence_of_single_insertions() {
    let params = PoolParams::new();
    let ladder = batch_ladder(&params);
    for filled in [0usize, 1, 3, 6, 7, 31, 33] {
        for size in [1usize, 2, 3, 5, 8, 13] {
            let mut state = state_with(filled, &params);
            let proof_free = state.merkle_proof(filled);
            let leafs: Vec<Num> = (0..size).map(|i| Num::from_u64(7000 + i as u64)).collect();
            let batched = c_poseidon_merkle_proof_root_batch(&leafs, &proof_free, &ladder, &params);
            let mut sequential = state.root();
            for leaf in leafs.iter() {
                let fresh = state.merkle_proof(state.len());
                sequential = poseidon_merkle_proof_root(leaf, &fresh, &params);
                state.push(*leaf, &params);
                assert_eq!(sequential, state.root());
            }
            assert_eq!(batched, sequential, "{} leaves, batch of {}", filled, size);
        }
    }
}

#[test]
fn empty_batch_gives_the_empty_leaf() {
    let params = PoolParams::new();
    let ladder = batch_ladder(&params);
    let state = state_with(3, &params);
    let root = c_poseidon_merkle_proof_root_batch(&[], &state.merkle_proof(3), &ladder, &params);
    assert_eq!(root, ladder[0]);
}

#[test]
fn first_batch_root_has_the_known_value() {
    let params = PoolParams::new();
    let ladder = batch_ladder(&params);
    let state = HashTreeState::new(&params);
    let root = c_poseidon_merkle_proof_root_batch(
        &[Num::from_u64(1), Num::from_u64(2)],
        &state.merkle_proof(0),
        &ladder,
        &params,
    );
    let mut expected = params.compress(&Num::from_u64(1), &Num::from_u64(2));
    for level in 1..DEPTH {
        expected = params.compress(&expected, &ladder[level]);
    }
    assert_eq!(root, expected);
}

#[test]
fn empty_tree_accepts_any_previous_leaf() {
    let params = PoolParams::new();
    let ladder = build_ladder(HEIGHT, &params);
    let state = HashTreeState::new(&params);
    assert_eq!(state.root(), ladder[HEIGHT]);
    let other = state_with(20, &params);
    let proof_free = state.merkle_proof(0);
    for prev_leaf in [Num::zero(), ladder[OUTPLUSONELOG], Num::from_u64(5)] {
        for proof_filled in [state.merkle_proof(0), state.merkle_proof(77), other.merkle_proof(19)]
        {
            assert!(append_is_valid(
                &prev_leaf,
                &ladder[HEIGHT],
                &proof_filled,
                &proof_free,
                &ladder[OUTPLUSONELOG],
                &ladder[HEIGHT],
                &params,
            ));
        }
    }
    let mut state = HashTreeState::new(&params);
    let (p, s) = honest_append(&mut state, some_leafs(1), &params);
    assert!(tree_batch_update(&p, &s, &params));
}

#[test]
fn empty_tree_rejects_a_start_other_than_zero() {
    let params = PoolParams::new();
    let ladder = build_ladder(HEIGHT, &params);
    let state = HashTreeState::new(&params);
    assert!(!append_is_valid(
        &Num::from_u64(5),
        &ladder[HEIGHT],
        &state.merkle_proof(0),
        &state.merkle_proof(1),
        &ladder[OUTPLUSONELOG],
        &ladder[HEIGHT],
        &params,
    ));
}

#[test]
fn wrong_index_is_rejected() {
    let params = PoolParams::new();
    let ladder = build_ladder(HEIGHT, &params);
    let filled = 10;
    let state = state_with(filled, &params);
    let prev_leaf = state.cell(0, filled - 1);
    let proof_filled = state.merkle_proof(filled - 1);
    let valid = |proof_free: &MerkleProof| {
        append_is_valid(
            &prev_leaf,
            &state.root(),
            &proof_filled,
            proof_free,
            &ladder[OUTPLUSONELOG],
            &ladder[HEIGHT],
            &params,
        )
    };
    assert!(valid(&state.merkle_proof(filled)));
    for index in [0, filled - 1, filled + 1, filled + 2, 1000] {
        assert!(!valid(&state.merkle_proof(index)), "index {}", index);
    }
    let mut state = state_with(filled, &params);
    let (p, mut s) = honest_append(&mut state, some_leafs(3), &params);
    s.proof_free = state_with(filled, &params).merkle_proof(filled + 1);
    assert!(!tree_batch_update(&p, &s, &params));
}

#[test]
fn empty_previous_leaf_is_rejected() {
    let params = PoolParams::new();
    let ladder = build_ladder(HEIGHT, &params);
    let mut state = state_with(4, &params);
    state.push(ladder[OUTPLUSONELOG], &params);
    assert!(!append_is_valid(
        &ladder[OUTPLUSONELOG],
        &state.root(),
        &state.merkle_proof(4),
        &state.merkle_proof(5),
        &ladder[OUTPLUSONELOG],
        &ladder[HEIGHT],
        &params,
    ));
}

#[test]
fn previous_leaf_of_another_tree_is_rejected() {
    let params = PoolParams::new();
    let ladder = build_ladder(HEIGHT, &params);
    let state = state_with(6, &params);
    assert!(!append_is_valid(
        &Num::from_u64(1),
        &state.root(),
        &state.merkle_proof(5),
        &state.merkle_proof(6),
        &ladder[OUTPLUSONELOG],
        &ladder[HEIGHT],
        &params,
    ));
}

#[test]
fn stale_root_is_rejected() {
    let params = PoolParams::new();
    let ladder = build_ladder(HEIGHT, &params);
    let zero_leaf = ladder[OUTPLUSONELOG];
    let old = state_with(9, &params);
    let state = state_with(10, &params);
    let proof_free = state.merkle_proof(10);
    assert!(root_before_is_consistent(&state.root(), &proof_free, &zero_leaf, &params));
    assert!(!root_before_is_consistent(&old.root(), &proof_free, &zero_leaf, &params));
    assert!(!root_before_is_consistent(&Num::zero(), &proof_free, &zero_leaf, &params));
    assert!(!root_before_is_consistent(&state.root(), &state.merkle_proof(9), &zero_leaf, &params));

    let mut state = state_with(10, &params);
    let (mut p, s) = honest_append(&mut state, some_leafs(4), &params);
    p.root_before = old.root();
    assert!(!tree_batch_update(&p, &s, &params));
}

#[test]
fn wrong_root_after_is_rejected() {
    let params = PoolParams::new();
    let mut state = state_with(10, &params);
    let (mut p, s) = honest_append(&mut state, some_leafs(4), &params);
    assert!(tree_batch_update(&p, &s, &params));
    p.root_after = p.root_before;
    assert!(!tree_batch_update(&p, &s, &params));
}

#[test]
fn tampered_leaf_is_detected() {
    let params = PoolParams::new();
    let ladder = batch_ladder(&params);
    let mut state = state_with(21, &params);
    let (p, s) = honest_append(&mut state, some_leafs(5), &params);
    assert!(tree_batch_update(&p, &s, &params));
    for at in 0..BATCH_SIZE {
        let mut tampered = p;
        tampered.leafs[at] = Num::from_u64(424242);
        let root =
            c_poseidon_merkle_proof_root_batch(&tampered.leafs, &s.proof_free, &ladder, &params);
        assert_ne!(root, p.root_after, "leaf {}", at);
        assert!(!tree_batch_update(&tampered, &s, &params), "leaf {}", at);
    }
}

#[test]
fn swapped_leaves_are_detected() {
    let params = PoolParams::new();
    let mut state = state_with(2, &params);
    let (p, s) = honest_append(&mut state, some_leafs(6), &params);
    let mut swapped = p;
    swapped.leafs.swap(0, 1);
    assert!(!tree_batch_update(&swapped, &s, &params));
}

#[test]
fn public_part_rejects_wrong_batch_sizes() {
    let leafs = vec![Num::from_u64(1); BATCH_SIZE + 1];
    assert!(TreeBatchPub::new(Num::zero(), Num::zero(), &leafs).is_none());
    assert!(TreeBatchPub::new(Num::zero(), Num::zero(), &leafs[..BATCH_SIZE - 1]).is_none());
    assert!(TreeBatchPub::new(Num::zero(), Num::zero(), &[]).is_none());
    let public = TreeBatchPub::new(Num::from_u64(3), Num::from_u64(4), &leafs[..BATCH_SIZE]);
    let public = public.unwrap();
    assert_eq!(public.root_before, Num::from_u64(3));
    assert_eq!(public.root_after, Num::from_u64(4));
    assert_eq!(public.leafs.to_vec(), leafs[..BATCH_SIZE].to_vec());
}

#[test]
fn constants_fit_together() {
    println!("BATCH_SIZE is: {:?}", BATCH_SIZE);
    assert_eq!(DEPTH, HEIGHT - OUTPLUSONELOG);
    assert_eq!(DEPTH, 41);
    assert!(BATCH_SIZE >= 1);
}
