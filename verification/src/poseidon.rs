//! The Poseidon compression function of the pool and inclusion proofs over it.
//!
//! The hash itself is computed by `fawkes_crypto`. This module names its
//! result, so that contracts can speak of it, and states what an inclusion
//! proof evaluates to in terms of that name.

use crate::bits::bits_to_nat;
use crate::bits::from_bits_le;
use crate::constants::DEPTH;
use crate::field::Num;
use fawkes_crypto::engines::bn256::Fr;
use fawkes_crypto::engines::U256;
use fawkes_crypto::ff_uint::Num as FrNum;
use fawkes_crypto::ff_uint::NumRepr;
use fawkes_crypto::native::poseidon as fawkes;
use fawkes_crypto::native::poseidon::PoseidonParams;
use vstd::prelude::*;

verus! {

/// The value of `fawkes_crypto::native::poseidon::poseidon` on the two
/// inputs `left` and `right`, under the parameters that
/// `PoseidonParams::<Fr>::new(3, 8, 53)` generates.
pub uninterp spec fn poseidon_compress(left: nat, right: nat) -> nat;

/// The hash parameters of the pool, as `fawkes_crypto` holds them. The
/// verifier does not look inside. A value can only be made by
/// [`PoolParams::new`], so the parameters held are always the same.
#[verifier::external_body]
pub struct PoolParams {
    compress: PoseidonParams<Fr>,
}

/// An inclusion proof: for each level, from the leaf up, whether the node on
/// the path is a right child, and the value of its sibling.
#[derive(Clone, Copy, Debug)]
pub struct MerkleProof {
    pub sibling: [Num; DEPTH],
    pub path: [bool; DEPTH],
}

/// What an inclusion proof holds, as mathematical values.
pub ghost struct MerkleProofView {
    pub sibling: Seq<nat>,
    pub path: Seq<bool>,
}

/// The values of a sequence of field elements.
pub open spec fn values(elements: Seq<Num>) -> Seq<nat> {
    elements.map_values(|e: Num| e@)
}

impl View for MerkleProof {
    type V = MerkleProofView;

    open spec fn view(&self) -> MerkleProofView {
        MerkleProofView { sibling: values(self.sibling@), path: self.path@ }
    }
}

/// The node reached after climbing `levels` levels from `node`: at each
/// level the node is hashed with its sibling, on the right of it when the
/// path bit is set.
pub open spec fn climb(node: nat, path: Seq<bool>, sibling: Seq<nat>, levels: nat) -> nat
    decreases levels,
{
    if levels == 0 {
        node
    } else {
        let level = levels - 1;
        let below = climb(node, path, sibling, level as nat);
        if path[level] {
            poseidon_compress(sibling[level], below)
        } else {
            poseidon_compress(below, sibling[level])
        }
    }
}

/// The root that an inclusion proof implies for a leaf.
pub open spec fn merkle_root(leaf: nat, path: Seq<bool>, sibling: Seq<nat>) -> nat {
    climb(leaf, path, sibling, path.len())
}

/// Calls `PoseidonParams::new` with the pool's width and round numbers.
/// Nothing is stated of the result: it is only handed back to the hash.
#[verifier::external_body]
fn pool_params() -> PoolParams {
    PoolParams { compress: PoseidonParams::<Fr>::new(3, 8, 53) }
}

/// Calls `fawkes_crypto::native::poseidon::poseidon` on two inputs, which
/// are handed over with `Num::from_uint_reduced`. The result, read back with
/// `Num::to_uint`, is the named hash of the two values, as a canonical
/// element.
#[verifier::external_body]
fn poseidon_pair(params: &PoolParams, left: &Num, right: &Num) -> (hash: Num)
    ensures
        hash@ == poseidon_compress(left@, right@),
{
    let left = NumRepr(U256::new([left.l0, left.l1, left.l2, left.l3]));
    let right = NumRepr(U256::new([right.l0, right.l1, right.l2, right.l3]));
    let inputs = [FrNum::from_uint_reduced(left), FrNum::from_uint_reduced(right)];
    let hash = fawkes::poseidon(&inputs, &params.compress).to_uint().0.0;
    Num { l0: hash[0], l1: hash[1], l2: hash[2], l3: hash[3] }
}

/// Calls `fawkes_crypto::native::poseidon::poseidon_merkle_proof_root`,
/// which starts at the leaf and, level by level, hashes the node with the
/// proof's sibling, the sibling first where the path bit is set. The result
/// is a canonical element.
#[verifier::external_body]
fn proof_root(params: &PoolParams, leaf: &Num, proof: &MerkleProof) -> (root: Num)
    ensures
        root@ == merkle_root(leaf@, proof@.path, proof@.sibling),
{
    let sibling = proof.sibling.iter().map(|s| NumRepr(U256::new([s.l0, s.l1, s.l2, s.l3])));
    let proof = fawkes::MerkleProof::<Fr, DEPTH> {
        sibling: sibling.map(FrNum::from_uint_reduced).collect(),
        path: proof.path.iter().copied().collect(),
    };
    let leaf = FrNum::from_uint_reduced(NumRepr(U256::new([leaf.l0, leaf.l1, leaf.l2, leaf.l3])));
    let root = fawkes::poseidon_merkle_proof_root(leaf, &proof, &params.compress).to_uint().0.0;
    Num { l0: root[0], l1: root[1], l2: root[2], l3: root[3] }
}

impl MerkleProof {
    /// Takes a proof from its parts; `None` unless both have one entry for
    /// each level of the tree.
    pub fn new(sibling: &[Num], path: &[bool]) -> (proof: Option<MerkleProof>)
        ensures
            proof.is_some() <==> sibling@.len() == DEPTH && path@.len() == DEPTH,
            proof matches Some(p) ==> p.sibling@ == sibling@ && p.path@ == path@,
    {
        if sibling.len() != DEPTH || path.len() != DEPTH {
            return None;
        }
        let mut proof = MerkleProof { sibling: [Num::zero();DEPTH], path: [false;DEPTH] };
        let mut level: usize = 0;
        while level < DEPTH
            invariant
                level <= DEPTH,
                sibling@.len() == DEPTH,
                path@.len() == DEPTH,
                forall|i: int| 0 <= i < level ==> proof.sibling@[i] == sibling@[i],
                forall|i: int| 0 <= i < level ==> proof.path@[i] == path@[i],
            decreases DEPTH - level,
        {
            proof.sibling[level] = sibling[level];
            proof.path[level] = path[level];
            level = level + 1;
        }
        assert(proof.sibling@ =~= sibling@);
        assert(proof.path@ =~= path@);
        Some(proof)
    }

    /// The index of the leaf that the proof speaks of.
    pub fn index(&self) -> (index: u64)
        ensures
            index == bits_to_nat(self@.path),
    {
        from_bits_le(self.path.as_slice())
    }
}

/// The root that an inclusion proof implies for a leaf.
pub fn poseidon_merkle_proof_root(leaf: &Num, proof: &MerkleProof, params: &PoolParams) -> (root:
    Num)
    ensures
        root@ == merkle_root(leaf@, proof@.path, proof@.sibling),
{
    proof_root(params, leaf, proof)
}

impl PoolParams {
    /// The parameters of the pool.
    pub fn new() -> PoolParams {
        pool_params()
    }

    /// The two-to-one hash used at every level of the tree.
    pub fn compress(&self, left: &Num, right: &Num) -> (hash: Num)
        ensures
            hash@ == poseidon_compress(left@, right@),
    {
        poseidon_pair(self, left, right)
    }
}

} // verus!
