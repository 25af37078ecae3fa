//! Leaf indices and their little-endian path bits.
//!
//! A leaf index is read from the bottom of the tree upwards: bit `level` of
//! the index says whether the node on the leaf's path at that level is a
//! right child.

use vstd::arithmetic::power2::lemma_pow2_unfold;
use vstd::arithmetic::power2::pow2;
use vstd::prelude::*;

verus! {

/// The number that little-endian bits spell.
pub open spec fn bits_to_nat(bits: Seq<bool>) -> nat
    decreases bits.len(),
{
    if bits.len() == 0 {
        0
    } else {
        (if bits[0] { 1nat } else { 0nat }) + 2 * bits_to_nat(bits.skip(1))
    }
}

/// The position, within its level, of the node at `level` above leaf `index`.
pub open spec fn node_index(index: nat, level: nat) -> nat
    decreases level,
{
    if level == 0 {
        index
    } else {
        node_index(index, (level - 1) as nat) / 2
    }
}

/// Whether the node at `level` on the path of leaf `index` is a right child.
pub open spec fn path_bit(index: nat, level: nat) -> bool {
    node_index(index, level) % 2 == 1
}

/// The path of leaf `index` in a tree of the given depth.
pub open spec fn index_path(index: nat, depth: nat) -> Seq<bool> {
    Seq::new(depth, |level: int| path_bit(index, level as nat))
}

/// Climbing one level more is climbing from the parent one level less.
pub proof fn lemma_node_index_of_half(index: nat, level: nat)
    ensures
        node_index(index, level + 1) == node_index(index / 2, level),
    decreases level,
{
    reveal_with_fuel(node_index, 2);
    if level > 0 {
        lemma_node_index_of_half(index, (level - 1) as nat);
    }
}

/// Positions keep the order of the leaves below them.
pub proof fn lemma_node_index_monotonic(low: nat, high: nat, level: nat)
    requires
        low <= high,
    ensures
        node_index(low, level) <= node_index(high, level),
    decreases level,
{
    if level > 0 {
        lemma_node_index_monotonic(low, high, (level - 1) as nat);
    }
}

/// The path of the next leaf either stays in the same node or moves to the
/// next one, at every level.
pub proof fn lemma_node_index_successor(index: nat, level: nat)
    ensures
        node_index(index + 1, level) == node_index(index, level) || node_index(index + 1, level)
            == node_index(index, level) + 1,
    decreases level,
{
    if level > 0 {
        lemma_node_index_successor(index, (level - 1) as nat);
    }
}

/// Every leaf of a tree of depth `depth` lies below its root.
pub proof fn lemma_node_index_top(index: nat, depth: nat)
    requires
        index < pow2(depth),
    ensures
        node_index(index, depth) == 0,
    decreases depth,
{
    if depth > 0 {
        lemma_pow2_unfold(depth);
        lemma_node_index_of_half(index, (depth - 1) as nat);
        lemma_node_index_top(index / 2, (depth - 1) as nat);
    } else {
        vstd::arithmetic::power2::lemma2_to64();
    }
}

/// Bits spell a number below two to their count.
pub proof fn lemma_bits_to_nat_bound(bits: Seq<bool>)
    ensures
        bits_to_nat(bits) < pow2(bits.len()),
    decreases bits.len(),
{
    if bits.len() == 0 {
        vstd::arithmetic::power2::lemma2_to64();
    } else {
        lemma_pow2_unfold(bits.len());
        lemma_bits_to_nat_bound(bits.skip(1));
    }
}

/// The path of the index that bits spell is those bits.
pub proof fn lemma_path_of_bits(bits: Seq<bool>)
    ensures
        index_path(bits_to_nat(bits), bits.len()) == bits,
    decreases bits.len(),
{
    let index = bits_to_nat(bits);
    if bits.len() > 0 {
        let rest = bits.skip(1);
        lemma_path_of_bits(rest);
        assert forall|level: int| 0 <= level < bits.len() implies path_bit(index, level as nat)
            == bits[level] by {
            if level > 0 {
                lemma_node_index_of_half(index, (level - 1) as nat);
                assert(index / 2 == bits_to_nat(rest));
                assert(index_path(bits_to_nat(rest), rest.len())[level - 1] == rest[level - 1]);
            }
        }
    }
    assert(index_path(index, bits.len()) =~= bits);
}

/// The bits of the path of an index spell that index, when the tree is deep
/// enough to hold it.
pub proof fn lemma_bits_of_path(index: nat, depth: nat)
    requires
        index < pow2(depth),
    ensures
        bits_to_nat(index_path(index, depth)) == index,
    decreases depth,
{
    let path = index_path(index, depth);
    if depth > 0 {
        lemma_pow2_unfold(depth);
        lemma_bits_of_path(index / 2, (depth - 1) as nat);
        assert forall|level: int| 0 <= level < depth - 1 implies path.skip(1)[level] == index_path(
            index / 2,
            (depth - 1) as nat,
        )[level] by {
            lemma_node_index_of_half(index, level as nat);
        }
        assert(path.skip(1) =~= index_path(index / 2, (depth - 1) as nat));
        assert(path[0] == (index % 2 == 1));
    } else {
        vstd::arithmetic::power2::lemma2_to64();
    }
}

/// Reads an index from its little-endian bits.
pub fn from_bits_le(bits: &[bool]) -> (index: u64)
    requires
        bits@.len() <= 64,
    ensures
        index == bits_to_nat(bits@),
{
    let mut index: u64 = 0;
    let mut at: usize = bits.len();
    assert(bits@.skip(at as int) =~= Seq::<bool>::empty());
    while at > 0
        invariant
            at <= bits@.len() <= 64,
            index == bits_to_nat(bits@.skip(at as int)),
        decreases at,
    {
        proof {
            lemma_bits_to_nat_bound(bits@.skip(at as int));
            vstd::arithmetic::power2::lemma_pow2_strictly_increases(
                (bits@.len() - at) as nat,
                64,
            );
            vstd::arithmetic::power2::lemma2_to64();
            vstd::arithmetic::power2::lemma2_to64_rest();
            assert(bits@.skip(at - 1).skip(1) =~= bits@.skip(at as int));
        }
        at = at - 1;
        index = 2 * index + if bits[at] { 1 } else { 0 };
    }
    assert(bits@.skip(0) =~= bits@);
    index
}

/// Writes the lowest `limit` bits of an index, little-endian: its path in a
/// tree of depth `limit`.
pub fn into_bits_le(index: u128, limit: usize) -> (bits: Vec<bool>)
    ensures
        bits@ == index_path(index as nat, limit as nat),
{
    let mut bits: Vec<bool> = Vec::new();
    let mut rest: u128 = index;
    let mut level: usize = 0;
    while level < limit
        invariant
            level <= limit,
            rest == node_index(index as nat, level as nat),
            bits@ == index_path(index as nat, level as nat),
        decreases limit - level,
    {
        bits.push(rest % 2 == 1);
        rest = rest / 2;
        level = level + 1;
        assert(bits@ =~= index_path(index as nat, level as nat));
    }
    bits
}

} // verus!
