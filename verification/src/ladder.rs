//! The default-hash ladder: the root of an all-empty subtree of every height.

use crate::field::Num;
use crate::poseidon::poseidon_compress;
use crate::poseidon::values;
use crate::poseidon::PoolParams;
use vstd::prelude::*;

verus! {

/// The root of a subtree of height `level` whose leaves all hold `base`.
pub open spec fn ladder(base: nat, level: nat) -> nat
    decreases level,
{
    if level == 0 {
        base
    } else {
        let below = ladder(base, (level - 1) as nat);
        poseidon_compress(below, below)
    }
}

/// The root of a subtree of height `level` whose leaves are all zero.
pub open spec fn default_hash(level: nat) -> nat {
    ladder(0, level)
}

/// The ladder over zero up to `height`, both ends included.
pub open spec fn default_hashes(height: nat) -> Seq<nat> {
    Seq::new(height + 1, |level: int| default_hash(level as nat))
}

/// What makes a sequence a default-hash ladder: it starts at zero and each
/// entry is the hash of the one before it with itself.
pub open spec fn is_ladder(rungs: Seq<nat>, height: nat) -> bool {
    &&& rungs.len() == height + 1
    &&& rungs[0] == 0
    &&& forall|level: int|
        0 <= level < height ==> #[trigger] rungs[level + 1] == poseidon_compress(
            rungs[level],
            rungs[level],
        )
}

/// Builds the default-hash ladder for a tree of the given height.
pub fn build_ladder(height: usize, params: &PoolParams) -> (rungs: Vec<Num>)
    requires
        height < usize::MAX,
    ensures
        values(rungs@) == default_hashes(height as nat),
        is_ladder(values(rungs@), height as nat),
{
    let mut rungs: Vec<Num> = Vec::new();
    rungs.push(Num::zero());
    let mut level: usize = 0;
    while level < height
        invariant
            level <= height < usize::MAX,
            rungs@.len() == level + 1,
            forall|i: int| 0 <= i <= level ==> (#[trigger] rungs@[i])@ == default_hash(i as nat),
        decreases height - level,
    {
        let below = rungs[level];
        let next = params.compress(&below, &below);
        rungs.push(next);
        level = level + 1;
    }
    proof {
        assert(values(rungs@) =~= default_hashes(height as nat));
        lemma_default_hashes_is_ladder(height as nat);
    }
    rungs
}

/// The ladder that the recurrence defines is a ladder.
pub proof fn lemma_default_hashes_is_ladder(height: nat)
    ensures
        is_ladder(default_hashes(height), height),
{
    let rungs = default_hashes(height);
    assert forall|level: int| 0 <= level < height implies #[trigger] rungs[level + 1]
        == poseidon_compress(rungs[level], rungs[level]) by {
        assert(default_hash((level + 1) as nat) == poseidon_compress(
            default_hash(level as nat),
            default_hash(level as nat),
        ));
    }
}

/// A ladder over a ladder's rung continues the first ladder: the empty
/// subtree of height `lower + upper` is an empty subtree of height `upper`
/// over empty subtrees of height `lower`.
pub proof fn lemma_ladder_continues(base: nat, lower: nat, upper: nat)
    ensures
        ladder(ladder(base, lower), upper) == ladder(base, lower + upper),
    decreases upper,
{
    if upper > 0 {
        lemma_ladder_continues(base, lower, (upper - 1) as nat);
    }
}

} // verus!
