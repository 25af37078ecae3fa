//! Elements of the BN256 scalar field, held as four canonical 64-bit limbs.

use vstd::prelude::*;

verus! {

/// The order of the BN256 scalar field.
pub open spec fn modulus() -> nat {
    0x30644e72e131a029b85045b68181585d2833e84879b9709143e1f593f0000001nat
}

/// The integer that four little-endian 64-bit limbs stand for.
pub open spec fn limbs_value(l0: u64, l1: u64, l2: u64, l3: u64) -> nat {
    (l0 + l1 * 0x1_0000_0000_0000_0000int + l2 * 0x1_0000_0000_0000_0000_0000_0000_0000_0000int
        + l3 * 0x1_0000_0000_0000_0000_0000_0000_0000_0000_0000_0000_0000_0000int) as nat
}

const MODULUS_0: u64 = 0x43e1f593f0000001;

const MODULUS_1: u64 = 0x2833e84879b97091;

const MODULUS_2: u64 = 0xb85045b68181585d;

const MODULUS_3: u64 = 0x30644e72e131a029;

/// A field element. Its limbs always hold the canonical representative,
/// the one below the modulus, so two elements are equal exactly when their
/// limbs are.
#[derive(Clone, Copy, Debug, PartialEq, Eq, Structural)]
pub struct Num {
    pub(crate) l0: u64,
    pub(crate) l1: u64,
    pub(crate) l2: u64,
    pub(crate) l3: u64,
}

impl View for Num {
    type V = nat;

    closed spec fn view(&self) -> nat {
        limbs_value(self.l0, self.l1, self.l2, self.l3)
    }
}

impl Num {
    #[verifier::type_invariant]
    spec fn canonical(self) -> bool {
        self@ < modulus()
    }

    /// The additive identity, which is also the value of an empty leaf.
    pub fn zero() -> (r: Num)
        ensures
            r@ == 0,
    {
        Num { l0: 0, l1: 0, l2: 0, l3: 0 }
    }

    /// The element that a machine word stands for.
    pub fn from_u64(x: u64) -> (r: Num)
        ensures
            r@ == x,
    {
        Num { l0: x, l1: 0, l2: 0, l3: 0 }
    }

    /// Reads an element from little-endian limbs; `None` when they do not
    /// hold a canonical representative.
    pub fn from_limbs(limbs: [u64; 4]) -> (r: Option<Num>)
        ensures
            limbs_value(limbs[0], limbs[1], limbs[2], limbs[3]) < modulus() <==> r.is_some(),
            r matches Some(n) ==> n@ == limbs_value(limbs[0], limbs[1], limbs[2], limbs[3]),
    {
        let l0: u64 = limbs[0];
        let l1: u64 = limbs[1];
        let l2: u64 = limbs[2];
        let l3: u64 = limbs[3];
        let below = if l3 != MODULUS_3 {
            l3 < MODULUS_3
        } else if l2 != MODULUS_2 {
            l2 < MODULUS_2
        } else if l1 != MODULUS_1 {
            l1 < MODULUS_1
        } else {
            l0 < MODULUS_0
        };
        if below {
            Some(Num { l0, l1, l2, l3 })
        } else {
            None
        }
    }

    /// The canonical representative as little-endian limbs.
    pub fn limbs(&self) -> (r: [u64; 4])
        ensures
            limbs_value(r[0], r[1], r[2], r[3]) == self@,
            self@ < modulus(),
    {
        proof {
            use_type_invariant(self);
        }
        [self.l0, self.l1, self.l2, self.l3]
    }

    /// Field equality.
    pub fn equals(&self, other: &Num) -> (r: bool)
        ensures
            r == (self@ == other@),
    {
        proof {
            Self::lemma_view_injective(*self, *other);
        }
        *self == *other
    }

    /// Selection without control flow in the caller: `self` when `bit` is
    /// set, `if_else` otherwise.
    pub fn switch(&self, bit: bool, if_else: &Num) -> (r: Num)
        ensures
            r == if bit { *self } else { *if_else },
    {
        if bit {
            *self
        } else {
            *if_else
        }
    }

    /// Two elements with the same value are the same element.
    pub proof fn lemma_view_injective(a: Num, b: Num)
        ensures
            a@ == b@ <==> a == b,
    {
        if a@ == b@ {
            let a_high = a.l2 + a.l3 * 0x1_0000_0000_0000_0000int;
            let b_high = b.l2 + b.l3 * 0x1_0000_0000_0000_0000int;
            let a_rest = a.l1 + a_high * 0x1_0000_0000_0000_0000int;
            let b_rest = b.l1 + b_high * 0x1_0000_0000_0000_0000int;
            lemma_low_word_unique(a.l0 as int, a_rest, b.l0 as int, b_rest);
            lemma_low_word_unique(a.l1 as int, a_high, b.l1 as int, b_high);
            lemma_low_word_unique(a.l2 as int, a.l3 as int, b.l2 as int, b.l3 as int);
        }
    }
}

/// A number splits into a low 64-bit word and the rest in one way only.
proof fn lemma_low_word_unique(low_a: int, rest_a: int, low_b: int, rest_b: int)
    requires
        0 <= low_a < 0x1_0000_0000_0000_0000,
        0 <= low_b < 0x1_0000_0000_0000_0000,
        low_a + rest_a * 0x1_0000_0000_0000_0000 == low_b + rest_b * 0x1_0000_0000_0000_0000,
    ensures
        low_a == low_b,
        rest_a == rest_b,
{
}

} // verus!
