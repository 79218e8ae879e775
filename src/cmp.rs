use vstd::prelude::*;
use core::cmp::Ordering;
use crate::algorithms::{
    self, lemma_limbs_value_injective, lemma_limbs_value_one, lemma_limbs_value_zero, ordering_of,
};
use crate::Uint;

verus! {

impl<const BITS: usize, const LIMBS: usize> Uint<BITS, LIMBS> {
    /// The three-way order of two values, by the numbers they denote.
    pub open spec fn spec_cmp(&self, other: &Self) -> Ordering {
        ordering_of(self.value(), other.value())
    }

    /// `self` denotes a smaller number than `other`.
    pub open spec fn spec_lt(&self, other: &Self) -> bool {
        self.value() < other.value()
    }

    /// Compares the two values as numbers, most significant limb first.
    pub fn cmp(&self, rhs: &Self) -> (r: Ordering)
        ensures
            r == self.spec_cmp(rhs),
    {
        algorithms::cmp(self.as_limbs().as_slice(), rhs.as_limbs().as_slice())
    }

    /// Returns true if the value is zero.
    pub fn is_zero(&self) -> (r: bool)
        ensures
            r == (self.value() == 0),
    {
        let z = Self::zero();
        proof {
            lemma_limbs_value_zero(self@);
        }
        let r = *self == z;
        proof {
            if !r {
                assert(!(self@ =~= z@));
            }
        }
        r
    }
}

/// Two values of one type are equal exactly when they denote the same number.
pub proof fn lemma_eq_iff_same_value<const BITS: usize, const LIMBS: usize>(
    a: Uint<BITS, LIMBS>,
    b: Uint<BITS, LIMBS>,
)
    ensures
        a == b <==> a.value() == b.value(),
{
    broadcast use vstd::array::group_array_axioms;

    if a.value() == b.value() {
        lemma_limbs_value_injective(a@, b@);
        assert(a.limbs == b.limbs);
    }
}

/// Totality: of `a < b`, `a == b` and `b < a` exactly one holds, and the
/// three-way comparison reports `Equal` exactly when `a == b`.
pub proof fn lemma_trichotomy<const BITS: usize, const LIMBS: usize>(
    a: Uint<BITS, LIMBS>,
    b: Uint<BITS, LIMBS>,
)
    ensures
        a.spec_lt(&b) ==> a != b && !b.spec_lt(&a),
        a == b ==> !a.spec_lt(&b) && !b.spec_lt(&a),
        b.spec_lt(&a) ==> a != b && !a.spec_lt(&b),
        a.spec_lt(&b) || a == b || b.spec_lt(&a),
        a.spec_cmp(&b) == Ordering::Equal <==> a == b,
{
    lemma_eq_iff_same_value(a, b);
}

/// The three-way comparison agrees with less-than: `Less` when `a < b`,
/// `Equal` when neither is below the other, `Greater` when `b < a`.
pub proof fn lemma_cmp_agrees_with_lt<const BITS: usize, const LIMBS: usize>(
    a: Uint<BITS, LIMBS>,
    b: Uint<BITS, LIMBS>,
)
    ensures
        a.spec_cmp(&b) == Ordering::Less <==> a.spec_lt(&b),
        a.spec_cmp(&b) == Ordering::Equal <==> !a.spec_lt(&b) && !b.spec_lt(&a),
        a.spec_cmp(&b) == Ordering::Greater <==> b.spec_lt(&a),
{
}

/// Less-than is transitive.
pub proof fn lemma_lt_transitive<const BITS: usize, const LIMBS: usize>(
    a: Uint<BITS, LIMBS>,
    b: Uint<BITS, LIMBS>,
    c: Uint<BITS, LIMBS>,
)
    requires
        a.spec_lt(&b),
        b.spec_lt(&c),
    ensures
        a.spec_lt(&c),
{
}

/// Less-or-equal holds exactly when less-than or equality does.
pub proof fn lemma_le_is_lt_or_eq<const BITS: usize, const LIMBS: usize>(
    a: Uint<BITS, LIMBS>,
    b: Uint<BITS, LIMBS>,
)
    ensures
        !b.spec_lt(&a) <==> a.spec_lt(&b) || a == b,
{
    lemma_eq_iff_same_value(a, b);
}

/// The value whose limbs are all zero denotes zero, in every instantiation,
/// including the one of no limbs.
pub proof fn lemma_zero_is_zero<const BITS: usize, const LIMBS: usize>(z: Uint<BITS, LIMBS>)
    requires
        z@ == Seq::new(LIMBS as nat, |i: int| 0u64),
    ensures
        z.value() == 0,
{
    lemma_limbs_value_zero(z@);
}

/// The value with only its least significant bit set denotes one: it is not
/// zero and it is above zero.
pub proof fn lemma_least_bit_is_not_zero<const BITS: usize, const LIMBS: usize>(
    a: Uint<BITS, LIMBS>,
    z: Uint<BITS, LIMBS>,
)
    requires
        LIMBS >= 1,
        a@[0] == 1,
        forall|i: int| 1 <= i < LIMBS ==> a@[i] == 0,
        z@ == Seq::new(LIMBS as nat, |i: int| 0u64),
    ensures
        a.value() == 1,
        a.value() != 0,
        z.spec_lt(&a),
{
    lemma_zero_is_zero(z);
    lemma_limbs_value_one(a@);
}

impl<const BITS: usize, const LIMBS: usize> PartialOrd for Uint<BITS, LIMBS> {
    fn partial_cmp(&self, other: &Self) -> (r: Option<Ordering>)
        ensures
            r == Some(self.spec_cmp(other)),
    {
        Some(self.cmp(other))
    }

    fn lt(&self, other: &Self) -> (r: bool)
        ensures
            r == self.spec_lt(other),
    {
        self.overflowing_sub(*other).1
    }

    fn le(&self, other: &Self) -> (r: bool)
        ensures
            r == !other.spec_lt(self),
    {
        !Self::lt(other, self)
    }

    fn gt(&self, other: &Self) -> (r: bool)
        ensures
            r == other.spec_lt(self),
    {
        Self::lt(other, self)
    }

    fn ge(&self, other: &Self) -> (r: bool)
        ensures
            r == !self.spec_lt(other),
    {
        !Self::lt(self, other)
    }
}

impl<const BITS: usize, const LIMBS: usize> vstd::std_specs::cmp::PartialOrdSpecImpl for Uint<BITS, LIMBS> {
    open spec fn obeys_partial_cmp_spec() -> bool {
        true
    }

    open spec fn partial_cmp_spec(&self, other: &Self) -> Option<Ordering> {
        Some(self.spec_cmp(other))
    }
}

} // verus!
