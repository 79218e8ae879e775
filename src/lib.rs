use vstd::arithmetic::power2::pow2;
use vstd::prelude::*;

pub mod algorithms;
pub mod cmp;
mod sub;

verus! {

/// An unsigned integer of `BITS` bits held in `LIMBS` little-endian 64-bit limbs.
///
/// The parameters fit when `LIMBS` is `BITS` rounded up to whole limbs
/// (`params_ok`); a value is well formed when no bit above `BITS` is set (`wf`).
#[derive(Clone, Copy, Debug, Eq)]
pub struct Uint<const BITS: usize, const LIMBS: usize> {
    limbs: [u64; LIMBS],
}

impl<const BITS: usize, const LIMBS: usize> View for Uint<BITS, LIMBS> {
    type V = Seq<u64>;

    /// The limbs, least significant first.
    open(crate) spec fn view(&self) -> Seq<u64> {
        self.limbs@
    }
}

impl<const BITS: usize, const LIMBS: usize> Uint<BITS, LIMBS> {
    /// The limb count is the bit width rounded up to whole 64-bit limbs.
    pub open spec fn params_ok() -> bool {
        LIMBS as nat == (BITS as nat + 63) / 64
    }

    /// 2^BITS, one more than the largest value of the type.
    pub open spec fn modulus() -> nat {
        pow2(BITS as nat)
    }

    /// The number the limbs denote, padding bits included.
    pub open spec fn value(&self) -> nat {
        algorithms::limbs_value(self@)
    }

    /// No padding bit is set.
    pub open spec fn wf(&self) -> bool {
        self.value() < Self::modulus()
    }

    /// The value zero: every limb, padding bits included, is zero.
    pub fn zero() -> (r: Self)
        ensures
            r@ == Seq::new(LIMBS as nat, |i: int| 0u64),
            r.value() == 0,
            r.wf(),
    {
        let r = Self { limbs: [0u64; LIMBS] };
        proof {
            assert(r@ =~= Seq::new(LIMBS as nat, |i: int| 0u64));
            algorithms::lemma_limbs_value_zero(r@);
            vstd::arithmetic::power2::lemma_pow2_pos(BITS as nat);
        }
        r
    }

    /// The value held in the given limbs, least significant first; no bit
    /// above `BITS` may be set.
    pub fn from_limbs(limbs: [u64; LIMBS]) -> (r: Self)
        requires
            algorithms::limbs_value(limbs@) < Self::modulus(),
        ensures
            r@ == limbs@,
            r.wf(),
    {
        Self { limbs }
    }

    /// The limbs, least significant first.
    pub fn as_limbs(&self) -> (r: &[u64; LIMBS])
        ensures
            r@ == self@,
    {
        &self.limbs
    }
}

impl<const BITS: usize, const LIMBS: usize> PartialEq for Uint<BITS, LIMBS> {
    fn eq(&self, other: &Self) -> (r: bool) {
        let mut i: usize = 0;
        while i < LIMBS
            invariant
                i <= LIMBS,
                forall|j: int| 0 <= j < i ==> self@[j] == other@[j],
            decreases LIMBS - i,
        {
            if self.limbs[i] != other.limbs[i] {
                return false;
            }
            i += 1;
        }
        assert(self@ =~= other@);
        true
    }
}

impl<const BITS: usize, const LIMBS: usize> vstd::std_specs::cmp::PartialEqSpecImpl for Uint<BITS, LIMBS> {
    open spec fn obeys_eq_spec() -> bool {
        true
    }

    open spec fn eq_spec(&self, other: &Self) -> bool {
        self@ == other@
    }
}

} // verus!
