use vstd::arithmetic::div_mod::{lemma_fundamental_div_mod, lemma_fundamental_div_mod_converse};
use vstd::arithmetic::power2::{
    lemma2_to64_rest, lemma_pow2_adds, lemma_pow2_pos, lemma_pow2_strictly_increases, pow2,
};
use vstd::bits::{low_bits_mask, lemma_u64_low_bits_mask_is_mod, lemma_u64_shl_is_mul};
use vstd::prelude::*;
use crate::algorithms::{borrowing_sub, lemma_limb_weight_step, lemma_limbs_value_bound, limb_weight, limbs_value};
use crate::Uint;

verus! {

impl<const BITS: usize, const LIMBS: usize> Uint<BITS, LIMBS> {
    /// Subtracts `rhs`, wrapping modulo 2^BITS, and reports whether the
    /// subtraction borrowed, that is whether `self` is below `rhs`.
    pub fn overflowing_sub(self, rhs: Self) -> (r: (Self, bool))
        ensures
            r.1 == (self.value() < rhs.value()),
            Self::params_ok() ==> r.0.value() == (self.value() - rhs.value()) % (
            Self::modulus() as int),
            Self::params_ok() ==> r.0.wf(),
    {
        let (mut limbs, borrow) = borrowing_sub(&self.limbs, &rhs.limbs);
        let ghost full = limbs@;
        let k: usize = BITS % 64;
        if k != 0 && LIMBS > 0 {
            let top = limbs[LIMBS - 1];
            proof {
                lemma2_to64_rest();
                lemma_pow2_strictly_increases(k as nat, 64);
                lemma_pow2_pos(k as nat);
                lemma_u64_shl_is_mul(1u64, k as u64);
            }
            let mask: u64 = (1u64 << (k as u64)) - 1;
            proof {
                assert(mask == low_bits_mask(k as nat) as u64);
                lemma_u64_low_bits_mask_is_mod(top, k as nat);
            }
            limbs[LIMBS - 1] = top & mask;
            assert(limbs@.drop_last() =~= full.drop_last());
        }
        let r = Self { limbs };
        proof {
            if Self::params_ok() {
                self.lemma_wrapped_difference(rhs, full, borrow, r);
            }
        }
        (r, borrow)
    }

    proof fn lemma_wrapped_difference(self, rhs: Self, full: Seq<u64>, borrow: bool, r: Self)
        requires
            Self::params_ok(),
            full.len() == LIMBS,
            limbs_value(full) + rhs.value() == self.value() + (if borrow {
                limb_weight(LIMBS as nat)
            } else {
                0
            }),
            BITS % 64 == 0 ==> r@ == full,
            BITS % 64 != 0 && LIMBS > 0 ==> {
                &&& r@.len() == full.len()
                &&& r@.drop_last() == full.drop_last()
                &&& r@.last() as int == full.last() as int % (pow2((BITS % 64) as nat) as int)
            },
        ensures
            r.value() == (self.value() - rhs.value()) % (Self::modulus() as int),
            r.wf(),
    {
        let n = LIMBS as nat;
        let k = (BITS % 64) as nat;
        let m = Self::modulus();
        let bo: int = if borrow {
            1
        } else {
            0
        };
        let x: int = self.value() - rhs.value();
        lemma_limbs_value_bound(full);
        if k == 0 {
            assert(BITS as nat == 64 * n);
            lemma_fundamental_div_mod_converse(x, m as int, -bo, limbs_value(full) as int);
        } else {
            assert(n >= 1);
            assert(BITS as nat == 64 * (n - 1) + k);
            let low = limbs_value(full.drop_last());
            let w1 = limb_weight((n - 1) as nat);
            let p = pow2(k);
            let top = full[n - 1] as int;
            lemma2_to64_rest();
            lemma_pow2_pos(k);
            lemma_pow2_strictly_increases(k, 64);
            lemma_pow2_adds(64 * (n - 1) as nat, k);
            lemma_pow2_adds(BITS as nat, (64 - k) as nat);
            assert(64 * (n - 1) + k + (64 - k) == 64 * n);
            lemma_limbs_value_bound(full.drop_last());
            lemma_limb_weight_step((n - 1) as nat);
            lemma_fundamental_div_mod(top, p as int);
            let q = top / (p as int);
            let e = pow2((64 - k) as nat);
            let rv = low + (top % (p as int)) * w1;
            assert(m == w1 * p);
            assert(limb_weight(n) == m * e);
            assert(x == (q - bo * e) * m + rv) by (nonlinear_arith)
                requires
                    x + limb_weight(n) * bo == low + top * w1,
                    top == p * q + top % (p as int),
                    rv == low + (top % (p as int)) * w1,
                    m == w1 * p,
                    limb_weight(n) == m * e,
            ;
            assert(rv < m) by (nonlinear_arith)
                requires
                    low < w1,
                    0 <= top % (p as int) < p,
                    rv == low + (top % (p as int)) * w1,
                    m == w1 * p,
            ;
            lemma_fundamental_div_mod_converse(x, m as int, q - bo * e, rv);
        }
    }
}

} // verus!
