use vstd::arithmetic::power2::{lemma2_to64, lemma2_to64_rest, lemma_pow2_adds, lemma_pow2_pos, pow2};
use vstd::prelude::*;
use core::cmp::Ordering;

verus! {

/// The radix of one limb, 2^64.
pub open spec fn limb_radix() -> nat {
    0x1_0000_0000_0000_0000
}

/// The weight of the limb at index `i`, 2^(64 i).
pub open spec fn limb_weight(i: nat) -> nat {
    pow2(64 * i)
}

/// The number that a little-endian sequence of 64-bit limbs denotes.
pub open spec fn limbs_value(s: Seq<u64>) -> nat
    decreases s.len(),
{
    if s.len() == 0 {
        0
    } else {
        limbs_value(s.drop_last()) + (s.last() as nat) * limb_weight((s.len() - 1) as nat)
    }
}

/// The three-way comparison of two naturals.
pub open spec fn ordering_of(x: nat, y: nat) -> Ordering {
    if x < y {
        Ordering::Less
    } else if x == y {
        Ordering::Equal
    } else {
        Ordering::Greater
    }
}

pub proof fn lemma_limb_weight_step(i: nat)
    ensures
        limb_weight(i + 1) == limb_radix() * limb_weight(i),
        limb_weight(i) > 0,
        limb_weight(0) == 1,
{
    lemma2_to64_rest();
    lemma_pow2_adds(64, 64 * i);
    assert(64 + 64 * i == 64 * (i + 1));
    lemma_pow2_pos(64 * i);
    lemma2_to64();
}

/// A sequence of `n` limbs denotes a number below 2^(64 n).
pub proof fn lemma_limbs_value_bound(s: Seq<u64>)
    ensures
        limbs_value(s) < limb_weight(s.len()),
    decreases s.len(),
{
    lemma_limb_weight_step(0);
    if s.len() > 0 {
        let n = (s.len() - 1) as nat;
        let lo = limbs_value(s.drop_last());
        let w = limb_weight(n);
        let top = s.last() as nat;
        lemma_limbs_value_bound(s.drop_last());
        lemma_limb_weight_step(n);
        assert(lo + top * w < limb_radix() * w) by (nonlinear_arith)
            requires
                lo < w,
                top < limb_radix(),
        ;
    }
}

/// A sequence denotes zero exactly when each of its limbs is zero.
pub proof fn lemma_limbs_value_zero(s: Seq<u64>)
    ensures
        limbs_value(s) == 0 <==> forall|i: int| 0 <= i < s.len() ==> s[i] == 0,
    decreases s.len(),
{
    if s.len() > 0 {
        let n = (s.len() - 1) as nat;
        lemma_limbs_value_zero(s.drop_last());
        lemma_limb_weight_step(n);
        let w = limb_weight(n);
        let top = s.last() as nat;
        assert(top * w == 0 <==> top == 0) by (nonlinear_arith)
            requires
                w > 0,
        ;
        if limbs_value(s) == 0 {
            assert forall|i: int| 0 <= i < s.len() implies s[i] == 0 by {
                if i < n {
                    assert(s.drop_last()[i] == s[i]);
                }
            }
        }
        if forall|i: int| 0 <= i < s.len() ==> s[i] == 0 {
            assert forall|i: int| 0 <= i < s.drop_last().len() implies s.drop_last()[i] == 0 by {
                assert(s.drop_last()[i] == s[i]);
            }
        }
    }
}

/// When the top limbs differ, the top limbs alone decide the order.
pub proof fn lemma_top_limb_decides(s: Seq<u64>, t: Seq<u64>)
    requires
        s.len() == t.len(),
        s.len() > 0,
        s.last() < t.last(),
    ensures
        limbs_value(s) < limbs_value(t),
{
    let n = (s.len() - 1) as nat;
    let w = limb_weight(n);
    let ls = limbs_value(s.drop_last());
    let lt = limbs_value(t.drop_last());
    let a = s.last() as nat;
    let b = t.last() as nat;
    lemma_limbs_value_bound(s.drop_last());
    assert(ls + a * w < lt + b * w) by (nonlinear_arith)
        requires
            ls < w,
            a < b,
    ;
}

/// Equal top limbs cancel out of the difference of two values.
pub proof fn lemma_top_limb_equal(s: Seq<u64>, t: Seq<u64>)
    requires
        s.len() == t.len(),
        s.len() > 0,
        s.last() == t.last(),
    ensures
        limbs_value(s) - limbs_value(t) == limbs_value(s.drop_last()) - limbs_value(t.drop_last()),
{
}

/// Two limb sequences of one length that denote the same number are equal.
pub proof fn lemma_limbs_value_injective(s: Seq<u64>, t: Seq<u64>)
    requires
        s.len() == t.len(),
        limbs_value(s) == limbs_value(t),
    ensures
        s == t,
    decreases s.len(),
{
    if s.len() > 0 {
        if s.last() < t.last() {
            lemma_top_limb_decides(s, t);
        } else if t.last() < s.last() {
            lemma_top_limb_decides(t, s);
        } else {
            lemma_limbs_value_injective(s.drop_last(), t.drop_last());
            assert(s =~= s.drop_last().push(s.last()));
            assert(t =~= t.drop_last().push(t.last()));
        }
    } else {
        assert(s =~= t);
    }
}

/// A sequence whose lowest limb is one and whose other limbs are zero denotes one.
pub proof fn lemma_limbs_value_one(s: Seq<u64>)
    requires
        s.len() >= 1,
        s[0] == 1,
        forall|i: int| 1 <= i < s.len() ==> s[i] == 0,
    ensures
        limbs_value(s) == 1,
    decreases s.len(),
{
    lemma_limb_weight_step(0);
    if s.len() > 1 {
        assert forall|i: int| 1 <= i < s.drop_last().len() implies s.drop_last()[i] == 0 by {
            assert(s.drop_last()[i] == s[i]);
        }
        assert(s.drop_last()[0] == s[0]);
        assert(s.last() == s[s.len() - 1]);
        lemma_limbs_value_one(s.drop_last());
        assert(limbs_value(s) == limbs_value(s.drop_last()) + 0 * limb_weight((s.len() - 1) as nat));
    } else {
        assert(s.drop_last() =~= Seq::<u64>::empty());
        assert(limbs_value(s.drop_last()) == 0);
        assert(s.last() == 1);
        assert(limbs_value(s) == 0 + 1 * limb_weight(0));
    }
}

proof fn lemma_take_step(s: Seq<u64>, i: int)
    requires
        0 <= i < s.len(),
    ensures
        s.take(i + 1).drop_last() == s.take(i),
        s.take(i + 1).last() == s[i],
        s.take(i + 1).len() == i + 1,
{
    assert(s.take(i + 1).drop_last() =~= s.take(i));
}

/// Compares two limb sequences of equal length as the numbers they denote,
/// scanning from the most significant limb down.
pub fn cmp(left: &[u64], right: &[u64]) -> (r: Ordering)
    requires
        left@.len() == right@.len(),
    ensures
        r == ordering_of(limbs_value(left@), limbs_value(right@)),
{
    let mut i: usize = left.len();
    proof {
        assert(left@.take(i as int) =~= left@);
        assert(right@.take(i as int) =~= right@);
    }
    while i > 0
        invariant
            i <= left@.len(),
            left@.len() == right@.len(),
            limbs_value(left@) - limbs_value(right@) == limbs_value(left@.take(i as int))
                - limbs_value(right@.take(i as int)),
        decreases i,
    {
        i -= 1;
        proof {
            lemma_take_step(left@, i as int);
            lemma_take_step(right@, i as int);
        }
        if left[i] != right[i] {
            if left[i] > right[i] {
                proof {
                    lemma_top_limb_decides(right@.take(i + 1), left@.take(i + 1));
                }
                return Ordering::Greater;
            } else {
                proof {
                    lemma_top_limb_decides(left@.take(i + 1), right@.take(i + 1));
                }
                return Ordering::Less;
            }
        }
        proof {
            lemma_top_limb_equal(left@.take(i + 1), right@.take(i + 1));
        }
    }
    Ordering::Equal
}

/// Subtracts `b` from `a` limb by limb, least significant first, and returns
/// the difference modulo 2^(64 N) with the borrow out of the top limb.
pub fn borrowing_sub<const N: usize>(a: &[u64; N], b: &[u64; N]) -> (r: ([u64; N], bool))
    ensures
        limbs_value(r.0@) + limbs_value(b@) == limbs_value(a@) + (if r.1 {
            limb_weight(N as nat)
        } else {
            0
        }),
        r.1 == (limbs_value(a@) < limbs_value(b@)),
{
    let mut r: [u64; N] = *a;
    let mut borrow: bool = false;
    let mut i: usize = 0;
    proof {
        lemma_limb_weight_step(0);
        assert(r@.take(0) =~= Seq::<u64>::empty());
        assert(a@.take(0) =~= Seq::<u64>::empty());
        assert(b@.take(0) =~= Seq::<u64>::empty());
    }
    while i < N
        invariant
            i <= N,
            r@.len() == N,
            a@.len() == N,
            b@.len() == N,
            limbs_value(r@.take(i as int)) + limbs_value(b@.take(i as int)) == limbs_value(
                a@.take(i as int),
            ) + (if borrow {
                limb_weight(i as nat)
            } else {
                0
            }),
        decreases N - i,
    {
        let ghost old_r = r@;
        let ghost bo: int = if borrow {
            1
        } else {
            0
        };
        let t: u128 = a[i] as u128 + 0x1_0000_0000_0000_0000u128 - b[i] as u128 - (if borrow {
            1u128
        } else {
            0u128
        });
        let d: u64;
        if t >= 0x1_0000_0000_0000_0000u128 {
            d = (t - 0x1_0000_0000_0000_0000u128) as u64;
            borrow = false;
        } else {
            d = t as u64;
            borrow = true;
        }
        r[i] = d;
        proof {
            let bn: int = if borrow {
                1
            } else {
                0
            };
            assert(d + b@[i as int] + bo == a@[i as int] + bn * limb_radix());
            lemma_take_step(r@, i as int);
            lemma_take_step(a@, i as int);
            lemma_take_step(b@, i as int);
            assert(r@.take(i as int) =~= old_r.take(i as int));
            lemma_limb_weight_step(i as nat);
            let w = limb_weight(i as nat);
            let vr = limbs_value(old_r.take(i as int));
            let vb = limbs_value(b@.take(i as int));
            let va = limbs_value(a@.take(i as int));
            let ai = a@[i as int] as int;
            let bi = b@[i as int] as int;
            let di = d as int;
            assert(vr + di * w + vb + bi * w == va + ai * w + bn * (limb_radix() * w))
                by (nonlinear_arith)
                requires
                    vr + vb == va + bo * w,
                    di + bi + bo == ai + bn * limb_radix(),
            ;
        }
        i += 1;
    }
    proof {
        assert(r@.take(N as int) =~= r@);
        assert(a@.take(N as int) =~= a@);
        assert(b@.take(N as int) =~= b@);
        lemma_limbs_value_bound(r@);
        lemma_limbs_value_bound(b@);
    }
    (r, borrow)
}

} // verus!
