use ruint::Uint;
use std::cmp::Ordering;

#[test]
fn test_is_zero() {
    assert!(Uint::<0, 0>::zero().is_zero());
    assert!(Uint::<1, 1>::zero().is_zero());
    assert!(Uint::<7, 1>::zero().is_zero());
    assert!(Uint::<64, 1>::zero().is_zero());

    assert!(!Uint::<1, 1>::from_limbs([1]).is_zero());
    assert!(!Uint::<7, 1>::from_limbs([1]).is_zero());
    assert!(!Uint::<64, 1>::from_limbs([1]).is_zero());
}

#[test]
fn zero_width_values_are_equal() {
    let a = Uint::<0, 0>::zero();
    let b = Uint::<0, 0>::from_limbs([]);
    assert_eq!(a.cmp(&b), Ordering::Equal);
    assert!(!(a < b));
    assert!(a <= b);
    assert!(a >= b);
    assert!(!(a > b));
    assert!(a == b);
}

#[test]
fn one_bit_zero_is_below_one() {
    let zero = Uint::<1, 1>::from_limbs([0]);
    let one = Uint::<1, 1>::from_limbs([1]);
    assert!(!one.is_zero());
    assert_eq!(zero.cmp(&one), Ordering::Less);
    assert_eq!(one.cmp(&zero), Ordering::Greater);
    assert_eq!(zero.partial_cmp(&one), Some(Ordering::Less));
}

#[test]
fn seven_bits_one_above_zero() {
    let zero = Uint::<7, 1>::from_limbs([0]);
    let one = Uint::<7, 1>::from_limbs([1]);
    assert!(one > zero);
    assert!(!one.is_zero());
}

#[test]
fn sixty_four_bit_relations() {
    let five = Uint::<64, 1>::from_limbs([5]);
    let ten = Uint::<64, 1>::from_limbs([10]);
    assert!(five < ten);
    assert!(ten >= ten);
    assert!(!(ten > ten));
    assert!(ten <= ten);
    assert!(!(ten < five));
    assert!(five <= ten);
    assert!(!(five >= ten));
    assert_eq!(ten.cmp(&ten), Ordering::Equal);
}

#[test]
fn top_limb_decides_the_order() {
    let a = Uint::<128, 2>::from_limbs([u64::MAX, 1]);
    let b = Uint::<128, 2>::from_limbs([0, 2]);
    assert_eq!(a.cmp(&b), Ordering::Less);
    assert!(a < b);
    assert!(b > a);
    assert!(a != b);
}

#[test]
fn low_limb_decides_when_top_limbs_match() {
    let a = Uint::<100, 2>::from_limbs([7, 3]);
    let b = Uint::<100, 2>::from_limbs([6, 3]);
    assert_eq!(a.cmp(&b), Ordering::Greater);
    assert!(a > b);
    assert!(b < a);
    assert!(!(a <= b));
}

#[test]
fn exactly_one_relation_holds() {
    let vals = [
        Uint::<65, 2>::from_limbs([0, 0]),
        Uint::<65, 2>::from_limbs([1, 0]),
        Uint::<65, 2>::from_limbs([u64::MAX, 0]),
        Uint::<65, 2>::from_limbs([0, 1]),
        Uint::<65, 2>::from_limbs([u64::MAX, 1]),
    ];
    for a in vals.iter() {
        for b in vals.iter() {
            let lt = a < b;
            let eq = a.cmp(b) == Ordering::Equal;
            let gt = a > b;
            assert_eq!(lt as u8 + eq as u8 + gt as u8, 1);
            assert_eq!(a.cmp(b) == Ordering::Less, lt);
            assert_eq!(a.cmp(b) == Ordering::Greater, b < a);
            assert_eq!(eq, !(a < b) && !(b < a));
            assert_eq!(eq, a == b);
            assert_eq!(a <= b, !(b < a));
            assert_eq!(a >= b, !(a < b));
            assert_eq!(a > b, b < a);
        }
    }
}

#[test]
fn less_than_is_transitive() {
    let a = Uint::<65, 2>::from_limbs([9, 0]);
    let b = Uint::<65, 2>::from_limbs([0, 1]);
    let c = Uint::<65, 2>::from_limbs([1, 1]);
    assert!(a < b);
    assert!(b < c);
    assert!(a < c);
}

#[test]
fn least_bit_set_is_not_zero() {
    let one = Uint::<65, 2>::from_limbs([1, 0]);
    assert!(!one.is_zero());
    assert!(Uint::<65, 2>::zero() < one);
    let high = Uint::<65, 2>::from_limbs([0, 1]);
    assert!(!high.is_zero());
}

#[test]
fn subtraction_without_borrow() {
    let ten = Uint::<64, 1>::from_limbs([10]);
    let three = Uint::<64, 1>::from_limbs([3]);
    let (d, borrow) = ten.overflowing_sub(three);
    assert!(!borrow);
    assert_eq!(d.as_limbs(), &[7]);
}

#[test]
fn subtraction_borrows_across_limbs() {
    let a = Uint::<128, 2>::from_limbs([0, 1]);
    let b = Uint::<128, 2>::from_limbs([1, 0]);
    let (d, borrow) = a.overflowing_sub(b);
    assert!(!borrow);
    assert_eq!(d.as_limbs(), &[u64::MAX, 0]);
}

#[test]
fn subtraction_wraps_within_the_bit_width() {
    let zero = Uint::<7, 1>::from_limbs([0]);
    let one = Uint::<7, 1>::from_limbs([1]);
    let (d, borrow) = zero.overflowing_sub(one);
    assert!(borrow);
    assert_eq!(d.as_limbs(), &[127]);

    let a = Uint::<65, 2>::from_limbs([2, 0]);
    let b = Uint::<65, 2>::from_limbs([5, 0]);
    let (d, borrow) = a.overflowing_sub(b);
    assert!(borrow);
    assert_eq!(d.as_limbs(), &[u64::MAX - 2, 1]);

    let (d, borrow) = Uint::<64, 1>::from_limbs([0]).overflowing_sub(Uint::<64, 1>::from_limbs([1]));
    assert!(borrow);
    assert_eq!(d.as_limbs(), &[u64::MAX]);
}

#[test]
fn limb_comparator_on_slices() {
    assert_eq!(ruint::algorithms::cmp(&[], &[]), Ordering::Equal);
    assert_eq!(ruint::algorithms::cmp(&[1, 2, 3], &[1, 2, 3]), Ordering::Equal);
    assert_eq!(ruint::algorithms::cmp(&[9, 2, 3], &[1, 2, 4]), Ordering::Less);
    assert_eq!(ruint::algorithms::cmp(&[0, 3, 0], &[9, 2, 0]), Ordering::Greater);
}

#[test]
fn limb_comparator_sees_padding_bits() {
    // For a 65-bit type only the lowest bit of the top limb may be set; the
    // comparator reads whole limbs, so a set padding bit changes the result.
    let valid = [5u64, 1];
    let padded = [5u64, 1 | (1 << 63)];
    assert_eq!(ruint::algorithms::cmp(&valid, &padded), Ordering::Less);
}
