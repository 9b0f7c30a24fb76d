use fraction::Fraction;
use std::cmp::Ordering;

fn pair(n: u64, d: u64) -> Fraction {
    Fraction::from_parts(n, d).unwrap()
}

#[test]
fn new_is_the_integer_over_one() {
    assert!(Fraction::new(7) == pair(7, 1));
    assert!(Fraction::new(0) == pair(0, 1));
    assert!(Fraction::new(u64::MAX) == pair(u64::MAX, 1));
    assert_eq!(Fraction::new(7).to_debug_string(), "7 / 1");
}

#[test]
fn from_parts_rejects_a_zero_denominator() {
    assert!(Fraction::from_parts(1, 0).is_none());
    assert!(Fraction::from_parts(0, 0).is_none());
    assert!(Fraction::from_parts(0, 1).is_some());
}

#[test]
fn from_parts_keeps_the_pair_unreduced() {
    assert_eq!(pair(2, 4).to_debug_string(), "2 / 4");
    assert!(pair(2, 4) != pair(1, 2));
}

#[test]
fn is_zero_looks_at_the_numerator() {
    assert!(Fraction::new(0).is_zero());
    assert!(pair(0, 5).is_zero());
    assert!(!Fraction::new(1).is_zero());
    assert!(!pair(1, 5).is_zero());
    assert!((pair(1, 2) - pair(1, 2)).is_zero());
    assert!((Fraction::new(9) * 0).is_zero());
}

#[test]
fn three_plus_five_is_eight() {
    let r = Fraction::new(3) + Fraction::new(5);
    assert!(r == pair(8, 1));
    assert_eq!(r.to_debug_string(), "8 / 1");
}

#[test]
fn one_half_plus_one_third_is_five_sixths() {
    let half = Fraction::new(1) / 2;
    let third = Fraction::new(1) / 3;
    assert!(half == pair(1, 2));
    assert!(third == pair(1, 3));
    let r = half + third;
    assert!(r == pair(5, 6));
    assert_eq!(r.to_debug_string(), "5 / 6");
}

#[test]
fn six_divided_by_three_is_two() {
    let r = Fraction::new(6) / 3;
    assert!(r == pair(2, 1));
    assert_eq!(r.to_debug_string(), "2 / 1");
}

#[test]
fn one_third_times_three_is_one() {
    let third = Fraction::new(1) / 3;
    let r = third * 3;
    assert!(r == pair(1, 1));
    assert_eq!(r.to_debug_string(), "1 / 1");
}

#[test]
fn add_with_unit_denominators() {
    assert!(Fraction::new(0) + Fraction::new(0) == pair(0, 1));
    assert!(Fraction::new(u64::MAX - 1) + Fraction::new(1) == pair(u64::MAX, 1));
    assert!(Fraction::new(40) + Fraction::new(2) == pair(42, 1));
}

#[test]
fn add_with_equal_denominators_reduces() {
    assert!(pair(1, 6) + pair(1, 6) == pair(1, 3));
    assert!(pair(1, 4) + pair(1, 4) == pair(1, 2));
    assert!(pair(1, 2) + pair(1, 2) == pair(1, 1));
    assert!(pair(2, 7) + pair(3, 7) == pair(5, 7));
    assert!(pair(0, 7) + pair(0, 7) == pair(0, 1));
}

#[test]
fn add_with_different_denominators_reduces() {
    assert!(pair(1, 2) + pair(1, 3) == pair(5, 6));
    assert!(pair(1, 6) + pair(1, 3) == pair(1, 2));
    assert!(pair(3, 4) + pair(5, 1) == pair(23, 4));
    assert!(pair(5, 1) + pair(3, 4) == pair(23, 4));
    assert!(pair(2, 4) + pair(1, 3) == pair(5, 6));
}

#[test]
fn add_goes_through_wide_intermediates() {
    // Equal denominators, numerator sum above 64 bits before reduction.
    assert!(pair(u64::MAX, 2) + pair(u64::MAX, 2) == pair(u64::MAX, 1));
    // Different denominators, cross products above 64 bits before reduction.
    let big = 1u64 << 63;
    assert!(pair(big, 3) + pair(big, 6) == pair(1u64 << 62, 1));
    // Two primes below 2^32: nothing to cancel, and the denominator needs 64 bits.
    let p = 4_294_967_291u64;
    let q = 4_294_967_279u64;
    assert!(pair(1, p) + pair(1, q) == pair(p + q, p * q));
    assert!(pair(1, q) - pair(1, p) == pair(p - q, p * q));
}

#[test]
fn sub_with_unit_denominators() {
    assert!(Fraction::new(5) - Fraction::new(3) == pair(2, 1));
    assert!(Fraction::new(5) - Fraction::new(5) == pair(0, 1));
    assert!(Fraction::new(u64::MAX) - Fraction::new(1) == pair(u64::MAX - 1, 1));
}

#[test]
fn sub_with_equal_denominators_reduces() {
    assert!(pair(3, 4) - pair(1, 4) == pair(1, 2));
    assert!(pair(5, 7) - pair(3, 7) == pair(2, 7));
    assert!(pair(3, 7) - pair(3, 7) == pair(0, 1));
}

#[test]
fn sub_with_different_denominators_reduces() {
    assert!(pair(1, 2) - pair(1, 3) == pair(1, 6));
    assert!(pair(5, 6) - pair(1, 3) == pair(1, 2));
    assert!(pair(5, 1) - pair(3, 4) == pair(17, 4));
    assert!(pair(2, 4) - pair(1, 2) == pair(0, 1));
    let big = 1u64 << 63;
    assert!(pair(big, 3) - pair(big, 6) == pair(1u64 << 62, 3));
}

#[test]
fn sum_and_difference_have_the_exact_value() {
    for an in 0u64..7 {
        for ad in 1u64..7 {
            for bn in 0u64..7 {
                for bd in 1u64..7 {
                    let a = pair(an, ad);
                    let b = pair(bn, bd);
                    let sum = a + b;
                    let want = pair(an * bd + bn * ad, ad * bd);
                    assert!(sum.cmp(&want) == Ordering::Equal);
                    assert!(sum == want * 1);
                    if an * bd >= bn * ad {
                        let diff = a - b;
                        let want = pair(an * bd - bn * ad, ad * bd);
                        assert!(diff.cmp(&want) == Ordering::Equal);
                        assert!(diff == want * 1);
                        assert!((diff + b).cmp(&a) == Ordering::Equal);
                    }
                }
            }
        }
    }
}

#[test]
fn mul_reduces() {
    assert!(pair(1, 3) * 3 == pair(1, 1));
    assert!(pair(1, 6) * 4 == pair(2, 3));
    assert!(pair(5, 7) * 2 == pair(10, 7));
    assert!(pair(5, 7) * 0 == pair(0, 1));
    assert!(pair(2, 4) * 1 == pair(1, 2));
    assert!(pair(u64::MAX, u64::MAX) * u64::MAX == pair(u64::MAX, 1));
}

#[test]
fn div_reduces() {
    assert!(Fraction::new(6) / 3 == pair(2, 1));
    assert!(pair(1, 2) / 2 == pair(1, 4));
    assert!(pair(4, 3) / 6 == pair(2, 9));
    assert!(pair(0, 3) / 6 == pair(0, 1));
    assert!(pair(2, 4) / 1 == pair(1, 2));
    assert!(pair(u64::MAX, u64::MAX) / u64::MAX == pair(1, u64::MAX));
}

#[test]
fn coprime_results_are_stored_as_they_are() {
    // Greatest common divisor 1: the pair is kept, as dividing by 1 would.
    assert_eq!((pair(1, 2) + pair(1, 3)).to_debug_string(), "5 / 6");
    assert_eq!((pair(3, 7) - pair(1, 7)).to_debug_string(), "2 / 7");
    assert_eq!((pair(3, 7) * 5).to_debug_string(), "15 / 7");
    assert_eq!((pair(3, 7) / 5).to_debug_string(), "3 / 35");
    // Greatest common divisor above 1: both parts are divided.
    assert_eq!((pair(1, 6) + pair(1, 3)).to_debug_string(), "1 / 2");
    assert_eq!((pair(3, 7) * 14).to_debug_string(), "6 / 1");
}

#[test]
fn mul_then_div_gives_back_the_value() {
    for n in 0u64..12 {
        for d in 1u64..12 {
            for k in 1u64..9 {
                let a = pair(n, d);
                let back = (a * k) / k;
                assert!(back.cmp(&a) == Ordering::Equal);
                assert!(back == a * 1);
            }
        }
    }
    let a = pair(2, 4);
    let back = (a * 3) / 3;
    assert!(back.cmp(&a) == Ordering::Equal);
    assert!(back != a);
    assert!(back == pair(1, 2));
}

#[test]
fn in_place_forms_assign_the_result() {
    let mut a = Fraction::new(1);
    a /= 2;
    assert!(a == pair(1, 2));
    a += pair(1, 3);
    assert!(a == pair(5, 6));
    a -= pair(1, 6);
    assert!(a == pair(2, 3));
    a *= 3;
    assert!(a == pair(2, 1));
    a += Fraction::new(3);
    assert!(a == pair(5, 1));
    a -= Fraction::new(5);
    assert!(a.is_zero());
}

#[test]
fn operands_are_copied_not_consumed() {
    let a = pair(1, 2);
    let b = a;
    let _ = a + b;
    let _ = a - b;
    assert!(a == b);
    assert!(a.clone() == a);
}
