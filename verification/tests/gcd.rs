use fraction::gcd;

#[test]
fn gcd_of_zero_and_zero_is_zero() {
    assert_eq!(gcd(0, 0), 0);
}

#[test]
fn gcd_with_zero_is_the_other_operand() {
    assert_eq!(gcd(7, 0), 7);
    assert_eq!(gcd(0, 7), 7);
    assert_eq!(gcd(u128::MAX, 0), u128::MAX);
    assert_eq!(gcd(0, u128::MAX), u128::MAX);
}

#[test]
fn gcd_of_small_numbers() {
    assert_eq!(gcd(6, 3), 3);
    assert_eq!(gcd(3, 3), 3);
    assert_eq!(gcd(12, 18), 6);
    assert_eq!(gcd(5, 6), 1);
    assert_eq!(gcd(1, 1), 1);
    assert_eq!(gcd(17, 5), 1);
    assert_eq!(gcd(1071, 462), 21);
}

#[test]
fn gcd_does_not_depend_on_operand_order() {
    assert_eq!(gcd(18, 12), 6);
    assert_eq!(gcd(12, 18), 6);
    assert_eq!(gcd(462, 1071), 21);
    for a in 0u128..40 {
        for b in 0u128..40 {
            assert_eq!(gcd(a, b), gcd(b, a));
        }
    }
}

#[test]
fn gcd_divides_both_and_is_divided_by_common_divisors() {
    for a in 0u128..60 {
        for b in 0u128..60 {
            let g = gcd(a, b);
            if a == 0 && b == 0 {
                assert_eq!(g, 0);
                continue;
            }
            assert!(g >= 1);
            assert_eq!(a % g, 0);
            assert_eq!(b % g, 0);
            for c in 1u128..60 {
                if a % c == 0 && b % c == 0 {
                    assert_eq!(g % c, 0);
                }
            }
        }
    }
}

#[test]
fn gcd_of_wide_operands() {
    let two_64: u128 = 1u128 << 64;
    assert_eq!(gcd(two_64 * 6, two_64 * 4), two_64 * 2);
    assert_eq!(gcd(u128::MAX, u128::MAX), u128::MAX);
    assert_eq!(gcd(u128::MAX, u128::MAX - 1), 1);
    let m: u128 = u64::MAX as u128;
    assert_eq!(gcd(m * m, m), m);
    assert_eq!(gcd(m, m * m), m);
}
