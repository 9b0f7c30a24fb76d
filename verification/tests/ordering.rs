use fraction::Fraction;
use std::cmp::Ordering;

fn pair(n: u64, d: u64) -> Fraction {
    Fraction::from_parts(n, d).unwrap()
}

#[test]
fn two_quarters_and_one_half_order_equal_but_are_not_equal() {
    let a = pair(2, 4);
    let b = pair(1, 2);
    assert!(a.cmp(&b) == Ordering::Equal);
    assert!(b.cmp(&a) == Ordering::Equal);
    assert!(!(a == b));
    assert!(a != b);
}

#[test]
fn partial_cmp_is_some_of_cmp() {
    let a = pair(2, 4);
    let b = pair(1, 2);
    let c = pair(2, 3);
    assert!(a.partial_cmp(&b) == Some(Ordering::Equal));
    assert!(a.partial_cmp(&c) == Some(Ordering::Less));
    assert!(c.partial_cmp(&a) == Some(Ordering::Greater));
}

#[test]
fn comparison_operators_follow_the_value() {
    let a = pair(2, 4);
    let b = pair(1, 2);
    let c = pair(2, 3);
    assert!(a <= b && a >= b);
    assert!(!(a < b) && !(a > b));
    assert!(a < c && c > a);
    assert!(a <= c && c >= a);
    assert!(!(c < a) && !(a > c));
}

#[test]
fn cmp_with_equal_denominators_compares_numerators() {
    assert!(pair(1, 7).cmp(&pair(2, 7)) == Ordering::Less);
    assert!(pair(2, 7).cmp(&pair(2, 7)) == Ordering::Equal);
    assert!(pair(3, 7).cmp(&pair(2, 7)) == Ordering::Greater);
    assert!(Fraction::new(0).cmp(&Fraction::new(0)) == Ordering::Equal);
    assert!(Fraction::new(u64::MAX).cmp(&Fraction::new(u64::MAX - 1)) == Ordering::Greater);
}

#[test]
fn cmp_with_different_denominators_cross_multiplies() {
    assert!(pair(1, 2).cmp(&pair(1, 3)) == Ordering::Greater);
    assert!(pair(1, 3).cmp(&pair(1, 2)) == Ordering::Less);
    assert!(pair(3, 9).cmp(&pair(1, 3)) == Ordering::Equal);
    assert!(pair(0, 9).cmp(&pair(0, 3)) == Ordering::Equal);
    // Cross products that need more than 64 bits.
    let m = u64::MAX;
    assert!(pair(m, m - 1).cmp(&pair(m - 1, m - 2)) == Ordering::Less);
    assert!(pair(m - 1, m).cmp(&pair(m - 2, m - 1)) == Ordering::Greater);
    assert!(pair(m, m).cmp(&pair(1, 1)) == Ordering::Equal);
    assert!(pair(m, 1).cmp(&pair(1, m)) == Ordering::Greater);
}

#[test]
fn cmp_matches_exact_cross_multiplication() {
    for an in 0u64..9 {
        for ad in 1u64..9 {
            for bn in 0u64..9 {
                for bd in 1u64..9 {
                    let want = (an as u128 * bd as u128).cmp(&(bn as u128 * ad as u128));
                    assert!(pair(an, ad).cmp(&pair(bn, bd)) == want);
                }
            }
        }
    }
}

#[test]
fn order_ignores_the_representation() {
    for n in 0u64..6 {
        for d in 1u64..6 {
            for k in 1u64..5 {
                let a = pair(n, d);
                let scaled = pair(n * k, d * k);
                assert!(a.cmp(&scaled) == Ordering::Equal);
                assert!((a == scaled) == (k == 1));
                for bn in 0u64..6 {
                    for bd in 1u64..6 {
                        let b = pair(bn, bd);
                        assert!(a.cmp(&b) == scaled.cmp(&b));
                        assert!(b.cmp(&a) == b.cmp(&scaled));
                    }
                }
            }
        }
    }
}

#[test]
fn order_is_reversed_by_swapping_and_is_transitive() {
    let all: Vec<Fraction> = (0u64..5).flat_map(|n| (1u64..5).map(move |d| pair(n, d))).collect();
    for a in &all {
        for b in &all {
            assert!(a.cmp(b) == b.cmp(a).reverse());
            for c in &all {
                if a.cmp(b) != Ordering::Greater && b.cmp(c) != Ordering::Greater {
                    assert!(a.cmp(c) != Ordering::Greater);
                }
            }
        }
    }
}

#[test]
fn equality_is_structural() {
    assert!(pair(1, 2) == pair(1, 2));
    assert!(pair(1, 2) != pair(2, 4));
    assert!(pair(1, 2) != pair(1, 3));
    assert!(pair(1, 2) != pair(2, 2));
    assert!(pair(0, 1) != pair(0, 2));
    assert!(pair(0, 1).cmp(&pair(0, 2)) == Ordering::Equal);
}
