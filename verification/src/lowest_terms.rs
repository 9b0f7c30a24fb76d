//! Reduction of a numerator/denominator pair to lowest terms, and the facts
//! that make the reduced pair a canonical form of the rational value.

use crate::divisibility::{
    divides, is_common_divisor, lemma_divides_antisymmetric, lemma_divides_multiple,
    lemma_divides_quotient, lemma_divisor_bound,
};
use crate::gcd::{gcd_of, lemma_gcd_of_commutes, lemma_gcd_of_is_gcd};
use vstd::arithmetic::div_mod::lemma_truncate_middle;
use vstd::prelude::*;

verus! {

/// The pair `(n, d)` with both parts divided by their greatest common divisor.
pub open spec fn lowest_terms(n: nat, d: nat) -> (nat, nat) {
    (n / gcd_of(n, d), d / gcd_of(n, d))
}

/// `a` and `b` have no common divisor but 1.
pub open spec fn coprime(a: nat, b: nat) -> bool {
    gcd_of(a, b) == 1
}

/// The pairs `p` and `q`, read as numerator over denominator, stand for the
/// same rational number.
pub open spec fn same_value(p: (nat, nat), q: (nat, nat)) -> bool {
    p.0 * q.1 == q.0 * p.1
}

/// Both parts of the pair fit in 64 bits.
pub open spec fn fits_u64(p: (nat, nat)) -> bool {
    p.0 <= u64::MAX && p.1 <= u64::MAX
}

/// The reduction of `(n, d)` fits in 64 bits. For a positive `d` a pair that
/// fits as it stands has a reduction that fits (`lemma_lowest_terms_value`);
/// that case is named first so that small operands need no proof.
pub open spec fn reduction_fits(n: nat, d: nat) -> bool {
    fits_u64((n, d)) || fits_u64(lowest_terms(n, d))
}

/// With a positive second operand the greatest common divisor is positive and
/// no larger than that operand.
pub proof fn lemma_gcd_of_bound(n: nat, d: nat)
    requires
        d > 0,
    ensures
        0 < gcd_of(n, d) <= d,
        divides(gcd_of(n, d), n),
        divides(gcd_of(n, d), d),
{
    lemma_gcd_of_is_gcd(n, d);
    lemma_divisor_bound(gcd_of(n, d), d);
}

/// Scaling both operands by a positive `k` scales the greatest common divisor
/// by `k`.
pub proof fn lemma_gcd_of_scaled(k: nat, a: nat, b: nat)
    requires
        k > 0,
    ensures
        gcd_of(k * a, k * b) == k * gcd_of(a, b),
    decreases b,
{
    if b == 0 {
        assert(k * b == 0) by (nonlinear_arith)
            requires
                b == 0,
        ;
    } else {
        assert(k * b > 0) by (nonlinear_arith)
            requires
                k > 0,
                b > 0,
        ;
        lemma_truncate_middle(a as int, k as int, b as int);
        assert((k * a) % (k * b) == k * (a % b));
        lemma_gcd_of_scaled(k, b, a % b);
    }
}

/// If `a` is coprime to `b` and divides `b * c`, then `a` divides `c`.
pub proof fn lemma_coprime_divides_product(a: nat, b: nat, c: nat)
    requires
        coprime(a, b),
        divides(a, b * c),
    ensures
        divides(a, c),
{
    if c > 0 {
        lemma_gcd_of_scaled(c, a, b);
        assert(c * b == b * c) by (nonlinear_arith);
        assert(gcd_of(c * a, c * b) == c);
        lemma_gcd_of_is_gcd(c * a, c * b);
        lemma_divides_multiple(a, c);
        assert(is_common_divisor(a, c * a, c * b));
    }
}

/// The reduced pair keeps the value, has a positive denominator, and neither
/// part grows.
pub proof fn lemma_lowest_terms_value(n: nat, d: nat)
    requires
        d > 0,
    ensures
        same_value(lowest_terms(n, d), (n, d)),
        lowest_terms(n, d).1 >= 1,
        lowest_terms(n, d).0 <= n,
        lowest_terms(n, d).1 <= d,
        n == lowest_terms(n, d).0 * gcd_of(n, d),
        d == lowest_terms(n, d).1 * gcd_of(n, d),
{
    let g = gcd_of(n, d);
    lemma_gcd_of_bound(n, d);
    lemma_divides_quotient(g, n);
    lemma_divides_quotient(g, d);
    let p = n / g;
    let q = d / g;
    assert(p * d == n * q && q >= 1 && p <= n && q <= d) by (nonlinear_arith)
        requires
            n == p * g,
            d == q * g,
            g > 0,
            d > 0,
    ;
}

/// For a positive denominator, `reduction_fits` says no more than that the
/// reduced pair fits.
pub proof fn lemma_reduction_fits(n: nat, d: nat)
    requires
        d > 0,
    ensures
        reduction_fits(n, d) <==> fits_u64(lowest_terms(n, d)),
{
    lemma_lowest_terms_value(n, d);
}

/// The reduced pair is in lowest terms: its parts are coprime.
pub proof fn lemma_lowest_terms_coprime(n: nat, d: nat)
    requires
        d > 0,
    ensures
        coprime(lowest_terms(n, d).0, lowest_terms(n, d).1),
{
    let g = gcd_of(n, d);
    let p = n / g;
    let q = d / g;
    lemma_lowest_terms_value(n, d);
    lemma_gcd_of_bound(n, d);
    assert(g * p == n && g * q == d) by (nonlinear_arith)
        requires
            n == p * g,
            d == q * g,
    ;
    lemma_gcd_of_scaled(g, p, q);
    assert(gcd_of(p, q) == 1) by (nonlinear_arith)
        requires
            g == g * gcd_of(p, q),
            g > 0,
    ;
}

/// A pair whose parts are coprime is its own reduction.
pub proof fn lemma_lowest_terms_of_coprime(n: nat, d: nat)
    requires
        coprime(n, d),
    ensures
        lowest_terms(n, d) == (n, d),
{
}

/// A pair with denominator 1 is its own reduction.
pub proof fn lemma_lowest_terms_of_integer(n: nat)
    ensures
        coprime(n, 1),
        lowest_terms(n, 1) == (n, 1nat),
{
    assert(n % 1 == 0);
    assert(gcd_of(1, 0) == 1);
    assert(gcd_of(n, 1) == gcd_of(1, n % 1));
}

/// There is one pair in lowest terms for each value: a coprime pair with a
/// positive denominator that has the value of `(n, d)` is the reduction of
/// `(n, d)`.
pub proof fn lemma_lowest_terms_unique(p: nat, q: nat, n: nat, d: nat)
    requires
        d > 0,
        q > 0,
        coprime(p, q),
        same_value((p, q), (n, d)),
    ensures
        lowest_terms(n, d) == (p, q),
{
    let g = gcd_of(n, d);
    let rn = lowest_terms(n, d).0;
    let rd = lowest_terms(n, d).1;
    lemma_lowest_terms_value(n, d);
    lemma_lowest_terms_coprime(n, d);
    lemma_gcd_of_bound(n, d);
    // p * rd == rn * q, after cancelling g.
    assert(p * rd == rn * q) by (nonlinear_arith)
        requires
            p * d == n * q,
            n == rn * g,
            d == rd * g,
            g > 0,
    ;
    // q divides p * rd and is coprime to p, so q divides rd.
    assert(gcd_of(q, p) == 1) by {
        lemma_gcd_of_commutes(p, q);
    }
    assert(divides(q, p * rd)) by {
        assert(rn * q == q * rn) by (nonlinear_arith);
        lemma_divides_multiple(q, rn);
    }
    lemma_coprime_divides_product(q, p, rd);
    // rd divides rn * q and is coprime to rn, so rd divides q.
    assert(gcd_of(rd, rn) == 1) by {
        lemma_gcd_of_commutes(rn, rd);
    }
    assert(divides(rd, rn * q)) by {
        assert(p * rd == rd * p) by (nonlinear_arith);
        lemma_divides_multiple(rd, p);
    }
    lemma_coprime_divides_product(rd, rn, q);
    lemma_divides_antisymmetric(q, rd);
    assert(p == rn) by (nonlinear_arith)
        requires
            p * rd == rn * q,
            q == rd,
            q > 0,
    ;
}

/// Pairs of the same value reduce to the same pair.
pub proof fn lemma_lowest_terms_canonical(n1: nat, d1: nat, n2: nat, d2: nat)
    requires
        d1 > 0,
        d2 > 0,
        same_value((n1, d1), (n2, d2)),
    ensures
        lowest_terms(n1, d1) == lowest_terms(n2, d2),
{
    let p = lowest_terms(n2, d2).0;
    let q = lowest_terms(n2, d2).1;
    lemma_lowest_terms_value(n2, d2);
    lemma_lowest_terms_coprime(n2, d2);
    assert(p * d1 == n1 * q) by (nonlinear_arith)
        requires
            p * d2 == n2 * q,
            n1 * d2 == n2 * d1,
            d2 > 0,
    ;
    lemma_lowest_terms_unique(p, q, n1, d1);
}

/// Multiplying both parts by a positive `k` does not change the reduction.
pub proof fn lemma_lowest_terms_scaled(k: nat, n: nat, d: nat)
    requires
        k > 0,
        d > 0,
    ensures
        lowest_terms(k * n, k * d) == lowest_terms(n, d),
{
    assert(k * d > 0 && (k * n) * d == n * (k * d)) by (nonlinear_arith)
        requires
            k > 0,
            d > 0,
    ;
    lemma_lowest_terms_canonical(k * n, k * d, n, d);
}

} // verus!
