//! What holds of the operators on every valid fraction: each returns the
//! exact result, in lowest terms, and scaling by a factor and back gives the
//! value that one started from.

use crate::fraction::{lemma_from_pair_view, lemma_view_fits, lemma_view_injective, Fraction};
use crate::lowest_terms::{
    lemma_lowest_terms_canonical, lemma_lowest_terms_coprime,
    lemma_lowest_terms_of_coprime, lemma_lowest_terms_unique, lemma_lowest_terms_value,
    lemma_reduction_fits, lowest_terms, reduction_fits, same_value,
};
use vstd::prelude::*;
use vstd::std_specs::ops::{AddSpec, DivSpec, MulSpec, SubSpec};

verus! {

/// What every operator does with the exact result `(n, d)`, once its
/// precondition has made sure that the reduction fits: the fraction that it
/// returns stores the reduction, which is valid, in lowest terms, and of the
/// value of `(n, d)`.
pub proof fn lemma_stored_reduction(n: nat, d: nat)
    requires
        d > 0,
        reduction_fits(n, d),
    ensures
        Fraction::from_pair(lowest_terms(n, d)).is_reduction_of((n, d)),
{
    lemma_reduction_fits(n, d);
    lemma_lowest_terms_value(n, d);
    lemma_lowest_terms_coprime(n, d);
    lemma_from_pair_view(lowest_terms(n, d));
}

/// The product of two positive denominators is positive.
proof fn lemma_denominators(a: Fraction, b: Fraction)
    requires
        a.wf(),
        b.wf(),
    ensures
        a.denom() * b.denom() > 0,
{
    assert(a.denom() * b.denom() > 0) by (nonlinear_arith)
        requires
            a.denom() >= 1,
            b.denom() >= 1,
    ;
}

/// Addition is exact: on valid fractions that meet its precondition, `a + b`
/// is a valid fraction in lowest terms whose value is the rational sum
/// `(a.n * b.d + b.n * a.d) / (a.d * b.d)`, whichever of the three branches
/// computes it.
pub proof fn lemma_add_exact(a: Fraction, b: Fraction)
    requires
        a.wf(),
        b.wf(),
        a.add_req(b),
    ensures
        a.add_spec(b).is_reduction_of(a.sum_pair(b)),
        a.add_spec(b)@.0 * (a@.1 * b@.1) == (a@.0 * b@.1 + b@.0 * a@.1) * a.add_spec(b)@.1,
{
    lemma_denominators(a, b);
    lemma_stored_reduction(a.sum_pair(b).0, a.sum_pair(b).1);
}

/// Subtraction is exact: on valid fractions that meet its precondition,
/// `a - b` is a valid fraction in lowest terms whose value is the rational
/// difference `(a.n * b.d - b.n * a.d) / (a.d * b.d)`, whichever of the three
/// branches computes it.
pub proof fn lemma_sub_exact(a: Fraction, b: Fraction)
    requires
        a.wf(),
        b.wf(),
        a.sub_req(b),
    ensures
        a.sub_spec(b).is_reduction_of(a.difference_pair(b)),
        a.sub_spec(b)@.0 * (a@.1 * b@.1) == (a@.0 * b@.1 - b@.0 * a@.1) * a.sub_spec(b)@.1,
{
    lemma_denominators(a, b);
    lemma_stored_reduction(a.difference_pair(b).0, a.difference_pair(b).1);
}

/// Multiplication by a scalar is exact: the result is a valid fraction in
/// lowest terms whose value is `(a.n * k) / a.d`.
pub proof fn lemma_mul_exact(a: Fraction, k: u64)
    requires
        a.wf(),
        a.mul_req(k),
    ensures
        a.mul_spec(k).is_reduction_of(a.product_pair(k)),
        a.mul_spec(k)@.0 * a@.1 == (a@.0 * k) * a.mul_spec(k)@.1,
{
    lemma_stored_reduction(a.product_pair(k).0, a.product_pair(k).1);
}

/// Division by a non-zero scalar is exact: the result is a valid fraction in
/// lowest terms whose value is `a.n / (a.d * k)`.
pub proof fn lemma_div_exact(a: Fraction, k: u64)
    requires
        a.wf(),
        a.div_req(k),
    ensures
        a.div_spec(k).is_reduction_of(a.quotient_pair(k)),
        a.div_spec(k)@.0 * (a@.1 * k) == a@.0 * a.div_spec(k)@.1,
{
    assert(a.denom() * k as nat > 0) by (nonlinear_arith)
        requires
            a.denom() >= 1,
            k >= 1,
    ;
    lemma_stored_reduction(a.quotient_pair(k).0, a.quotient_pair(k).1);
}

/// Multiplying by a non-zero scalar and dividing by it again gives back the
/// value: where `a * k` can be formed, `(a * k) / k` can be formed too and is
/// `a` in lowest terms. It is value-equal to `a`, and the same stored pair
/// exactly when `a` was in lowest terms.
pub proof fn lemma_mul_div_round_trip(a: Fraction, k: u64)
    requires
        a.wf(),
        k != 0,
        a.mul_req(k),
    ensures
        a.mul_spec(k).div_req(k),
        a.mul_spec(k).div_spec(k)@ == lowest_terms(a@.0, a@.1),
        same_value(a.mul_spec(k).div_spec(k)@, a@),
        a.is_reduced() <==> a.mul_spec(k).div_spec(k) == a,
{
    let m = a.mul_spec(k);
    let kk = k as nat;
    lemma_mul_exact(a, k);
    assert(m.denom() * kk > 0) by (nonlinear_arith)
        requires
            m.denom() >= 1,
            kk >= 1,
    ;
    let q = m.quotient_pair(k);
    assert(same_value(q, a@)) by (nonlinear_arith)
        requires
            m@.0 * a@.1 == (a@.0 * kk) * m@.1,
            q == (m@.0, m@.1 * kk),
            kk >= 1,
    ;
    lemma_lowest_terms_canonical(q.0, q.1, a@.0, a@.1);
    lemma_lowest_terms_value(a@.0, a@.1);
    lemma_lowest_terms_coprime(a@.0, a@.1);
    lemma_view_fits(a);
    lemma_stored_reduction(q.0, q.1);
    lemma_view_injective(m.div_spec(k), a);
}

/// Among valid fractions in lowest terms, equal value means equal stored
/// pair: only an unreduced pair can be value-equal to a fraction that it is
/// not `==` to.
pub proof fn lemma_reduced_same_value(a: Fraction, b: Fraction)
    requires
        a.wf(),
        b.wf(),
        a.is_reduced(),
        b.is_reduced(),
        same_value(a@, b@),
    ensures
        a == b,
{
    lemma_lowest_terms_unique(a@.0, a@.1, b@.0, b@.1);
    lemma_lowest_terms_of_coprime(b@.0, b@.1);
    lemma_view_injective(a, b);
}

} // verus!
