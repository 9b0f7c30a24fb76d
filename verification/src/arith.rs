//! Sum and difference of two fractions, product and quotient of a fraction
//! and a scalar, each with its in-place form.
//!
//! Every operator returns the exact result in lowest terms. None of them
//! checks at run time: a result that does not fit in 64 bits after reduction,
//! a negative difference and a zero divisor are left out by the operator's
//! precondition.

use crate::fraction::{lemma_fields, Fraction};
use crate::gcd::gcd;
use crate::lowest_terms::{
    coprime, lemma_gcd_of_bound, lemma_lowest_terms_coprime, lemma_lowest_terms_of_integer,
    lemma_lowest_terms_scaled, lemma_lowest_terms_value, lowest_terms, reduction_fits, same_value,
};
use std::ops::{Add, AddAssign, Div, DivAssign, Mul, MulAssign, Sub, SubAssign};
use vstd::prelude::*;
use vstd::std_specs::ops::{AddSpec, DivSpec, MulSpec, SubSpec};

verus! {

impl Fraction {
    /// The exact sum of two fractions over the product of their denominators.
    pub open spec fn sum_pair(self, rhs: Fraction) -> (nat, nat) {
        (self.numer() * rhs.denom() + rhs.numer() * self.denom(), self.denom() * rhs.denom())
    }

    /// The exact difference of two fractions over the product of their
    /// denominators, where `rhs` is not the larger.
    pub open spec fn difference_pair(self, rhs: Fraction) -> (nat, nat) {
        (
            (self.numer() * rhs.denom() - rhs.numer() * self.denom()) as nat,
            self.denom() * rhs.denom(),
        )
    }

    /// The exact product of a fraction and a scalar over the fraction's
    /// denominator.
    pub open spec fn product_pair(self, k: u64) -> (nat, nat) {
        (self.numer() * k as nat, self.denom())
    }

    /// The exact quotient of a fraction by a scalar: the fraction's numerator
    /// over the denominator times the scalar.
    pub open spec fn quotient_pair(self, k: u64) -> (nat, nat) {
        (self.numer(), self.denom() * k as nat)
    }

    /// The stored pair is in lowest terms.
    pub open spec fn is_reduced(self) -> bool {
        coprime(self@.0, self@.1)
    }

    /// What every operator promises of its result, for the exact result `p`:
    /// the fraction stores `p` divided through by the greatest common divisor
    /// of its parts. So it has the value of `p`, it is in lowest terms,
    /// neither part exceeds that of `p`, and it is valid.
    pub open spec fn is_reduction_of(self, p: (nat, nat)) -> bool {
        &&& self@ == lowest_terms(p.0, p.1)
        &&& same_value(self@, p)
        &&& self.is_reduced()
        &&& self@.0 <= p.0
        &&& self@.1 <= p.1
        &&& self.wf()
    }
}

/// The pair `n / d` in lowest terms. Where the greatest common divisor is 1
/// the pair is stored as it is, which is what dividing by 1 gives.
pub(crate) fn reduce(n: u128, d: u128) -> (r: Fraction)
    requires
        d >= 1,
        reduction_fits(n as nat, d as nat),
    ensures
        r@ == lowest_terms(n as nat, d as nat),
        r == Fraction::from_pair(lowest_terms(n as nat, d as nat)),
        r.wf(),
{
    let g = gcd(n, d);
    proof {
        lemma_lowest_terms_value(n as nat, d as nat);
        lemma_gcd_of_bound(n as nat, d as nat);
    }
    if g == 1 {
        Fraction::from_raw(n as u64, d as u64)
    } else {
        Fraction::from_raw((n / g) as u64, (d / g) as u64)
    }
}

impl vstd::std_specs::ops::AddSpecImpl for Fraction {
    open spec fn obeys_add_spec() -> bool {
        true
    }

    /// The sum in lowest terms fits in 64 bits; for unequal denominators the
    /// cross-multiplied numerator fits in 128 bits.
    open spec fn add_req(self, rhs: Fraction) -> bool {
        let s = self.sum_pair(rhs);
        &&& reduction_fits(s.0, s.1)
        &&& self.denom() != rhs.denom() ==> s.0 <= u128::MAX
    }

    open spec fn add_spec(self, rhs: Fraction) -> Fraction {
        let s = self.sum_pair(rhs);
        Fraction::from_pair(lowest_terms(s.0, s.1))
    }
}

impl Add for Fraction {
    type Output = Fraction;

    /// The sum of two fractions, in lowest terms.
    fn add(self, rhs: Fraction) -> (r: Fraction)
        ensures
            r.is_reduction_of(self.sum_pair(rhs)),
    {
        let ghost s = self.sum_pair(rhs);
        proof {
            use_type_invariant(&self);
            use_type_invariant(&rhs);
            lemma_fields(self);
            lemma_fields(rhs);
            assert(s.1 >= 1) by (nonlinear_arith)
                requires
                    s.1 == self.denom() * rhs.denom(),
                    self.denom() >= 1,
                    rhs.denom() >= 1,
            ;
            lemma_lowest_terms_value(s.0, s.1);
            lemma_lowest_terms_coprime(s.0, s.1);
        }
        if self.d == 1 && rhs.d == 1 {
            proof {
                assert(s == (self.numer() + rhs.numer(), 1nat)) by (nonlinear_arith)
                    requires
                        s == self.sum_pair(rhs),
                        self.denom() == 1,
                        rhs.denom() == 1,
                        s.0 == self.numer() * rhs.denom() + rhs.numer() * self.denom(),
                        s.1 == self.denom() * rhs.denom(),
                ;
                lemma_lowest_terms_of_integer(self.numer() + rhs.numer());
            }
            Fraction::from_raw(self.n + rhs.n, 1)
        } else if self.d == rhs.d {
            let d = self.d as u128;
            let n = self.n as u128 + rhs.n as u128;
            proof {
                assert(s.0 == d as nat * n as nat && s.1 == d as nat * d as nat)
                    by (nonlinear_arith)
                    requires
                        s.0 == self.numer() * rhs.denom() + rhs.numer() * self.denom(),
                        s.1 == self.denom() * rhs.denom(),
                        self.denom() == d,
                        rhs.denom() == d,
                        n == self.numer() + rhs.numer(),
                ;
                lemma_lowest_terms_scaled(d as nat, n as nat, d as nat);
            }
            reduce(n, d)
        } else {
            let an = wide_product(self.n, rhs.d);
            let bn = wide_product(rhs.n, self.d);
            let d = wide_product(self.d, rhs.d);
            let n = an + bn;
            reduce(n, d)
        }
    }
}

impl AddAssign for Fraction {
    /// `self = self + rhs`.
    fn add_assign(&mut self, rhs: Fraction)
        requires
            old(self).add_req(rhs),
        ensures
            *final(self) == old(self).add_spec(rhs),
            final(self).is_reduction_of(old(self).sum_pair(rhs)),
    {
        *self = *self + rhs;
    }
}

impl vstd::std_specs::ops::SubSpecImpl for Fraction {
    open spec fn obeys_sub_spec() -> bool {
        true
    }

    /// `rhs` is not the larger value, and the difference in lowest terms fits
    /// in 64 bits.
    open spec fn sub_req(self, rhs: Fraction) -> bool {
        let s = self.difference_pair(rhs);
        &&& rhs.numer() * self.denom() <= self.numer() * rhs.denom()
        &&& reduction_fits(s.0, s.1)
    }

    open spec fn sub_spec(self, rhs: Fraction) -> Fraction {
        let s = self.difference_pair(rhs);
        Fraction::from_pair(lowest_terms(s.0, s.1))
    }
}

impl Sub for Fraction {
    type Output = Fraction;

    /// The difference of two fractions, in lowest terms.
    fn sub(self, rhs: Fraction) -> (r: Fraction)
        ensures
            r.is_reduction_of(self.difference_pair(rhs)),
    {
        let ghost s = self.difference_pair(rhs);
        proof {
            use_type_invariant(&self);
            use_type_invariant(&rhs);
            lemma_fields(self);
            lemma_fields(rhs);
            assert(s.1 >= 1) by (nonlinear_arith)
                requires
                    s.1 == self.denom() * rhs.denom(),
                    self.denom() >= 1,
                    rhs.denom() >= 1,
            ;
            lemma_lowest_terms_value(s.0, s.1);
            lemma_lowest_terms_coprime(s.0, s.1);
        }
        if self.d == 1 && rhs.d == 1 {
            proof {
                assert(rhs.numer() <= self.numer() && s == (
                    (self.numer() - rhs.numer()) as nat,
                    1nat,
                )) by (nonlinear_arith)
                    requires
                        self.denom() == 1,
                        rhs.denom() == 1,
                        rhs.numer() * self.denom() <= self.numer() * rhs.denom(),
                        s.0 == (self.numer() * rhs.denom() - rhs.numer() * self.denom()) as nat,
                        s.1 == self.denom() * rhs.denom(),
                ;
                lemma_lowest_terms_of_integer((self.numer() - rhs.numer()) as nat);
            }
            Fraction::from_raw(self.n - rhs.n, 1)
        } else if self.d == rhs.d {
            let d = self.d as u128;
            proof {
                assert(rhs.numer() <= self.numer()) by (nonlinear_arith)
                    requires
                        rhs.numer() * self.denom() <= self.numer() * rhs.denom(),
                        self.denom() == rhs.denom(),
                        self.denom() >= 1,
                ;
            }
            let n = self.n as u128 - rhs.n as u128;
            proof {
                assert(s.0 == d as nat * n as nat && s.1 == d as nat * d as nat)
                    by (nonlinear_arith)
                    requires
                        s.0 == (self.numer() * rhs.denom() - rhs.numer() * self.denom()) as nat,
                        s.1 == self.denom() * rhs.denom(),
                        self.denom() == d,
                        rhs.denom() == d,
                        n == self.numer() - rhs.numer(),
                        rhs.numer() <= self.numer(),
                ;
                lemma_lowest_terms_scaled(d as nat, n as nat, d as nat);
            }
            reduce(n, d)
        } else {
            let an = wide_product(self.n, rhs.d);
            let bn = wide_product(rhs.n, self.d);
            let d = wide_product(self.d, rhs.d);
            let n = an - bn;
            reduce(n, d)
        }
    }
}

impl SubAssign for Fraction {
    /// `self = self - rhs`.
    fn sub_assign(&mut self, rhs: Fraction)
        requires
            old(self).sub_req(rhs),
        ensures
            *final(self) == old(self).sub_spec(rhs),
            final(self).is_reduction_of(old(self).difference_pair(rhs)),
    {
        *self = *self - rhs;
    }
}

impl vstd::std_specs::ops::DivSpecImpl<u64> for Fraction {
    open spec fn obeys_div_spec() -> bool {
        true
    }

    /// The divisor is not zero, and the quotient in lowest terms fits in 64
    /// bits.
    open spec fn div_req(self, rhs: u64) -> bool {
        let s = self.quotient_pair(rhs);
        &&& rhs != 0
        &&& reduction_fits(s.0, s.1)
    }

    open spec fn div_spec(self, rhs: u64) -> Fraction {
        let s = self.quotient_pair(rhs);
        Fraction::from_pair(lowest_terms(s.0, s.1))
    }
}

impl Div<u64> for Fraction {
    type Output = Fraction;

    /// The quotient of a fraction by a non-zero scalar, in lowest terms.
    fn div(self, rhs: u64) -> (r: Fraction)
        ensures
            r.is_reduction_of(self.quotient_pair(rhs)),
    {
        let ghost s = self.quotient_pair(rhs);
        proof {
            use_type_invariant(&self);
            lemma_fields(self);
            assert(s.1 >= 1) by (nonlinear_arith)
                requires
                    s.1 == self.denom() * rhs as nat,
                    self.denom() >= 1,
                    rhs >= 1,
            ;
            lemma_lowest_terms_value(s.0, s.1);
            lemma_lowest_terms_coprime(s.0, s.1);
        }
        let n = self.n as u128;
        let d = wide_product(self.d, rhs);
        reduce(n, d)
    }
}

impl DivAssign<u64> for Fraction {
    /// `self = self / rhs`.
    fn div_assign(&mut self, rhs: u64)
        requires
            old(self).div_req(rhs),
        ensures
            *final(self) == old(self).div_spec(rhs),
            final(self).is_reduction_of(old(self).quotient_pair(rhs)),
    {
        *self = *self / rhs;
    }
}

impl vstd::std_specs::ops::MulSpecImpl<u64> for Fraction {
    open spec fn obeys_mul_spec() -> bool {
        true
    }

    /// The product in lowest terms fits in 64 bits.
    open spec fn mul_req(self, rhs: u64) -> bool {
        let s = self.product_pair(rhs);
        reduction_fits(s.0, s.1)
    }

    open spec fn mul_spec(self, rhs: u64) -> Fraction {
        let s = self.product_pair(rhs);
        Fraction::from_pair(lowest_terms(s.0, s.1))
    }
}

impl Mul<u64> for Fraction {
    type Output = Fraction;

    /// The product of a fraction and a scalar, in lowest terms.
    fn mul(self, rhs: u64) -> (r: Fraction)
        ensures
            r.is_reduction_of(self.product_pair(rhs)),
    {
        let ghost s = self.product_pair(rhs);
        proof {
            use_type_invariant(&self);
            lemma_fields(self);
            lemma_lowest_terms_value(s.0, s.1);
            lemma_lowest_terms_coprime(s.0, s.1);
        }
        let n = wide_product(self.n, rhs);
        let d = self.d as u128;
        reduce(n, d)
    }
}

impl MulAssign<u64> for Fraction {
    /// `self = self * rhs`.
    fn mul_assign(&mut self, rhs: u64)
        requires
            old(self).mul_req(rhs),
        ensures
            *final(self) == old(self).mul_spec(rhs),
            final(self).is_reduction_of(old(self).product_pair(rhs)),
    {
        *self = *self * rhs;
    }
}

/// The product of two 64-bit numbers, in 128 bits.
pub(crate) fn wide_product(x: u64, y: u64) -> (p: u128)
    ensures
        p == x * y,
{
    assert(x * y <= 0xffff_ffff_ffff_ffff * 0xffff_ffff_ffff_ffff) by (nonlinear_arith)
        requires
            x <= 0xffff_ffff_ffff_ffff,
            y <= 0xffff_ffff_ffff_ffff,
    ;
    x as u128 * y as u128
}

} // verus!
