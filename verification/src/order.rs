//! The order of fractions by value. Two stored pairs of the same value are
//! `Equal` in this order even where `==`, which compares the pairs, tells them
//! apart.

use crate::arith::wide_product;
use crate::fraction::{lemma_fields, Fraction};
use crate::lowest_terms::{lemma_lowest_terms_value, lowest_terms, same_value};
use std::cmp::Ordering;
use vstd::prelude::*;
use vstd::std_specs::ops::{DivSpec, MulSpec};

verus! {

/// How the rational value of `p` compares to that of `q`, both read as
/// numerator over positive denominator: by cross-multiplication.
pub open spec fn value_order(p: (nat, nat), q: (nat, nat)) -> Ordering {
    if p.0 * q.1 < q.0 * p.1 {
        Ordering::Less
    } else if p.0 * q.1 == q.0 * p.1 {
        Ordering::Equal
    } else {
        Ordering::Greater
    }
}

impl Fraction {
    /// Compares two fractions by value, whatever pairs they are stored as.
    pub fn cmp(&self, other: &Fraction) -> (r: Ordering)
        ensures
            r == value_order(self@, other@),
    {
        proof {
            use_type_invariant(self);
            use_type_invariant(other);
            lemma_fields(*self);
            lemma_fields(*other);
        }
        if self.d == other.d {
            proof {
                lemma_common_denominator(self@.0, other@.0, self@.1);
            }
            self.n.cmp(&other.n)
        } else {
            let an = wide_product(self.n, other.d);
            let bn = wide_product(other.n, self.d);
            an.cmp(&bn)
        }
    }
}

impl PartialOrd for Fraction {
    /// The order by value; never `None`.
    fn partial_cmp(&self, other: &Fraction) -> (r: Option<Ordering>) {
        Some(self.cmp(other))
    }
}

impl vstd::std_specs::cmp::PartialOrdSpecImpl for Fraction {
    open spec fn obeys_partial_cmp_spec() -> bool {
        true
    }

    open spec fn partial_cmp_spec(&self, other: &Fraction) -> Option<Ordering> {
        Some(value_order(self@, other@))
    }
}

/// Over a common positive denominator, values compare as their numerators.
pub proof fn lemma_common_denominator(x: nat, y: nat, d: nat)
    requires
        d >= 1,
    ensures
        x < y <==> x * d < y * d,
        x == y <==> x * d == y * d,
{
    assert((x < y <==> x * d < y * d) && (x == y <==> x * d == y * d)) by (nonlinear_arith)
        requires
            d >= 1,
    ;
}

/// Two pairs are `Equal` in the order exactly when they have the same value.
pub proof fn lemma_order_equal_is_same_value(p: (nat, nat), q: (nat, nat))
    ensures
        value_order(p, q) == Ordering::Equal <==> same_value(p, q),
{
}

/// Swapping the operands reverses the order.
pub proof fn lemma_order_reversed(p: (nat, nat), q: (nat, nat))
    ensures
        value_order(p, q) == Ordering::Less <==> value_order(q, p) == Ordering::Greater,
        value_order(p, q) == Ordering::Equal <==> value_order(q, p) == Ordering::Equal,
        value_order(p, q) == Ordering::Greater <==> value_order(q, p) == Ordering::Less,
{
}

/// The order is transitive on pairs with positive denominators, and strict
/// where one of the two steps is.
pub proof fn lemma_order_transitive(p: (nat, nat), q: (nat, nat), r: (nat, nat))
    requires
        p.1 > 0,
        q.1 > 0,
        r.1 > 0,
        value_order(p, q) != Ordering::Greater,
        value_order(q, r) != Ordering::Greater,
    ensures
        value_order(p, r) != Ordering::Greater,
        value_order(p, q) == Ordering::Less || value_order(q, r) == Ordering::Less
            ==> value_order(p, r) == Ordering::Less,
        value_order(p, q) == Ordering::Equal && value_order(q, r) == Ordering::Equal
            ==> value_order(p, r) == Ordering::Equal,
{
    let x = p.0 * q.1;
    let y = q.0 * p.1;
    let u = q.0 * r.1;
    let v = r.0 * q.1;
    let lhs = p.0 * r.1;
    let rhs = r.0 * p.1;
    assert(x * r.1 == lhs * q.1 && y * r.1 == u * p.1 && v * p.1 == rhs * q.1)
        by (nonlinear_arith)
        requires
            x == p.0 * q.1,
            y == q.0 * p.1,
            u == q.0 * r.1,
            v == r.0 * q.1,
            lhs == p.0 * r.1,
            rhs == r.0 * p.1,
    ;
    lemma_common_denominator(x, y, r.1);
    lemma_common_denominator(u, v, p.1);
    lemma_common_denominator(lhs, rhs, q.1);
}

/// The order looks at values only: replacing either operand by another pair
/// of the same value, such as `(2, 4)` by `(1, 2)`, does not change the
/// result. All denominators are positive.
pub proof fn lemma_order_of_same_value(
    p: (nat, nat),
    p_alt: (nat, nat),
    q: (nat, nat),
    q_alt: (nat, nat),
)
    requires
        p.1 > 0,
        p_alt.1 > 0,
        q.1 > 0,
        q_alt.1 > 0,
        same_value(p, p_alt),
        same_value(q, q_alt),
    ensures
        value_order(p, q) == value_order(p_alt, q_alt),
{
    // Through the chain p_alt, p, q, q_alt in one direction, and back in the other.
    if value_order(p, q) != Ordering::Greater {
        lemma_order_transitive(p_alt, p, q);
        lemma_order_transitive(p_alt, q, q_alt);
    }
    if value_order(p, q) != Ordering::Less {
        lemma_order_transitive(q, p, p_alt);
        lemma_order_transitive(q_alt, q, p_alt);
    }
}

/// Fractions compare as their reductions to lowest terms do.
pub proof fn lemma_order_of_reductions(a: Fraction, b: Fraction)
    requires
        a.wf(),
        b.wf(),
    ensures
        value_order(a@, b@) == value_order(
            lowest_terms(a@.0, a@.1),
            lowest_terms(b@.0, b@.1),
        ),
{
    lemma_lowest_terms_value(a@.0, a@.1);
    lemma_lowest_terms_value(b@.0, b@.1);
    lemma_order_of_same_value(
        lowest_terms(a@.0, a@.1),
        a@,
        lowest_terms(b@.0, b@.1),
        b@,
    );
}

/// Multiplying by a non-zero scalar and dividing by it again gives a
/// fraction that the order cannot tell from the one started with.
pub proof fn lemma_round_trip_order(a: Fraction, k: u64)
    requires
        a.wf(),
        k != 0,
        a.mul_req(k),
    ensures
        a.mul_spec(k).div_req(k),
        value_order(a.mul_spec(k).div_spec(k)@, a@) == Ordering::Equal,
{
    crate::laws::lemma_mul_div_round_trip(a, k);
}

} // verus!
