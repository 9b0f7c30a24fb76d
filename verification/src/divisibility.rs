//! Divisibility on the natural numbers, and what it means to be a greatest
//! common divisor.

use vstd::arithmetic::div_mod::{lemma_fundamental_div_mod, lemma_mod_multiples_basic};
use vstd::arithmetic::mul::{
    lemma_mul_is_associative, lemma_mul_is_commutative, lemma_mul_is_distributive_add,
    lemma_mul_is_distributive_sub,
};
use vstd::prelude::*;

verus! {

/// `d` divides `n`: `n` is a multiple of `d`. Zero divides zero only.
pub open spec fn divides(d: nat, n: nat) -> bool {
    if d == 0 {
        n == 0
    } else {
        n % d == 0
    }
}

/// `c` divides both `a` and `b`.
pub open spec fn is_common_divisor(c: nat, a: nat, b: nat) -> bool {
    divides(c, a) && divides(c, b)
}

/// `g` is a common divisor of `a` and `b` that every common divisor divides.
/// For `a == b == 0` this makes `0` the greatest common divisor.
pub open spec fn is_gcd(g: nat, a: nat, b: nat) -> bool {
    &&& is_common_divisor(g, a, b)
    &&& forall|c: nat| #[trigger] is_common_divisor(c, a, b) ==> divides(c, g)
}

/// Every multiple of `d` is divisible by `d`.
pub proof fn lemma_divides_multiple(d: nat, k: nat)
    ensures
        divides(d, d * k),
        divides(d, k * d),
{
    lemma_mul_is_commutative(d as int, k as int);
    if d > 0 {
        lemma_mod_multiples_basic(k as int, d as int);
    } else {
        assert(d * k == 0) by (nonlinear_arith)
            requires
                d == 0,
        ;
    }
}

/// A number divisible by a positive `d` is `d` times its quotient by `d`.
pub proof fn lemma_divides_quotient(d: nat, n: nat)
    requires
        d > 0,
        divides(d, n),
    ensures
        n == d * (n / d),
        n == (n / d) * d,
{
    lemma_fundamental_div_mod(n as int, d as int);
    lemma_mul_is_commutative(d as int, (n / d) as int);
}

/// A common divisor of two numbers divides their sum.
pub proof fn lemma_divides_sum(c: nat, a: nat, b: nat)
    requires
        divides(c, a),
        divides(c, b),
    ensures
        divides(c, a + b),
{
    if c > 0 {
        lemma_divides_quotient(c, a);
        lemma_divides_quotient(c, b);
        lemma_mul_is_distributive_add(c as int, (a / c) as int, (b / c) as int);
        lemma_divides_multiple(c, a / c + b / c);
    }
}

/// A common divisor of two numbers divides their difference.
pub proof fn lemma_divides_difference(c: nat, a: nat, b: nat)
    requires
        divides(c, a),
        divides(c, b),
        b <= a,
    ensures
        divides(c, (a - b) as nat),
{
    if c > 0 {
        lemma_divides_quotient(c, a);
        lemma_divides_quotient(c, b);
        lemma_mul_is_distributive_sub(c as int, (a / c) as int, (b / c) as int);
        assert(a / c >= b / c) by (nonlinear_arith)
            requires
                c > 0,
                a == c * (a / c),
                b == c * (b / c),
                b <= a,
        ;
        lemma_divides_multiple(c, (a / c - b / c) as nat);
    }
}

/// A divisor of a number divides every multiple of that number.
pub proof fn lemma_divides_scaled(c: nat, a: nat, k: nat)
    requires
        divides(c, a),
    ensures
        divides(c, a * k),
        divides(c, k * a),
{
    lemma_mul_is_commutative(a as int, k as int);
    if c > 0 {
        lemma_divides_quotient(c, a);
        lemma_mul_is_associative(c as int, (a / c) as int, k as int);
        lemma_divides_multiple(c, (a / c) * k);
    } else {
        assert(a * k == 0) by (nonlinear_arith)
            requires
                a == 0,
        ;
    }
}

/// A divisor of a positive number is positive and no larger than it.
pub proof fn lemma_divisor_bound(c: nat, n: nat)
    requires
        divides(c, n),
        n > 0,
    ensures
        0 < c <= n,
{
    lemma_divides_quotient(c, n);
    assert(c <= n) by (nonlinear_arith)
        requires
            n == c * (n / c),
            n > 0,
            c > 0,
    ;
}

/// Two numbers that divide each other are equal.
pub proof fn lemma_divides_antisymmetric(x: nat, y: nat)
    requires
        divides(x, y),
        divides(y, x),
    ensures
        x == y,
{
    if x > 0 && y > 0 {
        lemma_divisor_bound(x, y);
        lemma_divisor_bound(y, x);
    }
}

/// A greatest common divisor is one in either order of the two numbers.
pub proof fn lemma_gcd_symmetric(g: nat, a: nat, b: nat)
    requires
        is_gcd(g, a, b),
    ensures
        is_gcd(g, b, a),
{
    assert forall|c: nat| #[trigger] is_common_divisor(c, b, a) implies divides(c, g) by {
        assert(is_common_divisor(c, a, b));
    }
}

/// Two numbers have at most one greatest common divisor.
pub proof fn lemma_gcd_unique(g1: nat, g2: nat, a: nat, b: nat)
    requires
        is_gcd(g1, a, b),
        is_gcd(g2, a, b),
    ensures
        g1 == g2,
{
    assert(is_common_divisor(g1, a, b));
    assert(is_common_divisor(g2, a, b));
    lemma_divides_antisymmetric(g1, g2);
}

} // verus!
