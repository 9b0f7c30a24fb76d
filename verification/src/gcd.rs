//! The greatest common divisor: its value as a function, the proof that the
//! function yields the greatest common divisor, and the executable routine.

use crate::divisibility::{
    divides, is_common_divisor, is_gcd, lemma_divides_difference, lemma_divides_scaled,
    lemma_divides_sum, lemma_gcd_symmetric, lemma_gcd_unique,
};
use vstd::arithmetic::div_mod::{lemma_fundamental_div_mod, lemma_mod_self_0, lemma_small_mod};
use vstd::arithmetic::mul::lemma_mul_is_commutative;
use vstd::prelude::*;

verus! {

/// The greatest common divisor of `a` and `b`, by Euclid's recurrence.
/// `gcd_of(a, 0) == a`, so `gcd_of(0, 0) == 0`.
pub open spec fn gcd_of(a: nat, b: nat) -> nat
    decreases b,
{
    if b == 0 {
        a
    } else {
        gcd_of(b, a % b)
    }
}

/// For positive `b`, the pairs `(a, b)` and `(b, a % b)` have the same common
/// divisors.
pub proof fn lemma_common_divisor_step(c: nat, a: nat, b: nat)
    requires
        b > 0,
    ensures
        is_common_divisor(c, a, b) <==> is_common_divisor(c, b, a % b),
{
    lemma_fundamental_div_mod(a as int, b as int);
    lemma_mul_is_commutative(b as int, (a / b) as int);
    let whole: nat = b * (a / b);
    assert(a == whole + a % b);
    if is_common_divisor(c, a, b) {
        lemma_divides_scaled(c, b, a / b);
        lemma_divides_difference(c, a, whole);
        assert((a - whole) as nat == a % b);
    }
    if is_common_divisor(c, b, a % b) {
        lemma_divides_scaled(c, b, a / b);
        lemma_divides_sum(c, whole, a % b);
    }
}

/// `gcd_of(a, b)` divides `a` and `b`, and every common divisor of `a` and
/// `b` divides it.
pub proof fn lemma_gcd_of_is_gcd(a: nat, b: nat)
    ensures
        is_gcd(gcd_of(a, b), a, b),
    decreases b,
{
    if b == 0 {
        assert(divides(a, a)) by {
            if a > 0 {
                lemma_mod_self_0(a as int);
            }
        }
        assert(is_gcd(a, a, 0));
    } else {
        let g = gcd_of(b, a % b);
        lemma_gcd_of_is_gcd(b, a % b);
        lemma_common_divisor_step(g, a, b);
        assert forall|c: nat| #[trigger] is_common_divisor(c, a, b) implies divides(c, g) by {
            lemma_common_divisor_step(c, a, b);
        }
    }
}

/// Whatever is a greatest common divisor of `a` and `b` equals `gcd_of(a, b)`.
pub proof fn lemma_gcd_of_characterized(g: nat, a: nat, b: nat)
    requires
        is_gcd(g, a, b),
    ensures
        g == gcd_of(a, b),
{
    lemma_gcd_of_is_gcd(a, b);
    lemma_gcd_unique(g, gcd_of(a, b), a, b);
}

/// The greatest common divisor does not depend on the order of the operands.
pub proof fn lemma_gcd_of_commutes(a: nat, b: nat)
    ensures
        gcd_of(a, b) == gcd_of(b, a),
{
    lemma_gcd_of_is_gcd(a, b);
    lemma_gcd_symmetric(gcd_of(a, b), a, b);
    lemma_gcd_of_characterized(gcd_of(a, b), b, a);
}

/// Greatest common divisor of two unsigned 128-bit integers.
///
/// The result divides both operands and is divisible by each of their common
/// divisors. `gcd(a, 0)` is `a`; in particular `gcd(0, 0)` is `0`.
pub fn gcd(a: u128, b: u128) -> (g: u128)
    ensures
        g == gcd_of(a as nat, b as nat),
        is_gcd(g as nat, a as nat, b as nat),
    decreases b,
{
    proof {
        lemma_gcd_of_is_gcd(a as nat, b as nat);
    }
    if b > a {
        proof {
            lemma_small_mod(a as nat, b as nat);
            lemma_gcd_of_commutes(a as nat, b as nat);
        }
        gcd(b, a)
    } else if b == 0 {
        a
    } else {
        gcd(b, a % b)
    }
}

} // verus!
