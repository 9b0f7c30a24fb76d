//! Exact non-negative rational numbers on 64-bit limbs.
//!
//! A [`Fraction`] stores a numerator and a denominator of 64 bits each; the
//! denominator is never zero. `+` and `-` take two fractions, `*` and `/` a
//! fraction and a `u64`; each computes through 128-bit intermediates and
//! returns the exact result in lowest terms. The order (`cmp`, `<`, `<=`, ...)
//! compares values, while `==` compares stored pairs: `2 / 4` and `1 / 2` are
//! `Equal` in the order and not `==`.
//!
//! Nothing is checked at run time. What an operator cannot compute is left
//! out by its precondition: a result whose lowest terms do not fit in 64
//! bits, a difference below zero, a zero divisor.
//!
//! - [`divisibility`]: divisibility and the definition of a greatest common
//!   divisor.
//! - [`gcd`](mod@gcd): the greatest common divisor as a function, and the
//!   routine that computes it.
//! - [`lowest_terms`]: reduction to lowest terms as a canonical form.
//! - [`fraction`]: the type, its model and constructors, `==`.
//! - [`arith`]: the four operators and their in-place forms.
//! - [`order`]: the order by value.
//! - [`render`]: the diagnostic text form.
//! - [`laws`]: what holds of the operators on all valid fractions.

pub mod divisibility;
pub mod gcd;
pub mod lowest_terms;
pub mod fraction;
pub mod arith;
pub mod order;
pub mod render;
pub mod laws;

pub use fraction::Fraction;
pub use gcd::gcd;
