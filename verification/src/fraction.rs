//! The fraction type, its model, construction and structural equality.

use vstd::prelude::*;

verus! {

/// A non-negative rational number, stored as a numerator and a denominator of
/// 64 bits each. The denominator is never zero. The stored pair need not be in
/// lowest terms, and `==` compares stored pairs, not values.
#[derive(Clone, Copy)]
pub struct Fraction {
    pub(crate) n: u64,
    pub(crate) d: u64,
}

impl View for Fraction {
    type V = (nat, nat);

    /// The stored pair: numerator, then denominator.
    open spec fn view(&self) -> (nat, nat) {
        (self.numer(), self.denom())
    }
}

impl Fraction {
    /// The stored numerator.
    pub closed spec fn numer(self) -> nat {
        self.n as nat
    }

    /// The stored denominator.
    pub closed spec fn denom(self) -> nat {
        self.d as nat
    }

    /// Validity: the denominator is at least 1. Every fraction that executable
    /// code holds is valid.
    #[verifier::type_invariant]
    pub open spec fn wf(self) -> bool {
        self.denom() >= 1
    }

    /// The fraction that stores the pair `p`, for a pair whose parts fit in 64
    /// bits.
    pub closed spec fn from_pair(p: (nat, nat)) -> Fraction {
        Fraction { n: p.0 as u64, d: p.1 as u64 }
    }

    /// The pair `(n, d)` as given, for the other modules of this crate.
    pub(crate) fn from_raw(n: u64, d: u64) -> (r: Fraction)
        requires
            d >= 1,
        ensures
            r@ == (n as nat, d as nat),
            r == Fraction::from_pair((n as nat, d as nat)),
            r.wf(),
    {
        Fraction { n: n, d: d }
    }

    /// The integer `n` as a fraction: the pair `(n, 1)`.
    pub fn new(n: u64) -> (r: Fraction)
        ensures
            r@ == (n as nat, 1nat),
            r.wf(),
    {
        Fraction { n: n, d: 1 }
    }

    /// The pair `(n, d)` as given, without reduction; `None` for a zero
    /// denominator.
    pub fn from_parts(n: u64, d: u64) -> (r: Option<Fraction>)
        ensures
            d == 0 <==> r is None,
            r matches Some(f) ==> f@ == (n as nat, d as nat) && f.wf(),
    {
        if d == 0 {
            None
        } else {
            Some(Fraction::from_raw(n, d))
        }
    }

    /// Whether the value is zero, that is, whether the numerator is.
    pub fn is_zero(&self) -> (r: bool)
        ensures
            r == (self@.0 == 0),
    {
        self.n == 0
    }
}

impl PartialEq for Fraction {
    /// Structural equality: both stored parts agree.
    fn eq(&self, other: &Fraction) -> (r: bool) {
        self.n == other.n && self.d == other.d
    }
}

impl vstd::std_specs::cmp::PartialEqSpecImpl for Fraction {
    open spec fn obeys_eq_spec() -> bool {
        true
    }

    open spec fn eq_spec(&self, other: &Fraction) -> bool {
        self@ == other@
    }
}

impl Eq for Fraction {}

/// What the model functions say of the stored fields, for the other modules
/// of this crate.
pub(crate) proof fn lemma_fields(a: Fraction)
    ensures
        a.numer() == a.n,
        a.denom() == a.d,
{
}

/// The parts of a stored pair fit in 64 bits.
pub proof fn lemma_view_fits(a: Fraction)
    ensures
        a@.0 <= u64::MAX,
        a@.1 <= u64::MAX,
{
}

/// `from_pair` stores what it is given.
pub proof fn lemma_from_pair_view(p: (nat, nat))
    requires
        p.0 <= u64::MAX,
        p.1 <= u64::MAX,
    ensures
        Fraction::from_pair(p)@ == p,
{
}

/// A fraction is determined by its stored pair.
pub proof fn lemma_view_injective(a: Fraction, b: Fraction)
    ensures
        a@ == b@ <==> a == b,
        Fraction::from_pair(a@) == a,
{
}

} // verus!
