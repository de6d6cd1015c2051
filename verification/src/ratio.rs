//! Exact rational values in the unit interval.
//!
//! The normalized metrics are ratios of two exact counts.  They are kept as
//! numerator and denominator instead of being divided, so the contracts can
//! speak about them without any rounding.

use vstd::prelude::*;

verus! {

/// An exact, unreduced fraction `num / den` lying in the unit interval.
#[derive(Clone, Copy, Debug, PartialEq, Eq, Structural)]
pub struct Ratio {
    /// Numerator.
    pub num: u128,
    /// Denominator; always positive.
    pub den: u128,
}

impl Ratio {
    /// The fraction denotes a value in `[0, 1]`.
    pub open spec fn wf(self) -> bool {
        0 < self.den && self.num <= self.den
    }

    /// The complement `1 - num / den`, over the same denominator.
    pub open spec fn spec_complement(self) -> Ratio {
        Ratio { num: (self.den - self.num) as u128, den: self.den }
    }

    /// Two fractions denote the same rational.
    pub open spec fn same_value(self, other: Ratio) -> bool {
        self.num * other.den == other.num * self.den
    }

    /// The complement of a well-formed fraction: `1 - num / den`.
    pub fn complement(self) -> (r: Ratio)
        requires
            self.wf(),
        ensures
            r == self.spec_complement(),
            r.wf(),
    {
        Ratio { num: self.den - self.num, den: self.den }
    }

    /// A fraction and its complement add up to one: the numerators over the
    /// shared denominator sum to that denominator exactly.
    pub proof fn lemma_complement_sums_to_one(self)
        requires
            self.wf(),
        ensures
            self.num + self.spec_complement().num == self.den,
            self.spec_complement().den == self.den,
            self.spec_complement().spec_complement() == self,
    {
    }
}

} // verus!
