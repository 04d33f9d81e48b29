//! Exact non-negative fractions.

use vstd::prelude::*;

verus! {

/// The mathematical fraction `num / den`. A denominator of zero stands for no
/// finite number.
pub ghost struct Fraction {
    pub num: nat,
    pub den: nat,
}

impl Fraction {
    /// The fraction denotes a number of the closed interval from 0 to 1.
    pub open spec fn in_unit_interval(self) -> bool {
        self.den > 0 && self.num <= self.den
    }

    /// The product of two fractions, numerator by numerator and denominator
    /// by denominator.
    pub open spec fn times(self, other: Fraction) -> Fraction {
        Fraction { num: self.num * other.num, den: self.den * other.den }
    }
}

/// A fraction of machine integers.
#[derive(Debug, Clone, Copy, PartialEq, Eq, Structural)]
pub struct Ratio {
    pub num: u128,
    pub den: u128,
}

impl View for Ratio {
    type V = Fraction;

    open spec fn view(&self) -> Fraction {
        Fraction { num: self.num as nat, den: self.den as nat }
    }
}

impl Ratio {
    /// The product of two ratios whose parts stay below 2^64.
    pub fn times(self, other: Ratio) -> (product: Ratio)
        requires
            self.num <= u64::MAX,
            self.den <= u64::MAX,
            other.num <= u64::MAX,
            other.den <= u64::MAX,
        ensures
            product@ == self@.times(other@),
    {
        proof {
            assert(self.num * other.num <= u64::MAX * u64::MAX) by (nonlinear_arith)
                requires
                    self.num <= u64::MAX,
                    other.num <= u64::MAX,
            ;
            assert(self.den * other.den <= u64::MAX * u64::MAX) by (nonlinear_arith)
                requires
                    self.den <= u64::MAX,
                    other.den <= u64::MAX,
            ;
        }
        Ratio { num: self.num * other.num, den: self.den * other.den }
    }
}

} // verus!
