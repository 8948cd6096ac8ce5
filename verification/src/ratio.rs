//! Exact fractions of unsigned integers.
//!
//! Rarity fractions, cutoff thresholds and sale frequencies are ratios of
//! counts; representing them as a numerator/denominator pair keeps every
//! comparison exact.

use vstd::prelude::*;

verus! {

/// A nonnegative fraction `num / den` with `den > 0`.
#[derive(Clone, Copy, Debug, PartialEq, Eq, Structural)]
pub struct Ratio {
    pub num: u64,
    pub den: u64,
}

/// The product of two values is bounded by the product of their bounds.
pub proof fn lemma_mul_le(a: int, b: int, c: int, d: int)
    by (nonlinear_arith)
    requires
        0 <= a <= c,
        0 <= b <= d,
    ensures
        a * b <= c * d,
{
}

impl Ratio {
    /// A ratio is well formed when its denominator is positive.
    pub open spec fn wf(self) -> bool {
        self.den > 0
    }

    /// `self < other` as exact fractions: `a/b < c/d  <=>  a*d < c*b`.
    pub open spec fn spec_lt(self, other: Ratio) -> bool {
        self.num * other.den < other.num * self.den
    }

    pub fn new(num: u64, den: u64) -> (r: Ratio)
        requires
            den > 0,
        ensures
            r.num == num,
            r.den == den,
            r.wf(),
    {
        Ratio { num, den }
    }

    /// Exact comparison of two fractions by cross multiplication.
    pub fn lt(&self, other: &Ratio) -> (r: bool)
        requires
            self.wf(),
            other.wf(),
        ensures
            r == self.spec_lt(*other),
    {
        proof {
            lemma_mul_le(self.num as int, other.den as int, u64::MAX as int, u64::MAX as int);
            lemma_mul_le(other.num as int, self.den as int, u64::MAX as int, u64::MAX as int);
        }
        (self.num as u128) * (other.den as u128) < (other.num as u128) * (self.den as u128)
    }
}

} // verus!
