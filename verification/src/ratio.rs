//! Exact rational query results.

use vstd::prelude::*;

verus! {

/// An exact rational number `num / den`.
///
/// Query operations whose mathematical result need not be a whole number
/// (interpolated values, fractional indices, windowed aggregates) return a
/// `Ratio` instead of rounding.  A well-formed `Ratio` has a positive
/// denominator; the fraction is not reduced to lowest terms.
#[derive(Clone, Copy, Debug, PartialEq, Eq, Structural)]
pub struct Ratio {
    pub num: i128,
    pub den: i128,
}

impl Ratio {
    /// A well-formed ratio has a positive denominator.
    pub open spec fn wf(self) -> bool {
        self.den > 0
    }

    /// True when the ratio is exactly the integer `v`.
    pub open spec fn is_whole(self, v: int) -> bool {
        self.num == v && self.den == 1
    }

    /// The ratio `v / 1`.
    pub fn whole(v: i64) -> (r: Ratio)
        ensures
            r.is_whole(v as int),
            r.wf(),
    {
        Ratio { num: v as i128, den: 1 }
    }
}

} // verus!
