//! Ranges of scalars.

use crate::scalar::Scalar;
use vstd::prelude::*;

verus! {

/// The scalars from `min` to `max`. Nothing forces `min <= max`: an
/// interval with `min > max` holds no scalar.
#[derive(Clone, Copy, Debug, PartialEq, Eq, Structural)]
pub struct Interval {
    pub min: Scalar,
    pub max: Scalar,
}

impl Interval {
    /// The interval from `min` to `max`.
    pub fn new(min: Scalar, max: Scalar) -> (r: Interval)
        ensures
            r == (Interval { min, max }),
    {
        Interval { min, max }
    }

    /// Whether `x` lies in the interval, ends included.
    pub open spec fn spec_contains(self, x: Scalar) -> bool {
        self.min@ <= x@ <= self.max@
    }

    /// Whether `x` lies in the interval, ends included.
    pub fn contains(&self, x: Scalar) -> (r: bool)
        ensures
            r == self.spec_contains(x),
    {
        self.min.le(x) && x.le(self.max)
    }

    /// Whether `x` lies strictly inside the interval.
    pub open spec fn spec_surrounds(self, x: Scalar) -> bool {
        self.min@ < x@ < self.max@
    }

    /// Whether `x` lies strictly inside the interval.
    pub fn surrounds(&self, x: Scalar) -> (r: bool)
        ensures
            r == self.spec_surrounds(x),
    {
        self.min.lt(x) && x.lt(self.max)
    }

    /// The larger of `min` and the smaller of `x` and `max`.
    pub open spec fn spec_clamp(self, x: Scalar) -> Scalar {
        self.min.spec_max(x.spec_min(self.max))
    }

    /// The larger of `min` and the smaller of `x` and `max`: the member of
    /// the interval nearest to `x`, where the interval has one.
    pub fn clamp(&self, x: Scalar) -> (r: Scalar)
        ensures
            r == self.spec_clamp(x),
    {
        self.min.max(x.min(self.max))
    }
}

} // verus!
