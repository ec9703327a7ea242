//! Closed scalar ranges: used to bound acceptable ray parameters and to
//! clamp color channels.

use vstd::prelude::*;
use crate::limits::T_MAX;

verus! {

/// A closed range of fixed-point scalars.
#[derive(Clone, Copy, Debug, Default, PartialEq, Eq, Structural)]
pub struct Interval {
    pub min: i64,
    pub max: i64,
}

/// Both endpoints lie within the ray-parameter bound.
pub open spec fn wf_interval(i: Interval) -> bool {
    -T_MAX <= i.min <= T_MAX && -T_MAX <= i.max <= T_MAX
}

/// `x` pushed into `[min, max]`.
pub open spec fn clamp_spec(min: int, max: int, x: int) -> int {
    if x < min {
        min
    } else if x > max {
        max
    } else {
        x
    }
}

impl Interval {
    /// The range from `min` to `max`.
    pub fn new(min: i64, max: i64) -> (r: Interval)
        ensures
            r.min == min && r.max == max,
    {
        Interval { min, max }
    }

    /// The width of the range.
    pub fn size(&self) -> (r: i64)
        requires
            wf_interval(*self),
        ensures
            r == self.max - self.min,
    {
        self.max - self.min
    }

    /// Whether `x` lies in the range, inclusive on both ends.
    pub fn contains(&self, x: i64) -> (r: bool)
        ensures
            r == (self.min <= x && x <= self.max),
    {
        self.min <= x && x <= self.max
    }

    /// Whether `x` lies strictly inside the range; the acceptance policy
    /// for intersection parameters, which keeps a bounced ray from
    /// hitting its own origin.
    pub fn surrounds(&self, x: i64) -> (r: bool)
        ensures
            r == (self.min < x && x < self.max),
    {
        self.min < x && x < self.max
    }

    /// `x` pushed into the range.
    pub fn clamp(&self, x: i64) -> (r: i64)
        requires
            self.min <= self.max,
        ensures
            r == clamp_spec(self.min as int, self.max as int, x as int),
            self.min <= r <= self.max,
    {
        if x < self.min {
            self.min
        } else if x > self.max {
            self.max
        } else {
            x
        }
    }
}

} // verus!
