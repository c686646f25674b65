use vstd::prelude::*;

use crate::common::TMAX;

verus! {

/// A closed scalar interval of raw fixed-point values.  `min > max` denotes
/// an empty interval.
#[derive(Clone, Copy, Debug, PartialEq, Eq, Structural)]
pub struct Interval {
    pub min: i64,
    pub max: i64,
}

/// Interval endpoints a search or box interval is allowed to carry.
pub open spec fn interval_wf(i: Interval) -> bool {
    &&& -TMAX <= i.min <= TMAX
    &&& -TMAX <= i.max <= TMAX
}

impl Interval {
    /// The empty interval: no value lies in it.
    pub fn empty() -> (r: Interval)
        ensures
            r.min == TMAX && r.max == -TMAX,
    {
        Interval { min: TMAX, max: -TMAX }
    }

    /// The interval holding every representable ray parameter.
    pub fn universe() -> (r: Interval)
        ensures
            r.min == -TMAX && r.max == TMAX,
    {
        Interval { min: -TMAX, max: TMAX }
    }

    pub fn contains(&self, x: i64) -> (r: bool)
        ensures
            r == (self.min <= x && x <= self.max),
    {
        self.min <= x && x <= self.max
    }

    pub fn surrounds(&self, x: i64) -> (r: bool)
        ensures
            r == (self.min < x && x < self.max),
    {
        self.min < x && x < self.max
    }

    pub fn size(&self) -> (r: i64)
        requires
            -0x3FFF_FFFF_FFFF_FFFF <= self.min <= 0x3FFF_FFFF_FFFF_FFFF,
            -0x3FFF_FFFF_FFFF_FFFF <= self.max <= 0x3FFF_FFFF_FFFF_FFFF,
        ensures
            r == self.max - self.min,
    {
        self.max - self.min
    }

    /// Widens the interval by half of `delta` on each side.
    pub fn expand(&self, delta: i64) -> (r: Interval)
        requires
            0 <= delta <= 0x1000_0000,
            -0x3FFF_FFFF_FFFF_FFFF <= self.min <= 0x3FFF_FFFF_FFFF_FFFF,
            -0x3FFF_FFFF_FFFF_FFFF <= self.max <= 0x3FFF_FFFF_FFFF_FFFF,
        ensures
            r.min == self.min - delta / 2,
            r.max == self.max + delta / 2,
    {
        let padding = delta / 2;
        Interval { min: self.min - padding, max: self.max + padding }
    }

    /// The smallest interval holding both `self` and `o` (interval union).
    pub fn add(&self, o: &Interval) -> (r: Interval)
        ensures
            r.min == if self.min < o.min { self.min } else { o.min },
            r.max == if self.max > o.max { self.max } else { o.max },
    {
        Interval {
            min: if self.min < o.min { self.min } else { o.min },
            max: if self.max > o.max { self.max } else { o.max },
        }
    }

    /// The interval moved by the offset `k`.
    pub fn shift(&self, k: i64) -> (r: Interval)
        requires
            -0x3FFF_FFFF_FFFF_FFFF <= self.min + k <= 0x3FFF_FFFF_FFFF_FFFF,
            -0x3FFF_FFFF_FFFF_FFFF <= self.max + k <= 0x3FFF_FFFF_FFFF_FFFF,
            -0x3FFF_FFFF_FFFF_FFFF <= self.min <= 0x3FFF_FFFF_FFFF_FFFF,
            -0x3FFF_FFFF_FFFF_FFFF <= self.max <= 0x3FFF_FFFF_FFFF_FFFF,
            -0x3FFF_FFFF_FFFF_FFFF <= k <= 0x3FFF_FFFF_FFFF_FFFF,
        ensures
            r.min == self.min + k,
            r.max == self.max + k,
    {
        Interval { min: self.min + k, max: self.max + k }
    }
}

} // verus!
