//! Half-open position ranges over document positions.

use vstd::prelude::*;

verus! {

/// A half-open range `[start, end)` over document positions.
#[derive(Clone, Copy, PartialEq, Eq, Structural, Debug)]
pub struct Interval {
    pub start: usize,
    pub end: usize,
}

pub open spec fn imax(a: int, b: int) -> int {
    if a >= b {
        a
    } else {
        b
    }
}

pub open spec fn imin(a: int, b: int) -> int {
    if a <= b {
        a
    } else {
        b
    }
}

/// Clamp `v` into `[lo, hi]`.
pub open spec fn iclamp(v: int, lo: int, hi: int) -> int {
    if v <= lo {
        lo
    } else if v >= hi {
        hi
    } else {
        v
    }
}

impl Interval {
    pub open spec fn wf(self) -> bool {
        self.start <= self.end
    }

    pub open spec fn spec_size(self) -> int {
        self.end - self.start
    }

    pub open spec fn spec_is_empty(self) -> bool {
        self.start >= self.end
    }

    pub fn new(start: usize, end: usize) -> (r: Interval)
        requires
            start <= end,
        ensures
            r == (Interval { start, end }),
    {
        Interval { start, end }
    }

    /// `size = end - start`.
    pub fn size(&self) -> (r: usize)
        requires
            self.wf(),
        ensures
            r == self.spec_size(),
    {
        self.end - self.start
    }

    pub fn is_empty(&self) -> (r: bool)
        ensures
            r == self.spec_is_empty(),
    {
        self.start >= self.end
    }

    /// The part of `self` that precedes `other`.
    pub fn prefix(&self, other: Interval) -> (r: Interval)
        requires
            self.start <= other.start,
        ensures
            r == (Interval { start: self.start, end: other.start }),
    {
        Interval { start: self.start, end: other.start }
    }

    /// The part of `self` that follows `other`.
    pub fn suffix(&self, other: Interval) -> (r: Interval)
        requires
            other.end <= self.end,
        ensures
            r == (Interval { start: other.end, end: self.end }),
    {
        Interval { start: other.end, end: self.end }
    }

    /// The overlap of two ranges; an empty range when they do not overlap.
    pub fn intersect(&self, other: Interval) -> (r: Interval)
        requires
            self.wf(),
            other.wf(),
        ensures
            r.wf(),
            imax(self.start as int, other.start as int) < imin(self.end as int, other.end as int)
                ==> r.start == imax(self.start as int, other.start as int) && r.end == imin(
                self.end as int,
                other.end as int,
            ),
            imax(self.start as int, other.start as int) >= imin(self.end as int, other.end as int)
                ==> r.spec_is_empty(),
    {
        let s: usize = if self.start >= other.start {
            self.start
        } else {
            other.start
        };
        let e: usize = if self.end <= other.end {
            self.end
        } else {
            other.end
        };
        if s < e {
            Interval { start: s, end: e }
        } else {
            Interval { start: s, end: s }
        }
    }
}

} // verus!
