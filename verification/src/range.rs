//! Inclusive ranges of unsigned numbers.

use vstd::prelude::*;

verus! {

/// The reason why a pair of bounds is no range: the lower bound is above the
/// upper one.
#[derive(Clone, Copy, Debug, PartialEq, Eq, Structural)]
pub struct IllegalRange {
    /// The lower bound that was asked for.
    pub start: u32,
    /// The upper bound that was asked for.
    pub end: u32,
}

/// All numbers from `start` to `end`, both included.
///
/// A range is well formed when `start <= end`; `Range::make` builds no other.
#[derive(Clone, Copy, Debug, PartialEq, Eq, Structural)]
pub struct Range {
    /// The lowest number of the range.
    pub start: u32,
    /// The highest number of the range.
    pub end: u32,
}

impl Range {
    /// The invariant of a range: its bounds are in order.
    pub open spec fn wf(self) -> bool {
        self.start <= self.end
    }

    /// Whether `n` lies between the bounds, both included.
    pub open spec fn holds(self, n: int) -> bool {
        self.start <= n <= self.end
    }

    /// The range from `start` to `end`, or the bounds back when they are out
    /// of order.
    pub fn make(start: u32, end: u32) -> (r: Result<Range, IllegalRange>)
        ensures
            start <= end ==> r == Ok::<Range, IllegalRange>(Range { start, end }),
            start > end ==> r == Err::<Range, IllegalRange>(IllegalRange { start, end }),
            r is Ok ==> r->Ok_0.wf(),
    {
        if start > end {
            Err(IllegalRange { start, end })
        } else {
            Ok(Range { start, end })
        }
    }

    /// Whether `n` lies in the range.
    pub fn contains(&self, n: u32) -> (b: bool)
        ensures
            b == self.holds(n as int),
    {
        self.start <= n && n <= self.end
    }
}

/// A range made from ordered bounds holds exactly the numbers between them.
pub proof fn lemma_made_range_holds_between(start: u32, end: u32, n: u32)
    requires
        start <= end,
    ensures
        (Range { start, end }).wf(),
        (Range { start, end }).holds(n as int) <==> start <= n <= end,
{
}

} // verus!
