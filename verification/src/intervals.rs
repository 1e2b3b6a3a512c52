//! A collection of half-open intervals with a membership test.
use vstd::prelude::*;
use core::ops::Range;

verus! {

/// A collection of intervals.
pub struct Intervals(pub Vec<Range<i64>>);

/// Whether one of the intervals holds `point`.
pub open spec fn covered(intervals: Seq<Range<i64>>, point: i64) -> bool {
    exists|i: int| 0 <= i < intervals.len() && (#[trigger] intervals[i]).start <= point < intervals[i].end
}

impl View for Intervals {
    type V = Seq<Range<i64>>;

    open spec fn view(&self) -> Seq<Range<i64>> {
        self.0@
    }
}

impl Intervals {
    /// An empty collection.
    pub fn new() -> (r: Self)
        ensures
            r@ == Seq::<Range<i64>>::empty(),
    {
        Intervals(Vec::new())
    }

    /// Adds an interval to the collection.
    pub fn add(&mut self, interval: Range<i64>)
        ensures
            final(self)@ == old(self)@.push(interval),
    {
        self.0.push(interval);
    }

    /// Checks whether a point is contained in any of the intervals.
    pub fn contains(&self, point: i64) -> (r: bool)
        ensures
            r == covered(self@, point),
    {
        let mut i: usize = 0;
        while i < self.0.len()
            invariant
                i <= self.0.len(),
                forall|k: int| 0 <= k < i ==> !((#[trigger] self@[k]).start <= point < self@[k].end),
            decreases self.0.len() - i,
        {
            if self.0[i].start <= point && point < self.0[i].end {
                return true;
            }
            i += 1;
        }
        false
    }

    /// The number of intervals.
    pub fn len(&self) -> (r: usize)
        ensures
            r == self@.len(),
    {
        self.0.len()
    }
}

} // verus!
