use vstd::prelude::*;
use crate::shape::Shape;
use crate::vector::Point;

verus! {

/// The finite segment between `start` and `end`; the two may coincide.
#[derive(Clone, Copy, Debug, PartialEq, Eq, Structural)]
pub struct LineSegment {
    /// The start point of the segment.
    pub start: Point,
    /// The end point of the segment.
    pub end: Point,
}

impl Shape for LineSegment {
    open spec fn wf(&self) -> bool {
        self.start.wf() && self.end.wf()
    }
}

impl LineSegment {
    /// The segment from `start` to `end`.
    pub fn new(start: Point, end: Point) -> (r: LineSegment)
        ensures
            r.start == start,
            r.end == end,
    {
        LineSegment { start, end }
    }
}

} // verus!
