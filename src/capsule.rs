use vstd::prelude::*;
use crate::line_segment::LineSegment;
use crate::shape::Shape;
use crate::vector::{Point, COORD_LIMIT};

verus! {

/// A sphere swept along a segment.
#[derive(Clone, Copy, Debug, PartialEq, Eq, Structural)]
pub struct Capsule {
    /// The central axis of the capsule.
    pub axis: LineSegment,
    /// The radius of the capsule, in `[0, COORD_LIMIT]`.
    pub radius: i64,
}

impl Shape for Capsule {
    open spec fn wf(&self) -> bool {
        self.axis.wf() && 0 <= self.radius <= COORD_LIMIT
    }
}

impl Capsule {
    /// The capsule whose axis runs from `a` to `b`, with the given radius.
    pub fn new(a: Point, b: Point, radius: i64) -> (r: Capsule)
        ensures
            r.axis.start == a,
            r.axis.end == b,
            r.radius == radius,
    {
        Capsule { axis: LineSegment::new(a, b), radius }
    }
}

} // verus!
