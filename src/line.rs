use vstd::prelude::*;
use crate::shape::Shape;
use crate::vector::{is_zero, vsub, Point, Vector3};

verus! {

/// An infinite line through `point` along `direction`.
#[derive(Clone, Copy, Debug, PartialEq, Eq, Structural)]
pub struct Line {
    /// An arbitrary point on the line.
    pub point: Point,
    /// The direction of the line: never zero, of any length.
    pub direction: Vector3,
}

impl Shape for Line {
    open spec fn wf(&self) -> bool {
        self.point.wf() && self.direction.wf() && !is_zero(self.direction@)
    }
}

impl Line {
    /// The line through `point` along `direction`, or `None` when the
    /// direction is zero.
    pub fn new(point: Point, direction: Vector3) -> (r: Option<Line>)
        requires
            point.wf(),
            direction.wf(),
        ensures
            is_zero(direction@) <==> r.is_none(),
            r matches Some(l) ==> l.wf() && l.point == point && l.direction == direction,
    {
        if direction.x == 0 && direction.y == 0 && direction.z == 0 {
            None
        } else {
            Some(Line { point, direction })
        }
    }

    /// The line through `start` and `end`, directed from `start` to `end`, or
    /// `None` when the two points coincide.
    pub fn from_points(start: Point, end: Point) -> (r: Option<Line>)
        requires
            start.wf(),
            end.wf(),
        ensures
            (start == end) <==> r.is_none(),
            r matches Some(l) ==> l.wf() && l.point == start && l.direction@ == vsub(end@, start@),
    {
        let direction = Vector3::between(&start, &end);
        Line::new(start, direction)
    }
}

} // verus!
