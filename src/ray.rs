use vstd::prelude::*;
use crate::shape::Shape;
use crate::vector::{is_zero, Point, Vector3};

verus! {

/// A half-line from `origin` along `direction`.
#[derive(Clone, Copy, Debug, PartialEq, Eq, Structural)]
pub struct Ray {
    /// The starting point of the ray.
    pub origin: Point,
    /// The direction of the ray: never zero, of any length.
    pub direction: Vector3,
}

impl Shape for Ray {
    open spec fn wf(&self) -> bool {
        self.origin.wf() && self.direction.wf() && !is_zero(self.direction@)
    }
}

impl Ray {
    /// The ray from `origin` along `direction`, or `None` when the direction
    /// is zero.
    pub fn new(origin: Point, direction: Vector3) -> (r: Option<Ray>)
        requires
            origin.wf(),
            direction.wf(),
        ensures
            is_zero(direction@) <==> r.is_none(),
            r matches Some(ray) ==> ray.wf() && ray.origin == origin && ray.direction == direction,
    {
        if direction.x == 0 && direction.y == 0 && direction.z == 0 {
            None
        } else {
            Some(Ray { origin, direction })
        }
    }
}

} // verus!
