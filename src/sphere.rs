use vstd::prelude::*;
use crate::shape::Shape;
use crate::vector::{Point, COORD_LIMIT};

verus! {

/// A solid ball.
#[derive(Clone, Copy, Debug, PartialEq, Eq, Structural)]
pub struct Sphere {
    /// The center of the sphere.
    pub center: Point,
    /// The radius of the sphere, in `[0, COORD_LIMIT]`.
    pub radius: i64,
}

impl Shape for Sphere {
    open spec fn wf(&self) -> bool {
        self.center.wf() && 0 <= self.radius <= COORD_LIMIT
    }
}

impl Sphere {
    /// The sphere around `center` with the given radius.
    pub fn new(center: Point, radius: i64) -> (r: Sphere)
        ensures
            r.center == center,
            r.radius == radius,
    {
        Sphere { center, radius }
    }
}

} // verus!
