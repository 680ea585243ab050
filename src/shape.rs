use vstd::prelude::*;
use crate::vector::Point;

verus! {

/// A shape with a well-formedness condition that every query requires.
pub trait Shape {
    spec fn wf(&self) -> bool;
}

impl Shape for Point {
    open spec fn wf(&self) -> bool {
        Point::wf(self)
    }
}

} // verus!
