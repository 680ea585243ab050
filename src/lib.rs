//! Exact collision primitives on an integer lattice: points, lines, rays,
//! segments, planes, spheres, triangles and capsules, with closest-point,
//! distance, intersection and contact queries between them.
//!
//! Coordinates are integers within `COORD_LIMIT`; every query is computed
//! exactly in 128-bit arithmetic. Results that are rational in general
//! (closest points, squared distances) come as fractions.

pub mod vector;
pub mod shape;
pub mod line;
pub mod ray;
pub mod line_segment;
pub mod plane;
pub mod sphere;
pub mod capsule;
pub mod triangle;
pub mod closest_point;
pub mod piece;
pub mod distance;
pub mod collision;
pub mod intersection;

pub use vector::{Point, Vector3, COORD_LIMIT, DIRECTION_LIMIT, NORMAL_LIMIT, OFFSET_LIMIT};
pub use shape::Shape;
pub use line::Line;
pub use ray::Ray;
pub use line_segment::LineSegment;
pub use plane::Plane;
pub use sphere::Sphere;
pub use capsule::Capsule;
pub use triangle::{Barycentric, Triangle};
pub use closest_point::{ClosestPoint, RationalPoint};
pub use distance::{Distance, Fraction};
pub use collision::{Collision, Contact};
pub use intersection::Intersection;
