use vstd::prelude::*;
use crate::shape::Shape;
use crate::vector::{
    bounded, cross, dot, is_zero, lemma_mul_bound, vsub, Point, Vec3, Vector3, COORD_LIMIT,
    NORMAL_LIMIT, OFFSET_LIMIT,
};

verus! {

/// The plane of the points `X` with `normal · X == d`.
///
/// The normal need not have unit length: `normal · P - d` is the signed
/// distance of `P` scaled by the length of the normal, and its sign tells on
/// which side of the plane `P` lies.
#[derive(Clone, Copy, Debug, PartialEq, Eq, Structural)]
pub struct Plane {
    /// A normal of the plane; never zero.
    pub normal: Vector3,
    /// The plane's offset: `normal · X` for every point `X` of the plane.
    pub d: i64,
}

impl Shape for Plane {
    open spec fn wf(&self) -> bool {
        bounded(self.normal@, NORMAL_LIMIT as int) && !is_zero(self.normal@) && -OFFSET_LIMIT
            <= self.d <= OFFSET_LIMIT
    }
}

/// The normal of the plane through `p0`, `p1`, `p2`, in that winding.
pub open spec fn normal_of(p0: Vec3, p1: Vec3, p2: Vec3) -> Vec3 {
    cross(vsub(p2, p0), vsub(p1, p0))
}

/// `normal · p - d`: the signed distance of `p` from the plane, scaled by the
/// length of the normal.
pub open spec fn signed_offset(plane: Plane, p: Vec3) -> int {
    dot(plane.normal@, p) - plane.d
}

/// The normal of three points in range fits in `NORMAL_LIMIT`, and the
/// offset of a plane through a point in range fits in `OFFSET_LIMIT`.
pub proof fn lemma_normal_bounds(p0: Vec3, p1: Vec3, p2: Vec3)
    requires
        bounded(p0, COORD_LIMIT as int),
        bounded(p1, COORD_LIMIT as int),
        bounded(p2, COORD_LIMIT as int),
    ensures
        bounded(normal_of(p0, p1, p2), NORMAL_LIMIT as int),
{
    let u = vsub(p2, p0);
    let v = vsub(p1, p0);
    let m = 2 * COORD_LIMIT as int;
    lemma_mul_bound(u.x, v.y, m, m);
    lemma_mul_bound(u.x, v.z, m, m);
    lemma_mul_bound(u.y, v.x, m, m);
    lemma_mul_bound(u.y, v.z, m, m);
    lemma_mul_bound(u.z, v.x, m, m);
    lemma_mul_bound(u.z, v.y, m, m);
}

pub proof fn lemma_offset_bound(n: Vec3, p: Vec3)
    requires
        bounded(n, NORMAL_LIMIT as int),
        bounded(p, COORD_LIMIT as int),
    ensures
        -OFFSET_LIMIT <= dot(n, p) <= OFFSET_LIMIT,
{
    lemma_mul_bound(n.x, p.x, NORMAL_LIMIT as int, COORD_LIMIT as int);
    lemma_mul_bound(n.y, p.y, NORMAL_LIMIT as int, COORD_LIMIT as int);
    lemma_mul_bound(n.z, p.z, NORMAL_LIMIT as int, COORD_LIMIT as int);
}

/// `n · p` for a normal and a point in range.
pub fn offset_of(n: &Vector3, p: &Point) -> (r: i64)
    requires
        bounded(n@, NORMAL_LIMIT as int),
        p.wf(),
    ensures
        r == dot(n@, p@),
        -OFFSET_LIMIT <= r <= OFFSET_LIMIT,
{
    proof {
        lemma_offset_bound(n@, p@);
        lemma_mul_bound(n.x as int, p.x as int, NORMAL_LIMIT as int, COORD_LIMIT as int);
        lemma_mul_bound(n.y as int, p.y as int, NORMAL_LIMIT as int, COORD_LIMIT as int);
        lemma_mul_bound(n.z as int, p.z as int, NORMAL_LIMIT as int, COORD_LIMIT as int);
    }
    n.x * p.x + n.y * p.y + n.z * p.z
}

/// The normal `(p2 - p0) × (p1 - p0)` of three points in range.
pub fn normal_through(p0: &Point, p1: &Point, p2: &Point) -> (r: Vector3)
    requires
        p0.wf(),
        p1.wf(),
        p2.wf(),
    ensures
        r@ == normal_of(p0@, p1@, p2@),
        bounded(r@, NORMAL_LIMIT as int),
{
    proof {
        lemma_normal_bounds(p0@, p1@, p2@);
    }
    let u = Vector3::between(p0, p2);
    let v = Vector3::between(p0, p1);
    proof {
        let m = 2 * COORD_LIMIT as int;
        lemma_mul_bound(u.x as int, v.y as int, m, m);
        lemma_mul_bound(u.x as int, v.z as int, m, m);
        lemma_mul_bound(u.y as int, v.x as int, m, m);
        lemma_mul_bound(u.y as int, v.z as int, m, m);
        lemma_mul_bound(u.z as int, v.x as int, m, m);
        lemma_mul_bound(u.z as int, v.y as int, m, m);
    }
    Vector3 { x: u.y * v.z - u.z * v.y, y: u.z * v.x - u.x * v.z, z: u.x * v.y - u.y * v.x }
}

impl Plane {
    /// The plane `normal · X == d`, or `None` when the normal is zero.
    pub fn new(normal: Vector3, d: i64) -> (r: Option<Plane>)
        requires
            bounded(normal@, NORMAL_LIMIT as int),
            -OFFSET_LIMIT <= d <= OFFSET_LIMIT,
        ensures
            is_zero(normal@) <==> r.is_none(),
            r matches Some(pl) ==> pl.wf() && pl.normal == normal && pl.d == d,
    {
        if normal.x == 0 && normal.y == 0 && normal.z == 0 {
            None
        } else {
            Some(Plane { normal, d })
        }
    }

    /// The plane through three points, with normal `(p2 - p0) × (p1 - p0)`
    /// and offset `normal · p0`; `None` when the points are collinear.
    pub fn from_points(p0: Point, p1: Point, p2: Point) -> (r: Option<Plane>)
        requires
            p0.wf(),
            p1.wf(),
            p2.wf(),
        ensures
            is_zero(normal_of(p0@, p1@, p2@)) <==> r.is_none(),
            r matches Some(pl) ==> pl.wf() && pl.normal@ == normal_of(p0@, p1@, p2@) && pl.d
                == dot(pl.normal@, p0@),
    {
        let normal = normal_through(&p0, &p1, &p2);
        let d = offset_of(&normal, &p0);
        Plane::new(normal, d)
    }

    /// The plane through `p` with the given normal; `None` when the normal is
    /// zero.
    pub fn from_point_and_normal(p: Point, normal: Vector3) -> (r: Option<Plane>)
        requires
            p.wf(),
            bounded(normal@, NORMAL_LIMIT as int),
        ensures
            is_zero(normal@) <==> r.is_none(),
            r matches Some(pl) ==> pl.wf() && pl.normal == normal && pl.d == dot(normal@, p@),
    {
        let d = offset_of(&normal, &p);
        Plane::new(normal, d)
    }

    /// `normal · p - d`: the signed distance of `p`, scaled by the length of
    /// the normal.
    pub fn signed_offset(&self, p: &Point) -> (r: i128)
        requires
            self.wf(),
            p.wf(),
        ensures
            r == signed_offset(*self, p@),
            -2 * OFFSET_LIMIT <= r <= 2 * OFFSET_LIMIT,
    {
        let e = offset_of(&self.normal, p);
        e as i128 - self.d as i128
    }
}

} // verus!
