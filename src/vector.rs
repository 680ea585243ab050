use vstd::prelude::*;

verus! {

/// Largest magnitude of a coordinate or a radius.
///
/// All queries are computed exactly in 128-bit integer arithmetic; this bound
/// keeps every intermediate product of the triangle tests in range.
pub const COORD_LIMIT: i64 = 32768;

/// Largest magnitude of a vector component: twice `COORD_LIMIT`, so that the
/// vector between any two points is in range.
pub const DIRECTION_LIMIT: i64 = 65536;

/// Largest magnitude of a plane normal component: a cross product of two
/// vectors between points is always in range.
pub const NORMAL_LIMIT: i64 = 8589934592;

/// Largest magnitude of a plane offset: the offset of a plane through a point,
/// with a normal in range, is always in range.
pub const OFFSET_LIMIT: i64 = 1125899906842624;

/// A vector of unbounded integers: the mathematical model of points and
/// vectors.
pub struct Vec3 {
    pub x: int,
    pub y: int,
    pub z: int,
}

pub open spec fn vec3(x: int, y: int, z: int) -> Vec3 {
    Vec3 { x, y, z }
}

pub open spec fn vadd(a: Vec3, b: Vec3) -> Vec3 {
    vec3(a.x + b.x, a.y + b.y, a.z + b.z)
}

pub open spec fn vsub(a: Vec3, b: Vec3) -> Vec3 {
    vec3(a.x - b.x, a.y - b.y, a.z - b.z)
}

pub open spec fn scale(a: Vec3, k: int) -> Vec3 {
    vec3(a.x * k, a.y * k, a.z * k)
}

pub open spec fn dot(a: Vec3, b: Vec3) -> int {
    a.x * b.x + a.y * b.y + a.z * b.z
}

pub open spec fn cross(a: Vec3, b: Vec3) -> Vec3 {
    vec3(a.y * b.z - a.z * b.y, a.z * b.x - a.x * b.z, a.x * b.y - a.y * b.x)
}

pub open spec fn norm2(a: Vec3) -> int {
    dot(a, a)
}

pub open spec fn is_zero(a: Vec3) -> bool {
    a.x == 0 && a.y == 0 && a.z == 0
}

/// Every component lies in `[-m, m]`.
pub open spec fn bounded(a: Vec3, m: int) -> bool {
    -m <= a.x <= m && -m <= a.y <= m && -m <= a.z <= m
}

/// A point of the integer lattice.
#[derive(Clone, Copy, Debug, PartialEq, Eq, Structural)]
pub struct Point {
    pub x: i64,
    pub y: i64,
    pub z: i64,
}

/// A displacement on the integer lattice.
#[derive(Clone, Copy, Debug, PartialEq, Eq, Structural)]
pub struct Vector3 {
    pub x: i64,
    pub y: i64,
    pub z: i64,
}

impl View for Point {
    type V = Vec3;

    open spec fn view(&self) -> Vec3 {
        vec3(self.x as int, self.y as int, self.z as int)
    }
}

impl View for Vector3 {
    type V = Vec3;

    open spec fn view(&self) -> Vec3 {
        vec3(self.x as int, self.y as int, self.z as int)
    }
}

impl Point {
    /// Every coordinate lies within `COORD_LIMIT`.
    pub open spec fn wf(&self) -> bool {
        bounded(self@, COORD_LIMIT as int)
    }

    pub fn new(x: i64, y: i64, z: i64) -> (r: Point)
        ensures
            r@ == vec3(x as int, y as int, z as int),
    {
        Point { x, y, z }
    }

    pub fn zero() -> (r: Point)
        ensures
            is_zero(r@),
    {
        Point { x: 0, y: 0, z: 0 }
    }
}

impl Vector3 {
    /// Every component lies within `DIRECTION_LIMIT`.
    pub open spec fn wf(&self) -> bool {
        bounded(self@, DIRECTION_LIMIT as int)
    }

    /// The vector from `from` to `to`.
    pub fn between(from: &Point, to: &Point) -> (r: Vector3)
        requires
            from.wf(),
            to.wf(),
        ensures
            r@ == vsub(to@, from@),
            r.wf(),
    {
        Vector3 { x: to.x - from.x, y: to.y - from.y, z: to.z - from.z }
    }

    pub fn new(x: i64, y: i64, z: i64) -> (r: Vector3)
        ensures
            r@ == vec3(x as int, y as int, z as int),
    {
        Vector3 { x, y, z }
    }
}

/// A vector of 128-bit components, for intermediate results.
#[derive(Clone, Copy, Debug, PartialEq, Eq, Structural)]
pub struct Wide3 {
    pub x: i128,
    pub y: i128,
    pub z: i128,
}

impl View for Wide3 {
    type V = Vec3;

    open spec fn view(&self) -> Vec3 {
        vec3(self.x as int, self.y as int, self.z as int)
    }
}

pub proof fn lemma_mul_bound(x: int, y: int, mx: int, my: int) by (nonlinear_arith)
    requires
        -mx <= x <= mx,
        -my <= y <= my,
    ensures
        -(mx * my) <= x * y <= mx * my,
{
}

/// The 128-bit copy of a lattice vector.
pub fn widen(v: &Vector3) -> (r: Wide3)
    ensures
        r@ == v@,
{
    Wide3 { x: v.x as i128, y: v.y as i128, z: v.z as i128 }
}

/// `a - b` for two lattice points.
pub fn wide_sub(a: &Point, b: &Point) -> (r: Wide3)
    ensures
        r@ == vsub(a@, b@),
        a.wf() && b.wf() ==> bounded(r@, DIRECTION_LIMIT as int),
{
    Wide3 { x: a.x as i128 - b.x as i128, y: a.y as i128 - b.y as i128, z: a.z as i128 - b.z as i128 }
}

pub fn wide_add(a: &Wide3, b: &Wide3, Ghost(m): Ghost<int>) -> (r: Wide3)
    requires
        bounded(a@, m),
        bounded(b@, m),
        2 * m <= i128::MAX,
    ensures
        r@ == vadd(a@, b@),
{
    Wide3 { x: a.x + b.x, y: a.y + b.y, z: a.z + b.z }
}

pub fn wide_minus(a: &Wide3, b: &Wide3, Ghost(m): Ghost<int>) -> (r: Wide3)
    requires
        bounded(a@, m),
        bounded(b@, m),
        2 * m <= i128::MAX,
    ensures
        r@ == vsub(a@, b@),
{
    Wide3 { x: a.x - b.x, y: a.y - b.y, z: a.z - b.z }
}

pub fn wide_scale(a: &Wide3, k: i128, Ghost(ma): Ghost<int>, Ghost(mk): Ghost<int>) -> (r: Wide3)
    requires
        bounded(a@, ma),
        -mk <= k <= mk,
        ma * mk <= i128::MAX,
    ensures
        r@ == scale(a@, k as int),
{
    proof {
        lemma_mul_bound(a.x as int, k as int, ma, mk);
        lemma_mul_bound(a.y as int, k as int, ma, mk);
        lemma_mul_bound(a.z as int, k as int, ma, mk);
    }
    Wide3 { x: a.x * k, y: a.y * k, z: a.z * k }
}

pub fn wide_dot(a: &Wide3, b: &Wide3, Ghost(ma): Ghost<int>, Ghost(mb): Ghost<int>) -> (r: i128)
    requires
        bounded(a@, ma),
        bounded(b@, mb),
        3 * (ma * mb) <= i128::MAX,
    ensures
        r == dot(a@, b@),
        -(3 * (ma * mb)) <= r <= 3 * (ma * mb),
{
    proof {
        lemma_mul_bound(a.x as int, b.x as int, ma, mb);
        lemma_mul_bound(a.y as int, b.y as int, ma, mb);
        lemma_mul_bound(a.z as int, b.z as int, ma, mb);
    }
    a.x * b.x + a.y * b.y + a.z * b.z
}

pub fn wide_cross(a: &Wide3, b: &Wide3, Ghost(ma): Ghost<int>, Ghost(mb): Ghost<int>) -> (r: Wide3)
    requires
        bounded(a@, ma),
        bounded(b@, mb),
        2 * (ma * mb) <= i128::MAX,
    ensures
        r@ == cross(a@, b@),
        bounded(r@, 2 * (ma * mb)),
{
    proof {
        lemma_mul_bound(a.x as int, b.y as int, ma, mb);
        lemma_mul_bound(a.x as int, b.z as int, ma, mb);
        lemma_mul_bound(a.y as int, b.x as int, ma, mb);
        lemma_mul_bound(a.y as int, b.z as int, ma, mb);
        lemma_mul_bound(a.z as int, b.x as int, ma, mb);
        lemma_mul_bound(a.z as int, b.y as int, ma, mb);
    }
    Wide3 { x: a.y * b.z - a.z * b.y, y: a.z * b.x - a.x * b.z, z: a.x * b.y - a.y * b.x }
}

} // verus!
