use vstd::prelude::*;
use crate::closest_point::{scaled_dist2, segment_closest, segment_closest_to};
use crate::line_segment::LineSegment;
use crate::plane::{signed_offset, Plane};
use crate::ray::Ray;
use crate::shape::Shape;
use crate::sphere::Sphere;
use crate::triangle::{inside, triangle_normal, Triangle};
use crate::vector::{
    bounded, dot, is_zero, lemma_mul_bound, norm2, scale, vadd, vsub, wide_add, wide_dot,
    wide_minus, wide_scale, wide_sub, widen, Point, Vec3, Wide3, COORD_LIMIT, DIRECTION_LIMIT,
    NORMAL_LIMIT,
};

verus! {

/// Whether two shapes overlap.
pub trait Intersection<Rhs: Shape>: Shape {
    /// The overlap condition for this pair of shapes.
    spec fn spec_intersects(&self, rhs: &Rhs) -> bool;

    /// Whether this shape intersects the other.
    fn intersects(&self, rhs: &Rhs) -> (r: bool)
        requires
            self.wf(),
            rhs.wf(),
        ensures
            r == self.spec_intersects(rhs),
    ;
}

/// Two balls overlap when their centers are no farther apart than the sum of
/// their radii.
pub open spec fn spheres_overlap(a: Sphere, b: Sphere) -> bool {
    norm2(vsub(a.center@, b.center@)) <= (a.radius + b.radius) * (a.radius + b.radius)
}

/// A plane meets a ball when the center's distance from the plane,
/// `|normal · c - d| / |normal|`, is at most the radius.
pub open spec fn plane_meets_sphere(pl: Plane, s: Sphere) -> bool {
    let o = signed_offset(pl, s.center@);
    o * o <= s.radius * s.radius * norm2(pl.normal@)
}

/// A ray meets a plane when the parameter `t = (d - normal · origin) /
/// (normal · direction)` of the crossing is non-negative; a ray parallel to
/// the plane meets it only when it lies in it.
pub open spec fn plane_meets_ray(pl: Plane, r: Ray) -> bool {
    let den = dot(pl.normal@, r.direction@);
    let num = pl.d - dot(pl.normal@, r.origin@);
    if den == 0 {
        num == 0
    } else {
        num * den >= 0
    }
}

/// The discriminant of `|origin + t * direction - center|² = radius²` as a
/// quadratic in `t`, divided by four.
pub open spec fn ray_sphere_discriminant(s: Sphere, r: Ray) -> int {
    let oc = vsub(r.origin@, s.center@);
    let b = dot(r.direction@, oc);
    b * b - norm2(r.direction@) * (norm2(oc) - s.radius * s.radius)
}

/// A ball meets a segment when the segment's point nearest to the center is
/// within the radius.
pub open spec fn sphere_meets_segment(s: Sphere, l: LineSegment) -> bool {
    let h = segment_closest(l.start@, l.end@, s.center@);
    scaled_dist2(h, s.center@) <= s.radius * s.radius * h.den * h.den
}

impl Intersection<Sphere> for Sphere {
    open spec fn spec_intersects(&self, rhs: &Sphere) -> bool {
        spheres_overlap(*self, *rhs)
    }

    fn intersects(&self, rhs: &Sphere) -> (r: bool) {
        let diff = wide_sub(&self.center, &rhs.center);
        let d2 = wide_dot(&diff, &diff, Ghost(0x1_0000), Ghost(0x1_0000));
        let rs = self.radius as i128 + rhs.radius as i128;
        proof {
            lemma_mul_bound(rs as int, rs as int, 0x1_0000, 0x1_0000);
        }
        d2 <= rs * rs
    }
}

impl Intersection<Sphere> for Plane {
    open spec fn spec_intersects(&self, rhs: &Sphere) -> bool {
        plane_meets_sphere(*self, *rhs)
    }

    fn intersects(&self, rhs: &Sphere) -> (r: bool) {
        let o = self.signed_offset(&rhs.center);
        let n = widen(&self.normal);
        let nn = wide_dot(&n, &n, Ghost(0x2_0000_0000), Ghost(0x2_0000_0000));
        proof {
            lemma_mul_bound(rhs.radius as int, rhs.radius as int, 0x8000, 0x8000);
        }
        let rr = rhs.radius as i128 * rhs.radius as i128;
        proof {
            lemma_mul_bound(o as int, o as int, 0x8_0000_0000_0000, 0x8_0000_0000_0000);
            lemma_mul_bound(rhs.radius as int, rhs.radius as int, 0x8000, 0x8000);
            lemma_mul_bound(rr as int, nn as int, 0x4000_0000, 0xc_0000_0000_0000_0000);
        }
        o * o <= rr * nn
    }
}

impl Intersection<Plane> for Sphere {
    open spec fn spec_intersects(&self, rhs: &Plane) -> bool {
        plane_meets_sphere(*rhs, *self)
    }

    fn intersects(&self, rhs: &Plane) -> (r: bool) {
        rhs.intersects(self)
    }
}

impl Intersection<Ray> for Plane {
    open spec fn spec_intersects(&self, rhs: &Ray) -> bool {
        plane_meets_ray(*self, *rhs)
    }

    fn intersects(&self, rhs: &Ray) -> (r: bool) {
        let den = wide_dot(
            &widen(&self.normal),
            &widen(&rhs.direction),
            Ghost(0x2_0000_0000),
            Ghost(0x1_0000),
        );
        let num = self.d as i128 - crate::plane::offset_of(&self.normal, &rhs.origin) as i128;
        if den == 0 {
            num == 0
        } else {
            proof {
                lemma_mul_bound(num as int, den as int, 0x8_0000_0000_0000, 0x6_0000_0000_0000);
            }
            num * den >= 0
        }
    }
}

impl Intersection<Plane> for Ray {
    open spec fn spec_intersects(&self, rhs: &Plane) -> bool {
        plane_meets_ray(*rhs, *self)
    }

    fn intersects(&self, rhs: &Plane) -> (r: bool) {
        rhs.intersects(self)
    }
}

impl Intersection<Ray> for Sphere {
    /// The carrier line of the ray meets the ball: the discriminant of the
    /// ray's equation against the sphere's is non-negative.
    open spec fn spec_intersects(&self, rhs: &Ray) -> bool {
        ray_sphere_discriminant(*self, *rhs) >= 0
    }

    fn intersects(&self, rhs: &Ray) -> (r: bool) {
        let oc = wide_sub(&rhs.origin, &self.center);
        let dir = widen(&rhs.direction);
        let b = wide_dot(&dir, &oc, Ghost(0x1_0000), Ghost(0x1_0000));
        let dd = wide_dot(&dir, &dir, Ghost(0x1_0000), Ghost(0x1_0000));
        let oo = wide_dot(&oc, &oc, Ghost(0x1_0000), Ghost(0x1_0000));
        proof {
            lemma_mul_bound(self.radius as int, self.radius as int, 0x8000, 0x8000);
        }
        let rr = self.radius as i128 * self.radius as i128;
        proof {
            lemma_mul_bound(b as int, b as int, 0x3_0000_0000, 0x3_0000_0000);
            lemma_mul_bound(self.radius as int, self.radius as int, 0x8000, 0x8000);
            lemma_mul_bound(dd as int, (oo - rr) as int, 0x3_0000_0000, 0x4_0000_0000);
        }
        b * b - dd * (oo - rr) >= 0
    }
}

impl Intersection<Sphere> for Ray {
    open spec fn spec_intersects(&self, rhs: &Sphere) -> bool {
        ray_sphere_discriminant(*rhs, *self) >= 0
    }

    fn intersects(&self, rhs: &Sphere) -> (r: bool) {
        rhs.intersects(self)
    }
}

impl Intersection<LineSegment> for Sphere {
    open spec fn spec_intersects(&self, rhs: &LineSegment) -> bool {
        sphere_meets_segment(*self, *rhs)
    }

    fn intersects(&self, rhs: &LineSegment) -> (r: bool) {
        let h = segment_closest_to(&rhs.start, &rhs.end, &self.center);
        let num = Wide3 { x: h.x, y: h.y, z: h.z };
        let c = Wide3 { x: self.center.x as i128, y: self.center.y as i128, z: self.center.z as i128 };
        let cw = wide_scale(&c, h.w, Ghost(0x8000), Ghost(0x4_0000_0000));
        proof {
            lemma_mul_bound(c.x as int, h.w as int, 0x8000, 0x4_0000_0000);
            lemma_mul_bound(c.y as int, h.w as int, 0x8000, 0x4_0000_0000);
            lemma_mul_bound(c.z as int, h.w as int, 0x8000, 0x4_0000_0000);
        }
        let diff = wide_minus(&num, &cw, Ghost(0x10_0000_0000_0000));
        let d2 = wide_dot(&diff, &diff, Ghost(0x20_0000_0000_0000), Ghost(0x20_0000_0000_0000));
        proof {
            lemma_mul_bound(self.radius as int, self.radius as int, 0x8000, 0x8000);
        }
        let rr = self.radius as i128 * self.radius as i128;
        proof {
            lemma_mul_bound(self.radius as int, self.radius as int, 0x8000, 0x8000);
            lemma_mul_bound(rr as int, h.w as int, 0x4000_0000, 0x4_0000_0000);
            lemma_mul_bound((rr * h.w) as int, h.w as int, 0x1_0000_0000_0000_0000, 0x4_0000_0000);
        }
        d2 <= rr * h.w * h.w
    }
}

impl Intersection<Sphere> for LineSegment {
    open spec fn spec_intersects(&self, rhs: &Sphere) -> bool {
        sphere_meets_segment(*rhs, *self)
    }

    fn intersects(&self, rhs: &Sphere) -> (r: bool) {
        rhs.intersects(self)
    }
}

} // verus!

verus! {

/// The denominator of the parameter at which the line `o + t * dir` crosses
/// the triangle's plane: `normal · dir`, zero for a parallel line.
pub open spec fn crossing_den(t: Triangle, dir: Vec3) -> int {
    dot(triangle_normal(t), dir)
}

/// The numerator of the same parameter: `normal · (a - o)`.
pub open spec fn crossing_num(t: Triangle, o: Vec3) -> int {
    dot(triangle_normal(t), vsub(t.a@, o))
}

/// The crossing point `o + dir * num / den`, scaled by `den`.
pub open spec fn crossing_point(o: Vec3, dir: Vec3, num: int, den: int) -> Vec3 {
    vadd(scale(o, den), scale(dir, num))
}

/// A ray meets a triangle when it crosses the triangle's plane at a
/// non-negative parameter, at a point inside the triangle.
pub open spec fn triangle_meets_ray(t: Triangle, r: Ray) -> bool {
    let den = crossing_den(t, r.direction@);
    let num = crossing_num(t, r.origin@);
    den != 0 && num * den >= 0 && inside(t, crossing_point(r.origin@, r.direction@, num, den), den)
}

/// A segment meets a triangle when it crosses the triangle's plane at a
/// parameter in `[0, 1]`, at a point inside the triangle.
pub open spec fn triangle_meets_segment(t: Triangle, l: LineSegment) -> bool {
    let dir = vsub(l.end@, l.start@);
    let den = crossing_den(t, dir);
    let num = crossing_num(t, l.start@);
    den != 0 && num * den >= 0 && num * den <= den * den && inside(
        t,
        crossing_point(l.start@, dir, num, den),
        den,
    )
}

/// A ball meets a triangle when the triangle's point nearest to the center is
/// within the radius. When the center projects inside a proper triangle that
/// point is the projection, at distance `|normal · (c - a)| / |normal|`;
/// otherwise it lies on one of the three edges.
pub open spec fn triangle_meets_sphere(t: Triangle, s: Sphere) -> bool {
    let n = triangle_normal(t);
    if !is_zero(n) && inside(t, s.center@, 1) {
        let h = dot(n, vsub(s.center@, t.a@));
        h * h <= s.radius * s.radius * norm2(n)
    } else {
        sphere_meets_segment(s, LineSegment { start: t.a, end: t.b }) || sphere_meets_segment(
            s,
            LineSegment { start: t.b, end: t.c },
        ) || sphere_meets_segment(s, LineSegment { start: t.c, end: t.a })
    }
}

/// The numerator and denominator of the parameter at which `o + t * dir`
/// crosses the triangle's plane.
pub(crate) fn crossing(t: &Triangle, n: &Wide3, o: &Point, dir: &Wide3) -> (r: (i128, i128))
    requires
        t.wf(),
        n@ == triangle_normal(*t),
        bounded(n@, NORMAL_LIMIT as int),
        o.wf(),
        bounded(dir@, DIRECTION_LIMIT as int),
    ensures
        r.0 == crossing_num(*t, o@),
        r.1 == crossing_den(*t, dir@),
        -0x6_0000_0000_0000 <= r.0 <= 0x6_0000_0000_0000,
        -0x6_0000_0000_0000 <= r.1 <= 0x6_0000_0000_0000,
{
    let den = wide_dot(n, dir, Ghost(NORMAL_LIMIT as int), Ghost(DIRECTION_LIMIT as int));
    let num = wide_dot(
        n,
        &wide_sub(&t.a, o),
        Ghost(NORMAL_LIMIT as int),
        Ghost(DIRECTION_LIMIT as int),
    );
    (num, den)
}

/// `o * den + dir * num`.
pub(crate) fn crossing_at(o: &Point, dir: &Wide3, num: i128, den: i128) -> (r: Wide3)
    requires
        o.wf(),
        bounded(dir@, DIRECTION_LIMIT as int),
        -0x6_0000_0000_0000 <= num <= 0x6_0000_0000_0000,
        -0x6_0000_0000_0000 <= den <= 0x6_0000_0000_0000,
    ensures
        r@ == crossing_point(o@, dir@, num as int, den as int),
        bounded(r@, 0x10_0000_0000_0000_0000),
{
    let ow = Wide3 { x: o.x as i128, y: o.y as i128, z: o.z as i128 };
    let a = wide_scale(&ow, den, Ghost(COORD_LIMIT as int), Ghost(0x6_0000_0000_0000));
    let b = wide_scale(dir, num, Ghost(DIRECTION_LIMIT as int), Ghost(0x6_0000_0000_0000));
    proof {
        let m = 0x6_0000_0000_0000int;
        lemma_mul_bound(ow.x as int, den as int, COORD_LIMIT as int, m);
        lemma_mul_bound(ow.y as int, den as int, COORD_LIMIT as int, m);
        lemma_mul_bound(ow.z as int, den as int, COORD_LIMIT as int, m);
        lemma_mul_bound(dir.x as int, num as int, DIRECTION_LIMIT as int, m);
        lemma_mul_bound(dir.y as int, num as int, DIRECTION_LIMIT as int, m);
        lemma_mul_bound(dir.z as int, num as int, DIRECTION_LIMIT as int, m);
    }
    wide_add(&a, &b, Ghost(0x6_0000_0000_0000_0000))
}

/// Where the line `o + t * dir` crosses the triangle, with `t` in `[0, 1]`
/// when `bounded_above`, else with `t >= 0`: the crossing point `p` and the
/// denominator `w`, the point being `p / w`.
pub(crate) fn triangle_crossing(t: &Triangle, o: &Point, dir: &Wide3, bounded_above: bool) -> (r: Option<(Wide3, i128)>)
    requires
        t.wf(),
        o.wf(),
        bounded(dir@, DIRECTION_LIMIT as int),
    ensures
        ({
            let den = crossing_den(*t, dir@);
            let num = crossing_num(*t, o@);
            &&& r.is_some() <==> (den != 0 && num * den >= 0 && (bounded_above ==> num * den
                <= den * den) && inside(*t, crossing_point(o@, dir@, num, den), den))
            &&& r matches Some(pw) ==> pw.0@ == crossing_point(o@, dir@, num, den) && pw.1 == den
                && bounded(pw.0@, 0x10_0000_0000_0000_0000) && -0x6_0000_0000_0000 <= pw.1
                <= 0x6_0000_0000_0000
        }),
{
    let n = t.normal();
    let (num, den) = crossing(t, &n, o, dir);
    if den == 0 {
        return None;
    }
    proof {
        lemma_mul_bound(num as int, den as int, 0x6_0000_0000_0000, 0x6_0000_0000_0000);
        lemma_mul_bound(den as int, den as int, 0x6_0000_0000_0000, 0x6_0000_0000_0000);
    }
    if num * den < 0 {
        return None;
    }
    if bounded_above && num * den > den * den {
        return None;
    }
    let p = crossing_at(o, dir, num, den);
    if t.inside_rational(&n, &p, den) {
        Some((p, den))
    } else {
        None
    }
}

impl Intersection<Ray> for Triangle {
    open spec fn spec_intersects(&self, rhs: &Ray) -> bool {
        triangle_meets_ray(*self, *rhs)
    }

    fn intersects(&self, rhs: &Ray) -> (r: bool) {
        triangle_crossing(self, &rhs.origin, &widen(&rhs.direction), false).is_some()
    }
}

impl Intersection<Triangle> for Ray {
    open spec fn spec_intersects(&self, rhs: &Triangle) -> bool {
        triangle_meets_ray(*rhs, *self)
    }

    fn intersects(&self, rhs: &Triangle) -> (r: bool) {
        rhs.intersects(self)
    }
}

impl Intersection<LineSegment> for Triangle {
    open spec fn spec_intersects(&self, rhs: &LineSegment) -> bool {
        triangle_meets_segment(*self, *rhs)
    }

    fn intersects(&self, rhs: &LineSegment) -> (r: bool) {
        let dir = wide_sub(&rhs.end, &rhs.start);
        triangle_crossing(self, &rhs.start, &dir, true).is_some()
    }
}

impl Intersection<Triangle> for LineSegment {
    open spec fn spec_intersects(&self, rhs: &Triangle) -> bool {
        triangle_meets_segment(*rhs, *self)
    }

    fn intersects(&self, rhs: &Triangle) -> (r: bool) {
        rhs.intersects(self)
    }
}

impl Intersection<Sphere> for Triangle {
    open spec fn spec_intersects(&self, rhs: &Sphere) -> bool {
        triangle_meets_sphere(*self, *rhs)
    }

    fn intersects(&self, rhs: &Sphere) -> (r: bool) {
        let n = self.normal();
        let proper = !(n.x == 0 && n.y == 0 && n.z == 0);
        let c = Wide3 { x: rhs.center.x as i128, y: rhs.center.y as i128, z: rhs.center.z as i128 };
        if proper && self.inside_rational(&n, &c, 1) {
            let h = wide_dot(
                &n,
                &wide_sub(&rhs.center, &self.a),
                Ghost(NORMAL_LIMIT as int),
                Ghost(DIRECTION_LIMIT as int),
            );
            let nn = wide_dot(&n, &n, Ghost(NORMAL_LIMIT as int), Ghost(NORMAL_LIMIT as int));
            proof {
                lemma_mul_bound(rhs.radius as int, rhs.radius as int, 0x8000, 0x8000);
            }
            let rr = rhs.radius as i128 * rhs.radius as i128;
            proof {
                lemma_mul_bound(h as int, h as int, 0x6_0000_0000_0000, 0x6_0000_0000_0000);
                lemma_mul_bound(rr as int, nn as int, 0x4000_0000, 0xc_0000_0000_0000_0000);
            }
            h * h <= rr * nn
        } else {
            rhs.intersects(&LineSegment { start: self.a, end: self.b }) || rhs.intersects(
                &LineSegment { start: self.b, end: self.c },
            ) || rhs.intersects(&LineSegment { start: self.c, end: self.a })
        }
    }
}

impl Intersection<Triangle> for Sphere {
    open spec fn spec_intersects(&self, rhs: &Triangle) -> bool {
        triangle_meets_sphere(*rhs, *self)
    }

    fn intersects(&self, rhs: &Triangle) -> (r: bool) {
        rhs.intersects(self)
    }
}

} // verus!

verus! {

/// Whether two balls overlap does not depend on the order they are asked in.
pub proof fn lemma_sphere_sphere_symmetric(a: Sphere, b: Sphere)
    ensures
        <Sphere as Intersection<Sphere>>::spec_intersects(&a, &b) == <Sphere as Intersection<
            Sphere,
        >>::spec_intersects(&b, &a),
{
    let u = vsub(a.center@, b.center@);
    let v = vsub(b.center@, a.center@);
    assert(norm2(u) == norm2(v)) by (nonlinear_arith)
        requires v.x == -u.x, v.y == -u.y, v.z == -u.z, norm2(u) == u.x * u.x + u.y * u.y + u.z
            * u.z, norm2(v) == v.x * v.x + v.y * v.y + v.z * v.z;
}

/// A ball meets a plane exactly when the plane meets the ball.
pub proof fn lemma_sphere_plane_symmetric(s: Sphere, pl: Plane)
    ensures
        <Sphere as Intersection<Plane>>::spec_intersects(&s, &pl) == <Plane as Intersection<
            Sphere,
        >>::spec_intersects(&pl, &s),
{
}

/// A ray meets a plane exactly when the plane meets the ray.
pub proof fn lemma_ray_plane_symmetric(r: Ray, pl: Plane)
    ensures
        <Ray as Intersection<Plane>>::spec_intersects(&r, &pl) == <Plane as Intersection<
            Ray,
        >>::spec_intersects(&pl, &r),
{
}

/// A ray meets a ball exactly when the ball meets the ray.
pub proof fn lemma_ray_sphere_symmetric(r: Ray, s: Sphere)
    ensures
        <Ray as Intersection<Sphere>>::spec_intersects(&r, &s) == <Sphere as Intersection<
            Ray,
        >>::spec_intersects(&s, &r),
{
}

/// A segment meets a ball exactly when the ball meets the segment.
pub proof fn lemma_segment_sphere_symmetric(l: LineSegment, s: Sphere)
    ensures
        <LineSegment as Intersection<Sphere>>::spec_intersects(&l, &s) == <Sphere as Intersection<
            LineSegment,
        >>::spec_intersects(&s, &l),
{
}

/// A ray meets a triangle exactly when the triangle meets the ray.
pub proof fn lemma_ray_triangle_symmetric(r: Ray, t: Triangle)
    ensures
        <Ray as Intersection<Triangle>>::spec_intersects(&r, &t) == <Triangle as Intersection<
            Ray,
        >>::spec_intersects(&t, &r),
{
}

/// A segment meets a triangle exactly when the triangle meets the segment.
pub proof fn lemma_segment_triangle_symmetric(l: LineSegment, t: Triangle)
    ensures
        <LineSegment as Intersection<Triangle>>::spec_intersects(&l, &t) == <Triangle as Intersection<
            LineSegment,
        >>::spec_intersects(&t, &l),
{
}

/// A ball meets a triangle exactly when the triangle meets the ball.
pub proof fn lemma_sphere_triangle_symmetric(s: Sphere, t: Triangle)
    ensures
        <Sphere as Intersection<Triangle>>::spec_intersects(&s, &t) == <Triangle as Intersection<
            Sphere,
        >>::spec_intersects(&t, &s),
{
}

} // verus!

verus! {

/// A ray meets a plane exactly when one of its points, `origin + direction *
/// m / q` with `m >= 0`, lies in the plane.
pub proof fn lemma_plane_ray_crossing(pl: Plane, r: Ray)
    ensures
        plane_meets_ray(pl, r) <==> exists|m: int, q: int|
            #![trigger dot(pl.normal@, vadd(scale(r.origin@, q), scale(r.direction@, m)))]
            m >= 0 && q > 0 && dot(pl.normal@, vadd(scale(r.origin@, q), scale(r.direction@, m)))
                == pl.d * q,
{
    let n = pl.normal@;
    let o = r.origin@;
    let dir = r.direction@;
    let den = dot(n, dir);
    let num = pl.d - dot(n, o);
    if plane_meets_ray(pl, r) {
        let (m, q) = if den == 0 {
            (0int, 1int)
        } else if den > 0 {
            (num, den)
        } else {
            (-num, -den)
        };
        lemma_dot_of_combination(n, o, dir, q, m);
        if den > 0 {
            assert(num >= 0) by (nonlinear_arith)
                requires num * den >= 0, den > 0;
            assert(q * dot(n, o) + m * den == pl.d * q) by (nonlinear_arith)
                requires q == den, m == num, num == pl.d - dot(n, o);
        } else if den < 0 {
            assert(num <= 0) by (nonlinear_arith)
                requires num * den >= 0, den < 0;
            assert(q * dot(n, o) + m * den == pl.d * q) by (nonlinear_arith)
                requires q == -den, m == -num, num == pl.d - dot(n, o);
        } else {
            assert(1 * dot(n, o) + 0 * den == pl.d * 1);
        }
    }
    if exists|m: int, q: int|
        #![trigger dot(n, vadd(scale(o, q), scale(dir, m)))]
        m >= 0 && q > 0 && dot(n, vadd(scale(o, q), scale(dir, m))) == pl.d * q {
        let (m, q) = choose|m: int, q: int|
            #![trigger dot(n, vadd(scale(o, q), scale(dir, m)))]
            m >= 0 && q > 0 && dot(n, vadd(scale(o, q), scale(dir, m))) == pl.d * q;
        lemma_dot_of_combination(n, o, dir, q, m);
        assert(m * den == q * num) by (nonlinear_arith)
            requires q * dot(n, o) + m * den == pl.d * q, num == pl.d - dot(n, o);
        if den == 0 {
            assert(num == 0) by (nonlinear_arith)
                requires m * den == q * num, den == 0, q > 0;
        } else {
            assert(num * den >= 0) by (nonlinear_arith)
                requires m * den == q * num, m >= 0, q > 0;
        }
    }
}

/// `n · (o a + dir b) == a (n · o) + b (n · dir)`.
pub proof fn lemma_dot_of_combination(n: Vec3, o: Vec3, dir: Vec3, a: int, b: int)
    ensures
        dot(n, vadd(scale(o, a), scale(dir, b))) == a * dot(n, o) + b * dot(n, dir),
{
    assert(n.x * (o.x * a + dir.x * b) == a * (n.x * o.x) + b * (n.x * dir.x)) by (nonlinear_arith);
    assert(n.y * (o.y * a + dir.y * b) == a * (n.y * o.y) + b * (n.y * dir.y)) by (nonlinear_arith);
    assert(n.z * (o.z * a + dir.z * b) == a * (n.z * o.z) + b * (n.z * dir.z)) by (nonlinear_arith);
    assert(a * (n.x * o.x) + a * (n.y * o.y) + a * (n.z * o.z) == a * dot(n, o)) by (nonlinear_arith)
        requires dot(n, o) == n.x * o.x + n.y * o.y + n.z * o.z;
    assert(b * (n.x * dir.x) + b * (n.y * dir.y) + b * (n.z * dir.z) == b * dot(n, dir))
        by (nonlinear_arith)
        requires dot(n, dir) == n.x * dir.x + n.y * dir.y + n.z * dir.z;
}

} // verus!
