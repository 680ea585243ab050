use vstd::prelude::*;
use crate::closest_point::{
    ray_closest, scaled_dist2, segment_closest, ClosestPoint, Homogeneous, RationalPoint,
};
use crate::line::Line;
use crate::line_segment::LineSegment;
use crate::piece::{
    line_piece, line_piece_of, pair_dist2, pair_dist2_of, ray_piece, ray_piece_of, segment_piece,
    segment_piece_of, Extent, Piece,
};
use crate::plane::{signed_offset, Plane};
use crate::intersection::Intersection;
use crate::ray::Ray;
use crate::shape::Shape;
use crate::sphere::Sphere;
use crate::vector::{
    bounded, cross, dot, lemma_mul_bound, norm2, scale, vsub, wide_cross, wide_dot, wide_minus,
    wide_scale, wide_sub, widen, Point, Vec3, Wide3, COORD_LIMIT, DIRECTION_LIMIT, NORMAL_LIMIT,
    OFFSET_LIMIT,
};

verus! {

/// A rational number `num / den` with `den > 0`.
#[derive(Clone, Copy, Debug, PartialEq, Eq, Structural)]
pub struct Fraction {
    pub num: i128,
    pub den: i128,
}

/// A rational number as a pair of integers.
pub struct Ratio {
    pub num: int,
    pub den: int,
}

pub open spec fn ratio(num: int, den: int) -> Ratio {
    Ratio { num, den }
}

impl View for Fraction {
    type V = Ratio;

    open spec fn view(&self) -> Ratio {
        ratio(self.num as int, self.den as int)
    }
}

/// The squared distance between the rational point `h` and the lattice
/// point `p`.
pub open spec fn dist2_to(h: Homogeneous, p: Vec3) -> Ratio {
    ratio(scaled_dist2(h, p), h.den * h.den)
}

/// Measures the squared distance between two shapes.
///
/// Distances between lattice shapes are square roots in general; their
/// squares are rational and are given exactly.
pub trait Distance<Other: Shape>: Shape {
    /// The squared distance.
    spec fn spec_distance_squared(&self, other: &Other) -> Ratio;

    /// The squared distance between this shape and the other.
    fn distance_squared(&self, other: &Other) -> (r: Fraction)
        requires
            self.wf(),
            other.wf(),
        ensures
            r@ == self.spec_distance_squared(other),
            r.den > 0,
            r.num >= 0,
    ;
}

proof fn lemma_nonneg_square(x: int)
    ensures
        x * x >= 0,
{
    assert(x * x >= 0) by (nonlinear_arith);
}

proof fn lemma_norm2_nonneg(v: Vec3)
    ensures
        norm2(v) >= 0,
{
    assert(norm2(v) >= 0) by (nonlinear_arith)
        requires norm2(v) == v.x * v.x + v.y * v.y + v.z * v.z;
}

/// The squared distance from a closest point with `w <= 2^34` and
/// coordinates within `2^52` to a lattice point.
fn dist2_from(h: &RationalPoint, p: &Point) -> (r: Fraction)
    requires
        h.w > 0,
        h.w <= 0x4_0000_0000,
        bounded(h@.num, 0x10_0000_0000_0000),
        p.wf(),
    ensures
        r@ == dist2_to(h@, p@),
        r.den > 0,
        r.num >= 0,
{
    let num = Wide3 { x: h.x, y: h.y, z: h.z };
    let pw = Wide3 { x: p.x as i128, y: p.y as i128, z: p.z as i128 };
    proof {
        lemma_mul_bound(pw.x as int, h.w as int, COORD_LIMIT as int, 0x4_0000_0000);
        lemma_mul_bound(pw.y as int, h.w as int, COORD_LIMIT as int, 0x4_0000_0000);
        lemma_mul_bound(pw.z as int, h.w as int, COORD_LIMIT as int, 0x4_0000_0000);
        lemma_mul_bound(h.w as int, h.w as int, 0x4_0000_0000, 0x4_0000_0000);
    }
    let pw = wide_scale(&pw, h.w, Ghost(COORD_LIMIT as int), Ghost(0x4_0000_0000));
    let diff = wide_minus(&num, &pw, Ghost(0x10_0000_0000_0000));
    let d2 = wide_dot(&diff, &diff, Ghost(0x20_0000_0000_0000), Ghost(0x20_0000_0000_0000));
    proof {
        lemma_norm2_nonneg(diff@);
        assert(h.w * h.w > 0) by (nonlinear_arith) requires h.w > 0;
    }
    Fraction { num: d2, den: h.w * h.w }
}

impl Distance<Point> for LineSegment {
    /// Measured to the segment's closest point.
    open spec fn spec_distance_squared(&self, other: &Point) -> Ratio {
        dist2_to(segment_closest(self.start@, self.end@, other@), other@)
    }

    fn distance_squared(&self, other: &Point) -> (r: Fraction) {
        let h = crate::closest_point::segment_closest_to(&self.start, &self.end, other);
        dist2_from(&h, other)
    }
}

impl Distance<Point> for Ray {
    /// Measured to the ray's closest point.
    open spec fn spec_distance_squared(&self, other: &Point) -> Ratio {
        dist2_to(ray_closest(self.origin@, self.direction@, other@), other@)
    }

    fn distance_squared(&self, other: &Point) -> (r: Fraction) {
        let h = self.closest_point(other);
        proof {
            let dir = self.direction@;
            let t = dot(dir, vsub(other@, self.origin@));
            lemma_norm2_nonneg(dir);
            assert(norm2(dir) <= 0x3_0000_0000) by {
                lemma_mul_bound(dir.x, dir.x, DIRECTION_LIMIT as int, DIRECTION_LIMIT as int);
                lemma_mul_bound(dir.y, dir.y, DIRECTION_LIMIT as int, DIRECTION_LIMIT as int);
                lemma_mul_bound(dir.z, dir.z, DIRECTION_LIMIT as int, DIRECTION_LIMIT as int);
            }
            let d = vsub(other@, self.origin@);
            assert(-0x3_0000_0000 <= t <= 0x3_0000_0000) by {
                lemma_mul_bound(dir.x, d.x, DIRECTION_LIMIT as int, DIRECTION_LIMIT as int);
                lemma_mul_bound(dir.y, d.y, DIRECTION_LIMIT as int, DIRECTION_LIMIT as int);
                lemma_mul_bound(dir.z, d.z, DIRECTION_LIMIT as int, DIRECTION_LIMIT as int);
            }
            let n = h@.num;
            let o = self.origin@;
            if t > 0 {
                assert(bounded(h@.num, 0x10_0000_0000_0000)) by {
                    lemma_mul_bound(o.x, norm2(dir), COORD_LIMIT as int, 0x3_0000_0000);
                    lemma_mul_bound(o.y, norm2(dir), COORD_LIMIT as int, 0x3_0000_0000);
                    lemma_mul_bound(o.z, norm2(dir), COORD_LIMIT as int, 0x3_0000_0000);
                    lemma_mul_bound(dir.x, t, DIRECTION_LIMIT as int, 0x3_0000_0000);
                    lemma_mul_bound(dir.y, t, DIRECTION_LIMIT as int, 0x3_0000_0000);
                    lemma_mul_bound(dir.z, t, DIRECTION_LIMIT as int, 0x3_0000_0000);
                }
            }
        }
        dist2_from(&h, other)
    }
}

/// The squared distance from `p` to the line through `o` along `dir`:
/// `|dir × (p - o)|² / |dir|²`.
pub open spec fn line_dist2(o: Vec3, dir: Vec3, p: Vec3) -> Ratio {
    ratio(norm2(cross(dir, vsub(p, o))), norm2(dir))
}

impl Distance<Point> for Line {
    open spec fn spec_distance_squared(&self, other: &Point) -> Ratio {
        line_dist2(self.point@, self.direction@, other@)
    }

    fn distance_squared(&self, other: &Point) -> (r: Fraction) {
        let dir = widen(&self.direction);
        let c = wide_cross(
            &dir,
            &wide_sub(other, &self.point),
            Ghost(DIRECTION_LIMIT as int),
            Ghost(DIRECTION_LIMIT as int),
        );
        let num = wide_dot(&c, &c, Ghost(0x2_0000_0000), Ghost(0x2_0000_0000));
        let den = wide_dot(&dir, &dir, Ghost(DIRECTION_LIMIT as int), Ghost(DIRECTION_LIMIT as int));
        proof {
            lemma_norm2_nonneg(c@);
            assert(den > 0) by (nonlinear_arith)
                requires den == dir.x * dir.x + dir.y * dir.y + dir.z * dir.z,
                    !(dir.x == 0 && dir.y == 0 && dir.z == 0);
        }
        Fraction { num, den }
    }
}

/// The squared distance from `p` to the plane: `(normal · p - d)² / |normal|²`.
pub open spec fn plane_dist2(pl: Plane, p: Vec3) -> Ratio {
    ratio(signed_offset(pl, p) * signed_offset(pl, p), norm2(pl.normal@))
}

impl Distance<Point> for Plane {
    open spec fn spec_distance_squared(&self, other: &Point) -> Ratio {
        plane_dist2(*self, other@)
    }

    fn distance_squared(&self, other: &Point) -> (r: Fraction) {
        let off = self.signed_offset(other);
        let n = widen(&self.normal);
        let nn = wide_dot(&n, &n, Ghost(NORMAL_LIMIT as int), Ghost(NORMAL_LIMIT as int));
        proof {
            lemma_mul_bound(off as int, off as int, 2 * OFFSET_LIMIT, 2 * OFFSET_LIMIT);
            lemma_nonneg_square(off as int);
            assert(nn > 0) by (nonlinear_arith)
                requires nn == n.x * n.x + n.y * n.y + n.z * n.z,
                    !(n.x == 0 && n.y == 0 && n.z == 0);
        }
        Fraction { num: off * off, den: nn }
    }
}

/// The squared distance between two lines: for crossing or skew lines
/// `(w · (u × v))² / |u × v|²`, with `w` the difference of the reference
/// points; for parallel lines the squared distance of the second line's
/// reference point from the first line.
pub open spec fn line_line_dist2(l1: Line, l2: Line) -> Ratio {
    let n = cross(l1.direction@, l2.direction@);
    let w = vsub(l1.point@, l2.point@);
    if norm2(n) == 0 {
        line_dist2(l1.point@, l1.direction@, l2.point@)
    } else {
        ratio(dot(w, n) * dot(w, n), norm2(n))
    }
}

impl Distance<Line> for Line {
    open spec fn spec_distance_squared(&self, other: &Line) -> Ratio {
        line_line_dist2(*self, *other)
    }

    fn distance_squared(&self, other: &Line) -> (r: Fraction) {
        let u = widen(&self.direction);
        let v = widen(&other.direction);
        let n = wide_cross(&u, &v, Ghost(DIRECTION_LIMIT as int), Ghost(DIRECTION_LIMIT as int));
        let nn = wide_dot(&n, &n, Ghost(0x2_0000_0000), Ghost(0x2_0000_0000));
        if nn == 0 {
            return self.distance_squared(&other.point);
        }
        let w = wide_sub(&self.point, &other.point);
        let h = wide_dot(&w, &n, Ghost(DIRECTION_LIMIT as int), Ghost(0x2_0000_0000));
        proof {
            lemma_mul_bound(h as int, h as int, 0x6_0000_0000_0000, 0x6_0000_0000_0000);
            lemma_nonneg_square(h as int);
            lemma_norm2_nonneg(n@);
        }
        Fraction { num: h * h, den: nn }
    }
}

/// The squared distance from a pair of straight pieces' `pair_dist2`.
pub open spec fn pieces_dist2(a: Piece, b: Piece) -> Ratio {
    ratio(pair_dist2(a, b).0, pair_dist2(a, b).1)
}

fn pieces_distance(a: &Piece, b: &Piece) -> (r: Fraction)
    requires
        a.wf(),
        b.wf(),
        a.extent != Extent::Whole || b.extent != Extent::Whole,
    ensures
        r@ == pieces_dist2(*a, *b),
        r.den > 0,
        r.num >= 0,
{
    let (num, den) = pair_dist2_of(a, b);
    Fraction { num, den }
}

impl Distance<Line> for Ray {
    open spec fn spec_distance_squared(&self, other: &Line) -> Ratio {
        pieces_dist2(ray_piece(*self), line_piece(*other))
    }

    fn distance_squared(&self, other: &Line) -> (r: Fraction) {
        pieces_distance(&ray_piece_of(self), &line_piece_of(other))
    }
}

impl Distance<Ray> for Ray {
    open spec fn spec_distance_squared(&self, other: &Ray) -> Ratio {
        pieces_dist2(ray_piece(*self), ray_piece(*other))
    }

    fn distance_squared(&self, other: &Ray) -> (r: Fraction) {
        pieces_distance(&ray_piece_of(self), &ray_piece_of(other))
    }
}

impl Distance<LineSegment> for Ray {
    open spec fn spec_distance_squared(&self, other: &LineSegment) -> Ratio {
        pieces_dist2(ray_piece(*self), segment_piece(*other))
    }

    fn distance_squared(&self, other: &LineSegment) -> (r: Fraction) {
        pieces_distance(&ray_piece_of(self), &segment_piece_of(other))
    }
}

impl Distance<LineSegment> for LineSegment {
    open spec fn spec_distance_squared(&self, other: &LineSegment) -> Ratio {
        pieces_dist2(segment_piece(*self), segment_piece(*other))
    }

    fn distance_squared(&self, other: &LineSegment) -> (r: Fraction) {
        pieces_distance(&segment_piece_of(self), &segment_piece_of(other))
    }
}

} // verus!

verus! {

/// A ball meets a segment exactly when the segment's squared distance from
/// the center is at most the squared radius; in particular a ball of radius
/// zero, a point, touches the segment exactly when their distance is zero.
pub proof fn lemma_segment_sphere_touch(l: LineSegment, s: Sphere)
    requires
        l.wf(),
        s.wf(),
    ensures
        ({
            let d = <LineSegment as Distance<Point>>::spec_distance_squared(&l, &s.center);
            &&& <LineSegment as Intersection<Sphere>>::spec_intersects(&l, &s) <==> d.num <= s.radius
                * s.radius * d.den
            &&& s.radius == 0 ==> (<LineSegment as Intersection<Sphere>>::spec_intersects(&l, &s)
                <==> d.num == 0)
        }),
{
    let h = segment_closest(l.start@, l.end@, s.center@);
    lemma_norm2_nonneg(vsub(h.num, scale(s.center@, h.den)));
    assert(s.radius * s.radius * h.den * h.den == s.radius * s.radius * (h.den * h.den))
        by (nonlinear_arith);
    if s.radius == 0 {
        assert(0 * 0 * (h.den * h.den) == 0) by (nonlinear_arith);
    }
}

/// A ball meets a plane exactly when the plane's squared distance from the
/// center is at most the squared radius; a point touches the plane exactly
/// when their distance is zero.
pub proof fn lemma_plane_sphere_touch(pl: Plane, s: Sphere)
    requires
        pl.wf(),
        s.wf(),
    ensures
        ({
            let d = <Plane as Distance<Point>>::spec_distance_squared(&pl, &s.center);
            &&& <Plane as Intersection<Sphere>>::spec_intersects(&pl, &s) <==> d.num <= s.radius
                * s.radius * d.den
            &&& s.radius == 0 ==> (<Plane as Intersection<Sphere>>::spec_intersects(&pl, &s) <==> d.num
                == 0)
        }),
{
    let o = signed_offset(pl, s.center@);
    lemma_nonneg_square(o);
    if s.radius == 0 {
        assert(0 * 0 * norm2(pl.normal@) == 0) by (nonlinear_arith);
    }
}

/// Two balls overlap exactly when the squared distance between their
/// centers is at most the square of the summed radii; two points touch
/// exactly when their distance is zero.
pub proof fn lemma_sphere_sphere_touch(a: Sphere, b: Sphere)
    requires
        a.wf(),
        b.wf(),
    ensures
        ({
            let d2 = norm2(vsub(a.center@, b.center@));
            &&& <Sphere as Intersection<Sphere>>::spec_intersects(&a, &b) <==> d2 <= (a.radius
                + b.radius) * (a.radius + b.radius)
            &&& a.radius == 0 && b.radius == 0 ==> (<Sphere as Intersection<Sphere>>::spec_intersects(
                &a,
                &b,
            ) <==> d2 == 0)
        }),
{
    lemma_norm2_nonneg(vsub(a.center@, b.center@));
}

} // verus!

verus! {

/// The discriminant test of a ray against a ball is the distance test of its
/// carrier line: it passes exactly when the line's squared distance from the
/// center is at most the squared radius.
pub proof fn lemma_ray_sphere_carrier_touch(r: Ray, s: Sphere)
    requires
        r.wf(),
        s.wf(),
    ensures
        ({
            let carrier = Line { point: r.origin, direction: r.direction };
            let d = <Line as Distance<Point>>::spec_distance_squared(&carrier, &s.center);
            <Ray as Intersection<Sphere>>::spec_intersects(&r, &s) <==> d.num <= s.radius * s.radius
                * d.den
        }),
{
    let dir = r.direction@;
    let v = vsub(s.center@, r.origin@);
    let oc = vsub(r.origin@, s.center@);
    crate::closest_point::lemma_lagrange(dir, v);
    assert(dot(dir, oc) * dot(dir, oc) == dot(dir, v) * dot(dir, v)) by (nonlinear_arith)
        requires dot(dir, oc) == dir.x * oc.x + dir.y * oc.y + dir.z * oc.z, dot(dir, v) == dir.x
            * v.x + dir.y * v.y + dir.z * v.z, oc.x == -v.x, oc.y == -v.y, oc.z == -v.z;
    assert(norm2(oc) == norm2(v)) by (nonlinear_arith)
        requires norm2(oc) == oc.x * oc.x + oc.y * oc.y + oc.z * oc.z, norm2(v) == v.x * v.x + v.y
            * v.y + v.z * v.z, oc.x == -v.x, oc.y == -v.y, oc.z == -v.z;
    assert(norm2(dir) * (norm2(oc) - s.radius * s.radius) == norm2(dir) * norm2(oc) - s.radius
        * s.radius * norm2(dir)) by (nonlinear_arith);
}

} // verus!
