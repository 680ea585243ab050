use vstd::prelude::*;
use crate::line::Line;
use crate::line_segment::LineSegment;
use crate::piece::{
    line_piece, line_piece_of, pair_closest, pair_closest_of, ray_piece, ray_piece_of, segment_piece,
    segment_piece_of,
};
use crate::plane::{signed_offset, Plane};
use crate::ray::Ray;
use crate::shape::Shape;
use crate::triangle::{inside, triangle_normal, Triangle};
use crate::vector::{
    bounded, cross, dot, is_zero, lemma_mul_bound, norm2, scale, vadd, vsub, wide_add, wide_dot,
    wide_minus, wide_scale, wide_sub, widen, Point, Vec3, Wide3, COORD_LIMIT, DIRECTION_LIMIT,
    NORMAL_LIMIT, OFFSET_LIMIT,
};

verus! {

/// A point with rational coordinates `(x / w, y / w, z / w)`, `w > 0`.
#[derive(Clone, Copy, Debug, PartialEq, Eq, Structural)]
pub struct RationalPoint {
    pub x: i128,
    pub y: i128,
    pub z: i128,
    pub w: i128,
}

/// A point in homogeneous form: the point `num / den`.
pub struct Homogeneous {
    pub num: Vec3,
    pub den: int,
}

pub open spec fn homogeneous(num: Vec3, den: int) -> Homogeneous {
    Homogeneous { num, den }
}

impl View for RationalPoint {
    type V = Homogeneous;

    open spec fn view(&self) -> Homogeneous {
        homogeneous(crate::vector::vec3(self.x as int, self.y as int, self.z as int), self.w as int)
    }
}

/// The squared distance between `h` and the lattice point `q`, times `h.den²`.
pub open spec fn scaled_dist2(h: Homogeneous, q: Vec3) -> int {
    norm2(vsub(h.num, scale(q, h.den)))
}

/// `t` clamped to `[lo, hi]`.
pub open spec fn clamp(t: int, lo: int, hi: int) -> int {
    if t < lo {
        lo
    } else if t > hi {
        hi
    } else {
        t
    }
}

/// The point of the segment from `s` to `e` nearest to `p`: the projection of
/// `p` on the segment's carrier, with its parameter clamped to the segment.
/// With `len2 = |e - s|²` it is `s + (e - s) * k / len2`, where
/// `k = clamp((e - s) · (p - s), 0, len2)`; a degenerate segment gives `s`.
pub open spec fn segment_closest(s: Vec3, e: Vec3, p: Vec3) -> Homogeneous {
    let dir = vsub(e, s);
    let len2 = norm2(dir);
    if len2 == 0 {
        homogeneous(s, 1)
    } else {
        let k = clamp(dot(dir, vsub(p, s)), 0, len2);
        homogeneous(vadd(scale(s, len2), scale(dir, k)), len2)
    }
}

/// The point of the ray from `o` along `dir` nearest to `p`: the projection
/// of `p` on the ray's carrier, or `o` when `p` lies behind the origin.
pub open spec fn ray_closest(o: Vec3, dir: Vec3, p: Vec3) -> Homogeneous {
    let t = dot(dir, vsub(p, o));
    if t <= 0 {
        homogeneous(o, 1)
    } else {
        homogeneous(vadd(scale(o, norm2(dir)), scale(dir, t)), norm2(dir))
    }
}

/// The projection of `p` on the line through `o` along `dir`:
/// `o + dir * (dir · (p - o)) / |dir|²`.
pub open spec fn line_closest(o: Vec3, dir: Vec3, p: Vec3) -> Homogeneous {
    homogeneous(vadd(scale(o, norm2(dir)), scale(dir, dot(dir, vsub(p, o)))), norm2(dir))
}

/// The projection of `p` on the plane: `p - normal * (normal · p - d) / |normal|²`.
pub open spec fn plane_closest(pl: Plane, p: Vec3) -> Homogeneous {
    let nn = norm2(pl.normal@);
    homogeneous(vsub(scale(p, nn), scale(pl.normal@, signed_offset(pl, p))), nn)
}

/// The point of the first line nearest to the second. With `u`, `v` the
/// directions and `w` the difference of the reference points, the point is
/// at parameter `(b e - c d) / (a c - b²)` along `u`, where `a = u · u`,
/// `b = u · v`, `c = v · v`, `d = u · w`, `e = v · w`. Parallel lines, where
/// `a c - b² == 0`, have no single nearest point: the first line's
/// reference point stands in for one.
pub open spec fn line_line_closest(l1: Line, l2: Line) -> Homogeneous {
    let den = line_line_den(l1, l2);
    if den == 0 {
        homogeneous(l1.point@, 1)
    } else {
        homogeneous(vadd(scale(l1.point@, den), scale(l1.direction@, line_line_num(l1, l2))), den)
    }
}

/// `a c - b²` in the terms of `line_line_closest`: zero exactly for parallel
/// lines.
pub open spec fn line_line_den(l1: Line, l2: Line) -> int {
    let u = l1.direction@;
    let v = l2.direction@;
    norm2(u) * norm2(v) - dot(u, v) * dot(u, v)
}

/// `b e - c d` in the terms of `line_line_closest`.
pub open spec fn line_line_num(l1: Line, l2: Line) -> int {
    let u = l1.direction@;
    let v = l2.direction@;
    let w = vsub(l1.point@, l2.point@);
    dot(u, v) * dot(v, w) - norm2(v) * dot(u, w)
}

/// Finds the point of one shape nearest to another.
pub trait ClosestPoint<Other: Shape>: Shape {
    /// The nearest point, in homogeneous form.
    spec fn spec_closest_point(&self, other: &Other) -> Homogeneous;

    /// The point of this shape nearest to the other.
    fn closest_point(&self, other: &Other) -> (r: RationalPoint)
        requires
            self.wf(),
            other.wf(),
        ensures
            r@ == self.spec_closest_point(other),
            r.w > 0,
    ;
}

/// `|u × v|² == |u|² |v|² - (u · v)²`, so the denominator of
/// `line_line_closest` is never negative.
pub proof fn lemma_lagrange(u: Vec3, v: Vec3)
    ensures
        norm2(cross(u, v)) == norm2(u) * norm2(v) - dot(u, v) * dot(u, v),
        norm2(u) * norm2(v) - dot(u, v) * dot(u, v) >= 0,
{
    let (a1, a2, a3, b1, b2, b3) = (u.x, u.y, u.z, v.x, v.y, v.z);
    assert((a1 * a1 + a2 * a2 + a3 * a3) * (b1 * b1 + b2 * b2 + b3 * b3) == a1 * a1 * (b1 * b1)
        + a1 * a1 * (b2 * b2) + a1 * a1 * (b3 * b3) + a2 * a2 * (b1 * b1) + a2 * a2 * (b2 * b2) + a2
        * a2 * (b3 * b3) + a3 * a3 * (b1 * b1) + a3 * a3 * (b2 * b2) + a3 * a3 * (b3 * b3))
        by (nonlinear_arith);
    assert((a1 * b1 + a2 * b2 + a3 * b3) * (a1 * b1 + a2 * b2 + a3 * b3) == a1 * b1 * (a1 * b1)
        + a2 * b2 * (a2 * b2) + a3 * b3 * (a3 * b3) + 2 * (a1 * b1 * (a2 * b2)) + 2 * (a1 * b1 * (a3
        * b3)) + 2 * (a2 * b2 * (a3 * b3))) by (nonlinear_arith);
    lemma_square_of_difference(a2, b3, a3, b2);
    lemma_square_of_difference(a3, b1, a1, b3);
    lemma_square_of_difference(a1, b2, a2, b1);
    lemma_square_of_product(a1, b1);
    lemma_square_of_product(a2, b2);
    lemma_square_of_product(a3, b3);
    let c = cross(u, v);
    assert(c.x * c.x + c.y * c.y + c.z * c.z >= 0) by (nonlinear_arith);
}

proof fn lemma_square_of_product(p: int, q: int)
    ensures
        p * p * (q * q) == p * q * (p * q),
{
    assert(p * p * (q * q) == p * q * (p * q)) by (nonlinear_arith);
}

/// `(p q - r s)² == p² q² + r² s² - 2 (p s)(r q)`.
proof fn lemma_square_of_difference(p: int, q: int, r: int, s: int)
    ensures
        (p * q - r * s) * (p * q - r * s) == p * p * (q * q) + r * r * (s * s) - 2 * (p * s * (r
            * q)),
{
    let x = p * q;
    let y = r * s;
    assert((x - y) * (x - y) == x * x + y * y - 2 * (x * y)) by (nonlinear_arith);
    lemma_square_of_product(p, q);
    lemma_square_of_product(r, s);
    assert(x * y == p * s * (r * q)) by (nonlinear_arith)
        requires x == p * q, y == r * s;
}

pub proof fn lemma_norm2_positive(v: Vec3)
    ensures
        norm2(v) >= 0,
        !is_zero(v) ==> norm2(v) > 0,
{
    assert(norm2(v) >= 0) by (nonlinear_arith)
        requires norm2(v) == v.x * v.x + v.y * v.y + v.z * v.z;
    if !is_zero(v) {
        assert(norm2(v) > 0) by (nonlinear_arith)
            requires norm2(v) == v.x * v.x + v.y * v.y + v.z * v.z, !(v.x == 0 && v.y == 0 && v.z == 0);
    }
}

/// `o * w + dir * k` for a point and a vector in range.
pub(crate) fn along(o: &Point, dir: &Wide3, k: i128, w: i128, Ghost(mk): Ghost<int>, Ghost(mw): Ghost<int>) -> (r: Wide3)
    requires
        o.wf(),
        bounded(dir@, DIRECTION_LIMIT as int),
        -mk <= k <= mk,
        -mw <= w <= mw,
        0 <= mk <= 0x100_0000_0000_0000_0000_0000,
        0 <= mw <= 0x100_0000_0000_0000_0000_0000,
    ensures
        r@ == vadd(scale(o@, w as int), scale(dir@, k as int)),
        bounded(r@, COORD_LIMIT * mw + DIRECTION_LIMIT * mk),
{
    let ow = Wide3 { x: o.x as i128, y: o.y as i128, z: o.z as i128 };
    proof {
        lemma_mul_bound(ow.x as int, w as int, COORD_LIMIT as int, mw);
        lemma_mul_bound(ow.y as int, w as int, COORD_LIMIT as int, mw);
        lemma_mul_bound(ow.z as int, w as int, COORD_LIMIT as int, mw);
        lemma_mul_bound(dir.x as int, k as int, DIRECTION_LIMIT as int, mk);
        lemma_mul_bound(dir.y as int, k as int, DIRECTION_LIMIT as int, mk);
        lemma_mul_bound(dir.z as int, k as int, DIRECTION_LIMIT as int, mk);
    }
    let a = wide_scale(&ow, w, Ghost(COORD_LIMIT as int), Ghost(mw));
    let b = wide_scale(dir, k, Ghost(DIRECTION_LIMIT as int), Ghost(mk));
    wide_add(&a, &b, Ghost(COORD_LIMIT * mw + DIRECTION_LIMIT * mk))
}

pub(crate) fn lattice(p: &Point) -> (r: RationalPoint)
    ensures
        r@ == homogeneous(p@, 1),
        r.w == 1,
{
    RationalPoint { x: p.x as i128, y: p.y as i128, z: p.z as i128, w: 1 }
}

pub(crate) fn rational(p: &Wide3, w: i128) -> (r: RationalPoint)
    ensures
        r@ == homogeneous(p@, w as int),
        r.w == w,
{
    RationalPoint { x: p.x, y: p.y, z: p.z, w }
}

/// The point of the segment from `s` to `e` nearest to `p`.
pub fn segment_closest_to(s: &Point, e: &Point, p: &Point) -> (r: RationalPoint)
    requires
        s.wf(),
        e.wf(),
        p.wf(),
    ensures
        r@ == segment_closest(s@, e@, p@),
        r.w > 0,
        bounded(r@.num, 0x10_0000_0000_0000),
        r.w <= 0x4_0000_0000,
{
    let dir = wide_sub(e, s);
    let len2 = wide_dot(&dir, &dir, Ghost(0x1_0000), Ghost(0x1_0000));
    if len2 == 0 {
        return lattice(s);
    }
    proof {
        lemma_norm2_positive(dir@);
    }
    let t = wide_dot(&dir, &wide_sub(p, s), Ghost(0x1_0000), Ghost(0x1_0000));
    let k = if t < 0 {
        0
    } else if t > len2 {
        len2
    } else {
        t
    };
    let q = along(s, &dir, k, len2, Ghost(0x3_0000_0000), Ghost(0x3_0000_0000));
    rational(&q, len2)
}

impl ClosestPoint<Point> for LineSegment {
    open spec fn spec_closest_point(&self, other: &Point) -> Homogeneous {
        segment_closest(self.start@, self.end@, other@)
    }

    fn closest_point(&self, other: &Point) -> (r: RationalPoint) {
        segment_closest_to(&self.start, &self.end, other)
    }
}

impl ClosestPoint<Point> for Ray {
    open spec fn spec_closest_point(&self, other: &Point) -> Homogeneous {
        ray_closest(self.origin@, self.direction@, other@)
    }

    fn closest_point(&self, other: &Point) -> (r: RationalPoint) {
        let dir = widen(&self.direction);
        let t = wide_dot(&dir, &wide_sub(other, &self.origin), Ghost(0x1_0000), Ghost(0x1_0000));
        if t <= 0 {
            return lattice(&self.origin);
        }
        let len2 = wide_dot(&dir, &dir, Ghost(0x1_0000), Ghost(0x1_0000));
        proof {
            lemma_norm2_positive(dir@);
        }
        let q = along(&self.origin, &dir, t, len2, Ghost(0x3_0000_0000), Ghost(0x3_0000_0000));
        rational(&q, len2)
    }
}

impl ClosestPoint<Point> for Line {
    open spec fn spec_closest_point(&self, other: &Point) -> Homogeneous {
        line_closest(self.point@, self.direction@, other@)
    }

    fn closest_point(&self, other: &Point) -> (r: RationalPoint) {
        let dir = widen(&self.direction);
        let t = wide_dot(&dir, &wide_sub(other, &self.point), Ghost(0x1_0000), Ghost(0x1_0000));
        let len2 = wide_dot(&dir, &dir, Ghost(0x1_0000), Ghost(0x1_0000));
        proof {
            lemma_norm2_positive(dir@);
        }
        let q = along(&self.point, &dir, t, len2, Ghost(0x3_0000_0000), Ghost(0x3_0000_0000));
        rational(&q, len2)
    }
}

impl ClosestPoint<Point> for Plane {
    open spec fn spec_closest_point(&self, other: &Point) -> Homogeneous {
        plane_closest(*self, other@)
    }

    fn closest_point(&self, other: &Point) -> (r: RationalPoint) {
        let n = widen(&self.normal);
        let nn = wide_dot(&n, &n, Ghost(NORMAL_LIMIT as int), Ghost(NORMAL_LIMIT as int));
        let off = self.signed_offset(other);
        proof {
            lemma_norm2_positive(n@);
        }
        let pw = Wide3 { x: other.x as i128, y: other.y as i128, z: other.z as i128 };
        let a = wide_scale(&pw, nn, Ghost(COORD_LIMIT as int), Ghost(0xc_0000_0000_0000_0000));
        let b = wide_scale(&n, off, Ghost(NORMAL_LIMIT as int), Ghost(2 * OFFSET_LIMIT));
        proof {
            let m = 0xc_0000_0000_0000_0000int;
            lemma_mul_bound(pw.x as int, nn as int, COORD_LIMIT as int, m);
            lemma_mul_bound(pw.y as int, nn as int, COORD_LIMIT as int, m);
            lemma_mul_bound(pw.z as int, nn as int, COORD_LIMIT as int, m);
            lemma_mul_bound(n.x as int, off as int, NORMAL_LIMIT as int, 2 * OFFSET_LIMIT);
            lemma_mul_bound(n.y as int, off as int, NORMAL_LIMIT as int, 2 * OFFSET_LIMIT);
            lemma_mul_bound(n.z as int, off as int, NORMAL_LIMIT as int, 2 * OFFSET_LIMIT);
        }
        let q = wide_minus(&a, &b, Ghost(0x100_0000_0000_0000_0000_0000));
        rational(&q, nn)
    }
}

/// `(a c - b², b e - c d)` in the terms of `line_line_closest`.
pub(crate) fn line_line_terms(l1: &Line, l2: &Line) -> (r: (i128, i128))
    requires
        l1.wf(),
        l2.wf(),
    ensures
        r.0 == line_line_den(*l1, *l2),
        r.1 == line_line_num(*l1, *l2),
        0 <= r.0 <= 0x12_0000_0000_0000_0000,
        -0x12_0000_0000_0000_0000 <= r.1 <= 0x12_0000_0000_0000_0000,
{
    let u = widen(&l1.direction);
    let v = widen(&l2.direction);
    let w = wide_sub(&l1.point, &l2.point);
    let m = DIRECTION_LIMIT as i128;
    let a = wide_dot(&u, &u, Ghost(m as int), Ghost(m as int));
    let b = wide_dot(&u, &v, Ghost(m as int), Ghost(m as int));
    let c = wide_dot(&v, &v, Ghost(m as int), Ghost(m as int));
    let d = wide_dot(&u, &w, Ghost(m as int), Ghost(m as int));
    let e = wide_dot(&v, &w, Ghost(m as int), Ghost(m as int));
    proof {
        let mm = 0x3_0000_0000int;
        lemma_mul_bound(a as int, c as int, mm, mm);
        lemma_mul_bound(b as int, b as int, mm, mm);
        lemma_mul_bound(b as int, e as int, mm, mm);
        lemma_mul_bound(c as int, d as int, mm, mm);
        lemma_lagrange(u@, v@);
        lemma_norm2_positive(u@);
        lemma_norm2_positive(v@);
        assert(b * b >= 0) by (nonlinear_arith);
        assert(a * c >= 0) by (nonlinear_arith) requires a >= 0, c >= 0;
    }
    (a * c - b * b, b * e - c * d)
}

impl ClosestPoint<Line> for Line {
    open spec fn spec_closest_point(&self, other: &Line) -> Homogeneous {
        line_line_closest(*self, *other)
    }

    fn closest_point(&self, other: &Line) -> (r: RationalPoint) {
        let (den, num) = line_line_terms(self, other);
        if den == 0 {
            return lattice(&self.point);
        }
        let q = along(
            &self.point,
            &widen(&self.direction),
            num,
            den,
            Ghost(0x12_0000_0000_0000_0000),
            Ghost(0x12_0000_0000_0000_0000),
        );
        rational(&q, den)
    }
}

impl ClosestPoint<Line> for Ray {
    open spec fn spec_closest_point(&self, other: &Line) -> Homogeneous {
        pair_closest(ray_piece(*self), line_piece(*other))
    }

    fn closest_point(&self, other: &Line) -> (r: RationalPoint) {
        pair_closest_of(&ray_piece_of(self), &line_piece_of(other))
    }
}

impl ClosestPoint<Ray> for Line {
    open spec fn spec_closest_point(&self, other: &Ray) -> Homogeneous {
        pair_closest(line_piece(*self), ray_piece(*other))
    }

    fn closest_point(&self, other: &Ray) -> (r: RationalPoint) {
        pair_closest_of(&line_piece_of(self), &ray_piece_of(other))
    }
}

impl ClosestPoint<Ray> for Ray {
    open spec fn spec_closest_point(&self, other: &Ray) -> Homogeneous {
        pair_closest(ray_piece(*self), ray_piece(*other))
    }

    fn closest_point(&self, other: &Ray) -> (r: RationalPoint) {
        pair_closest_of(&ray_piece_of(self), &ray_piece_of(other))
    }
}

impl ClosestPoint<LineSegment> for Ray {
    open spec fn spec_closest_point(&self, other: &LineSegment) -> Homogeneous {
        pair_closest(ray_piece(*self), segment_piece(*other))
    }

    fn closest_point(&self, other: &LineSegment) -> (r: RationalPoint) {
        pair_closest_of(&ray_piece_of(self), &segment_piece_of(other))
    }
}

impl ClosestPoint<Ray> for LineSegment {
    open spec fn spec_closest_point(&self, other: &Ray) -> Homogeneous {
        pair_closest(segment_piece(*self), ray_piece(*other))
    }

    fn closest_point(&self, other: &Ray) -> (r: RationalPoint) {
        pair_closest_of(&segment_piece_of(self), &ray_piece_of(other))
    }
}

impl ClosestPoint<Line> for LineSegment {
    open spec fn spec_closest_point(&self, other: &Line) -> Homogeneous {
        pair_closest(segment_piece(*self), line_piece(*other))
    }

    fn closest_point(&self, other: &Line) -> (r: RationalPoint) {
        pair_closest_of(&segment_piece_of(self), &line_piece_of(other))
    }
}

impl ClosestPoint<LineSegment> for LineSegment {
    open spec fn spec_closest_point(&self, other: &LineSegment) -> Homogeneous {
        pair_closest(segment_piece(*self), segment_piece(*other))
    }

    fn closest_point(&self, other: &LineSegment) -> (r: RationalPoint) {
        pair_closest_of(&segment_piece_of(self), &segment_piece_of(other))
    }
}

/// The squared distance from `p` to the segment from `s` to `e`, as
/// `num / den` with `den = |e - s|²` (or `1` for a degenerate segment):
/// with `w = s - p`, `t = (e - s) · (p - s)` and `k` the clamped parameter
/// of `segment_closest`, it is `(den |w|² - 2 k t + k²) / den`.
pub open spec fn segment_dist2(s: Vec3, e: Vec3, p: Vec3) -> (int, int) {
    let d = vsub(e, s);
    let l = norm2(d);
    let w = vsub(s, p);
    if l == 0 {
        (norm2(w), 1)
    } else {
        let t = dot(d, vsub(p, s));
        let k = clamp(t, 0, l);
        (l * norm2(w) - 2 * k * t + k * k, l)
    }
}

/// `a <= b` for two fractions with positive denominators.
pub open spec fn at_most(a: (int, int), b: (int, int)) -> bool {
    a.0 * b.1 <= b.0 * a.1
}

/// The point of a triangle nearest to `p`. When `p` projects inside a
/// proper triangle, that projection `p - n (n · (p - a)) / |n|²`; else the
/// nearest of the three edges' closest points, the first edge winning ties.
pub open spec fn triangle_closest(t: Triangle, p: Vec3) -> Homogeneous {
    let n = triangle_normal(t);
    if !is_zero(n) && inside(t, p, 1) {
        homogeneous(vsub(scale(p, norm2(n)), scale(n, dot(n, vsub(p, t.a@)))), norm2(n))
    } else {
        let d0 = segment_dist2(t.a@, t.b@, p);
        let d1 = segment_dist2(t.b@, t.c@, p);
        let d2 = segment_dist2(t.c@, t.a@, p);
        if at_most(d0, d1) && at_most(d0, d2) {
            segment_closest(t.a@, t.b@, p)
        } else if at_most(d1, d2) {
            segment_closest(t.b@, t.c@, p)
        } else {
            segment_closest(t.c@, t.a@, p)
        }
    }
}

/// The squared distance from `p` to the segment from `s` to `e`, in the
/// form of `segment_dist2`.
pub(crate) fn segment_dist2_of(s: &Point, e: &Point, p: &Point) -> (r: (i128, i128))
    requires
        s.wf(),
        e.wf(),
        p.wf(),
    ensures
        (r.0 as int, r.1 as int) == segment_dist2(s@, e@, p@),
        0 < r.1 <= 0x3_0000_0000,
        -0x40_0000_0000_0000_0000 <= r.0 <= 0x40_0000_0000_0000_0000,
{
    let m = DIRECTION_LIMIT as i128;
    let d = wide_sub(e, s);
    let w = wide_sub(s, p);
    let l = wide_dot(&d, &d, Ghost(m as int), Ghost(m as int));
    let ww = wide_dot(&w, &w, Ghost(m as int), Ghost(m as int));
    proof {
        lemma_norm2_positive(d@);
        lemma_norm2_positive(w@);
    }
    if l == 0 {
        return (ww, 1);
    }
    let t = wide_dot(&d, &wide_sub(p, s), Ghost(m as int), Ghost(m as int));
    let k = if t < 0 {
        0
    } else if t > l {
        l
    } else {
        t
    };
    proof {
        let mm = 0x3_0000_0000int;
        lemma_mul_bound(l as int, ww as int, mm, mm);
        lemma_mul_bound(k as int, t as int, mm, mm);
        lemma_mul_bound(k as int, k as int, mm, mm);
        assert(2 * k * t == 2 * (k * t)) by (nonlinear_arith);
    }
    (l * ww - 2 * k * t + k * k, l)
}

impl ClosestPoint<Point> for Triangle {
    open spec fn spec_closest_point(&self, other: &Point) -> Homogeneous {
        triangle_closest(*self, other@)
    }

    fn closest_point(&self, other: &Point) -> (r: RationalPoint) {
        let n = self.normal();
        let pw = Wide3 { x: other.x as i128, y: other.y as i128, z: other.z as i128 };
        if !(n.x == 0 && n.y == 0 && n.z == 0) && self.inside_rational(&n, &pw, 1) {
            let nn = wide_dot(&n, &n, Ghost(NORMAL_LIMIT as int), Ghost(NORMAL_LIMIT as int));
            let h = wide_dot(
                &n,
                &wide_sub(other, &self.a),
                Ghost(NORMAL_LIMIT as int),
                Ghost(DIRECTION_LIMIT as int),
            );
            proof {
                lemma_norm2_positive(n@);
                let m = 0xc_0000_0000_0000_0000int;
                lemma_mul_bound(pw.x as int, nn as int, COORD_LIMIT as int, m);
                lemma_mul_bound(pw.y as int, nn as int, COORD_LIMIT as int, m);
                lemma_mul_bound(pw.z as int, nn as int, COORD_LIMIT as int, m);
                let mh = 0x6_0000_0000_0000int;
                lemma_mul_bound(n.x as int, h as int, NORMAL_LIMIT as int, mh);
                lemma_mul_bound(n.y as int, h as int, NORMAL_LIMIT as int, mh);
                lemma_mul_bound(n.z as int, h as int, NORMAL_LIMIT as int, mh);
            }
            let a = wide_scale(&pw, nn, Ghost(COORD_LIMIT as int), Ghost(0xc_0000_0000_0000_0000));
            let b = wide_scale(&n, h, Ghost(NORMAL_LIMIT as int), Ghost(0x6_0000_0000_0000));
            let q = wide_minus(&a, &b, Ghost(0x100_0000_0000_0000_0000_0000));
            return rational(&q, nn);
        }
        let d0 = segment_dist2_of(&self.a, &self.b, other);
        let d1 = segment_dist2_of(&self.b, &self.c, other);
        let d2 = segment_dist2_of(&self.c, &self.a, other);
        proof {
            let mn = 0x40_0000_0000_0000_0000int;
            let md = 0x3_0000_0000int;
            lemma_mul_bound(d0.0 as int, d1.1 as int, mn, md);
            lemma_mul_bound(d0.0 as int, d2.1 as int, mn, md);
            lemma_mul_bound(d1.0 as int, d0.1 as int, mn, md);
            lemma_mul_bound(d1.0 as int, d2.1 as int, mn, md);
            lemma_mul_bound(d2.0 as int, d0.1 as int, mn, md);
            lemma_mul_bound(d2.0 as int, d1.1 as int, mn, md);
        }
        if d0.0 * d1.1 <= d1.0 * d0.1 && d0.0 * d2.1 <= d2.0 * d0.1 {
            segment_closest_to(&self.a, &self.b, other)
        } else if d1.0 * d2.1 <= d2.0 * d1.1 {
            segment_closest_to(&self.b, &self.c, other)
        } else {
            segment_closest_to(&self.c, &self.a, other)
        }
    }
}

/// `segment_dist2` is the squared distance to the segment's closest point:
/// `scaled_dist2(h, p) / h.den²` with `h = segment_closest(s, e, p)`, whose
/// denominator is that of `segment_dist2`.
pub proof fn lemma_segment_dist2_is_closest(s: Vec3, e: Vec3, p: Vec3)
    ensures
        ({
            let (num, den) = segment_dist2(s, e, p);
            let h = segment_closest(s, e, p);
            &&& h.den == den
            &&& den > 0
            &&& scaled_dist2(h, p) == num * den
        }),
{
    let d = vsub(e, s);
    let w = vsub(s, p);
    let l = norm2(d);
    lemma_norm2_positive(d);
    if l == 0 {
        assert(vsub(s, scale(p, 1)) == w);
    } else {
        let t = dot(d, vsub(p, s));
        let k = clamp(t, 0, l);
        let b = dot(w, d);
        let c = norm2(w);
        assert(t == -b) by (nonlinear_arith)
            requires t == d.x * (p.x - s.x) + d.y * (p.y - s.y) + d.z * (p.z - s.z),
                b == w.x * d.x + w.y * d.y + w.z * d.z, w == vsub(s, p);
        lemma_shift(s, d, p, l, k);
        lemma_norm2_combination(w, d, l, k);
        assert(l * l * c + 2 * (l * k) * b + k * k * l == (l * c - 2 * k * t + k * k) * l)
            by (nonlinear_arith)
            requires t == -b;
    }
}

proof fn lemma_at_most_transitive(a: (int, int), b: (int, int), c: (int, int))
    requires
        a.1 > 0,
        b.1 > 0,
        c.1 > 0,
        at_most(a, b),
        at_most(b, c),
    ensures
        at_most(a, c),
{
    assert(a.0 * b.1 * c.1 <= b.0 * a.1 * c.1) by (nonlinear_arith)
        requires a.0 * b.1 <= b.0 * a.1, c.1 > 0;
    assert(b.0 * c.1 * a.1 <= c.0 * b.1 * a.1) by (nonlinear_arith)
        requires b.0 * c.1 <= c.0 * b.1, a.1 > 0;
    assert(a.0 * c.1 * b.1 <= c.0 * a.1 * b.1) by (nonlinear_arith)
        requires a.0 * b.1 * c.1 <= b.0 * a.1 * c.1, b.0 * c.1 * a.1 <= c.0 * b.1 * a.1;
    assert(a.0 * c.1 <= c.0 * a.1) by (nonlinear_arith)
        requires a.0 * c.1 * b.1 <= c.0 * a.1 * b.1, b.1 > 0;
}

proof fn lemma_at_most_total(a: (int, int), b: (int, int))
    ensures
        at_most(a, b) || at_most(b, a),
{
}

/// When a point does not project inside the triangle, the triangle's
/// closest point is the nearest of the three edges' closest points: its
/// squared distance is at most each edge's `segment_dist2`.
pub proof fn lemma_triangle_closest_is_nearest_edge(t: Triangle, p: Vec3)
    requires
        !(!is_zero(triangle_normal(t)) && inside(t, p, 1)),
    ensures
        ({
            let h = triangle_closest(t, p);
            let best = (scaled_dist2(h, p), h.den * h.den);
            &&& h.den > 0
            &&& at_most(best, segment_dist2(t.a@, t.b@, p))
            &&& at_most(best, segment_dist2(t.b@, t.c@, p))
            &&& at_most(best, segment_dist2(t.c@, t.a@, p))
        }),
{
    let d0 = segment_dist2(t.a@, t.b@, p);
    let d1 = segment_dist2(t.b@, t.c@, p);
    let d2 = segment_dist2(t.c@, t.a@, p);
    lemma_segment_dist2_is_closest(t.a@, t.b@, p);
    lemma_segment_dist2_is_closest(t.b@, t.c@, p);
    lemma_segment_dist2_is_closest(t.c@, t.a@, p);
    lemma_at_most_total(d0, d1);
    lemma_at_most_total(d0, d2);
    lemma_at_most_total(d1, d2);
    let chosen = if at_most(d0, d1) && at_most(d0, d2) {
        d0
    } else if at_most(d1, d2) {
        d1
    } else {
        d2
    };
    if at_most(d0, d1) && at_most(d0, d2) {
    } else if at_most(d1, d2) {
        if !at_most(d0, d1) {
        } else {
            lemma_at_most_transitive(d1, d2, d0);
        }
    } else {
        if !at_most(d0, d1) {
            lemma_at_most_transitive(d2, d1, d0);
        }
    }
    // the chosen edge's point, measured as `scaled / den²`, is `num / den`
    let h = triangle_closest(t, p);
    assert(h.den == chosen.1 && scaled_dist2(h, p) == chosen.0 * chosen.1);
    lemma_scaled_fraction(chosen, d0);
    lemma_scaled_fraction(chosen, d1);
    lemma_scaled_fraction(chosen, d2);
}

/// `(n d) / d²` compares as `n / d`.
proof fn lemma_scaled_fraction(a: (int, int), b: (int, int))
    requires
        a.1 > 0,
        b.1 > 0,
        at_most(a, b),
    ensures
        at_most((a.0 * a.1, a.1 * a.1), b),
{
    assert(a.0 * a.1 * b.1 <= b.0 * (a.1 * a.1)) by (nonlinear_arith)
        requires a.0 * b.1 <= b.0 * a.1, a.1 > 0;
}

/// `|w * a + d * b|² == a² |w|² + 2 a b (w · d) + b² |d|²`.
pub proof fn lemma_norm2_combination(w: Vec3, d: Vec3, a: int, b: int)
    ensures
        norm2(vadd(scale(w, a), scale(d, b))) == a * a * norm2(w) + 2 * (a * b) * dot(w, d) + b * b
            * norm2(d),
{
    lemma_square_of_sum(w.x, d.x, a, b);
    lemma_square_of_sum(w.y, d.y, a, b);
    lemma_square_of_sum(w.z, d.z, a, b);
    assert(a * a * norm2(w) == a * a * (w.x * w.x) + a * a * (w.y * w.y) + a * a * (w.z * w.z))
        by (nonlinear_arith)
        requires norm2(w) == w.x * w.x + w.y * w.y + w.z * w.z;
    assert(b * b * norm2(d) == b * b * (d.x * d.x) + b * b * (d.y * d.y) + b * b * (d.z * d.z))
        by (nonlinear_arith)
        requires norm2(d) == d.x * d.x + d.y * d.y + d.z * d.z;
    assert(2 * (a * b) * dot(w, d) == 2 * (a * b) * (w.x * d.x) + 2 * (a * b) * (w.y * d.y) + 2 * (a
        * b) * (w.z * d.z)) by (nonlinear_arith)
        requires dot(w, d) == w.x * d.x + w.y * d.y + w.z * d.z;
}

proof fn lemma_square_of_sum(x: int, y: int, a: int, b: int)
    ensures
        (x * a + y * b) * (x * a + y * b) == a * a * (x * x) + 2 * (a * b) * (x * y) + b * b * (y
            * y),
{
    let u = x * a;
    let v = y * b;
    assert((u + v) * (u + v) == u * u + 2 * (u * v) + v * v) by (nonlinear_arith);
    assert(u * u == a * a * (x * x)) by (nonlinear_arith)
        requires u == x * a;
    assert(v * v == b * b * (y * y)) by (nonlinear_arith)
        requires v == y * b;
    assert(u * v == a * b * (x * y)) by (nonlinear_arith)
        requires u == x * a, v == y * b;
    assert(2 * (a * b) * (x * y) == 2 * (a * b * (x * y))) by (nonlinear_arith);
}

/// `s * q + d * m - p * q == (s - p) * q + d * m`.
proof fn lemma_shift(s: Vec3, d: Vec3, p: Vec3, q: int, m: int)
    ensures
        vsub(vadd(scale(s, q), scale(d, m)), scale(p, q)) == vadd(scale(vsub(s, p), q), scale(d, m)),
{
    assert((s.x - p.x) * q == s.x * q - p.x * q) by (nonlinear_arith);
    assert((s.y - p.y) * q == s.y * q - p.y * q) by (nonlinear_arith);
    assert((s.z - p.z) * q == s.z * q - p.z * q) by (nonlinear_arith);
}

/// Over points `y / l` with `y` between `0` and `l * q`, the convex
/// `g(z) = z² + 2 z c` is least at the clamp of its minimum `-c` into that
/// range: `g(x) <= g(y)` for `x = clamp(-c, 0, l * q)`.
proof fn lemma_clamped_minimum(c: int, l: int, q: int, x: int, y: int)
    requires
        l > 0,
        q > 0,
        0 <= y <= l * q,
        x == clamp(-c, 0, l * q),
    ensures
        x * x + 2 * x * c <= y * y + 2 * y * c,
{
    if -c < 0 {
        assert(x * x + 2 * x * c <= y * y + 2 * y * c) by (nonlinear_arith)
            requires x == 0, y >= 0, c > 0;
    } else if -c > l * q {
        assert(x * x + 2 * x * c <= y * y + 2 * y * c) by (nonlinear_arith)
            requires x == l * q, y <= x, x + c < 0, y >= 0;
    } else {
        assert(x * x + 2 * x * c <= y * y + 2 * y * c) by (nonlinear_arith)
            requires x == -c;
    }
}

/// `(a² c + 2 a k b + k² a) q² == a² c q² + a (2 (k q)(q b) + (k q)²)`.
proof fn lemma_scaled_terms(a: int, c: int, k: int, b: int, q: int)
    ensures
        (a * a * c + 2 * (a * k) * b + k * k * a) * (q * q) == a * a * c * (q * q) + a * (2 * (k * q)
            * (q * b)) + a * (k * q * (k * q)),
{
    let t1 = a * a * c;
    let t2 = 2 * (a * k) * b;
    let t3 = k * k * a;
    let qq = q * q;
    assert((t1 + t2 + t3) * qq == t1 * qq + t2 * qq + t3 * qq) by (nonlinear_arith);
    assert(t2 * qq == a * (2 * (k * q) * (q * b))) by (nonlinear_arith)
        requires t2 == 2 * (a * k) * b, qq == q * q;
    assert(t3 * qq == a * (k * q * (k * q))) by (nonlinear_arith)
        requires t3 == k * k * a, qq == q * q;
}

/// `(q² c + 2 q m b + m² l) l² == q² c l² + l (2 (m l)(q b) + (m l)²)`.
proof fn lemma_other_terms(q: int, c: int, m: int, b: int, l: int)
    ensures
        (q * q * c + 2 * (q * m) * b + m * m * l) * (l * l) == q * q * c * (l * l) + l * (2 * (m * l)
            * (q * b)) + l * (m * l * (m * l)),
{
    let t1 = q * q * c;
    let t2 = 2 * (q * m) * b;
    let t3 = m * m * l;
    let ll = l * l;
    assert((t1 + t2 + t3) * ll == t1 * ll + t2 * ll + t3 * ll) by (nonlinear_arith);
    assert(t2 * ll == l * (2 * (m * l) * (q * b))) by (nonlinear_arith)
        requires t2 == 2 * (q * m) * b, ll == l * l;
    assert(t3 * ll == l * (m * l * (m * l))) by (nonlinear_arith)
        requires t3 == m * m * l, ll == l * l;
}

/// With `x = k q` and `y = m l`: when `g(x) <= g(y)` for
/// `g(z) = z² + 2 z (q b)`, the point at parameter `k / l` is no farther than
/// the one at `m / q`, in the scaled squared distances of
/// `lemma_norm2_combination`.
proof fn lemma_compare_scaled(l: int, c: int, b: int, k: int, q: int, m: int)
    requires
        l > 0,
        q > 0,
        (k * q) * (k * q) + 2 * (k * q) * (q * b) <= (m * l) * (m * l) + 2 * (m * l) * (q * b),
    ensures
        (l * l * c + 2 * (l * k) * b + k * k * l) * (q * q) <= (q * q * c + 2 * (q * m) * b + m * m
            * l) * (l * l),
{
    let x = k * q;
    let y = m * l;
    lemma_scaled_terms(l, c, k, b, q);
    lemma_other_terms(q, c, m, b, l);
    assert(l * (x * x + 2 * x * (q * b)) <= l * (y * y + 2 * y * (q * b))) by (nonlinear_arith)
        requires x * x + 2 * x * (q * b) <= y * y + 2 * y * (q * b), l > 0;
    assert(l * l * c * (q * q) == q * q * c * (l * l)) by (nonlinear_arith);
    assert(l * (2 * x * (q * b)) + l * (x * x) == l * (x * x + 2 * x * (q * b))) by (nonlinear_arith);
    assert(l * (2 * y * (q * b)) + l * (y * y) == l * (y * y + 2 * y * (q * b))) by (nonlinear_arith);
}

/// The convex `g(z) = z² + 2 z c` is least at `-c`.
proof fn lemma_unclamped_minimum(c: int, x: int, y: int)
    requires
        x == -c,
    ensures
        x * x + 2 * x * c <= y * y + 2 * y * c,
{
    assert(x * x + 2 * x * c <= y * y + 2 * y * c) by (nonlinear_arith)
        requires x == -c;
}

/// No point of a segment is nearer to `p` than the point `closest_point`
/// gives: for every point `(s * q + (e - s) * m) / q` with `0 <= m <= q`,
/// the squared distance to `p` is at least the closest point's.
pub proof fn lemma_segment_closest_is_nearest(s: Vec3, e: Vec3, p: Vec3, m: int, q: int)
    requires
        q > 0,
        0 <= m <= q,
    ensures
        ({
            let h = segment_closest(s, e, p);
            let other = homogeneous(vadd(scale(s, q), scale(vsub(e, s), m)), q);
            scaled_dist2(h, p) * (q * q) <= scaled_dist2(other, p) * (h.den * h.den)
        }),
{
    let d = vsub(e, s);
    let w = vsub(s, p);
    let l = norm2(d);
    let b = dot(w, d);
    let c = norm2(w);
    let h = segment_closest(s, e, p);
    lemma_shift(s, d, p, q, m);
    lemma_norm2_combination(w, d, q, m);
    let other_d2 = q * q * c + 2 * (q * m) * b + m * m * l;
    if l == 0 {
        lemma_norm2_positive(d);
        lemma_norm2_combination(w, d, 1, 0);
        assert(vsub(h.num, scale(p, 1)) == vadd(scale(w, 1), scale(d, 0)));
        assert(scaled_dist2(h, p) == c);
        assert(dot(w, d) == 0);
        assert(c * (q * q) <= other_d2 * (1 * 1)) by (nonlinear_arith)
            requires other_d2 == q * q * c + 2 * (q * m) * b + m * m * l, l == 0, b == 0;
    } else {
        lemma_norm2_positive(d);
        let k = clamp(dot(d, vsub(p, s)), 0, l);
        assert(dot(d, vsub(p, s)) == -b) by (nonlinear_arith)
            requires dot(d, vsub(p, s)) == d.x * (p.x - s.x) + d.y * (p.y - s.y) + d.z * (p.z - s.z),
                b == w.x * d.x + w.y * d.y + w.z * d.z, w == vsub(s, p);
        lemma_shift(s, d, p, l, k);
        lemma_norm2_combination(w, d, l, k);
        let own = l * l * c + 2 * (l * k) * b + k * k * l;
        assert(scaled_dist2(h, p) == own);
        let x = k * q;
        let y = m * l;
        assert(x == clamp(-(q * b), 0, l * q)) by (nonlinear_arith)
            requires k == clamp(-b, 0, l), x == k * q, q > 0;
        assert(0 <= y <= l * q) by (nonlinear_arith)
            requires y == m * l, 0 <= m <= q, l > 0;
        lemma_clamped_minimum(q * b, l, q, x, y);
        lemma_compare_scaled(l, c, b, k, q, m);
    }
}

/// No point of a ray is nearer to `p` than the point `closest_point` gives:
/// for every point `(o * q + dir * m) / q` with `m >= 0`, the squared
/// distance to `p` is at least the closest point's.
pub proof fn lemma_ray_closest_is_nearest(o: Vec3, dir: Vec3, p: Vec3, m: int, q: int)
    requires
        !is_zero(dir),
        q > 0,
        m >= 0,
    ensures
        ({
            let h = ray_closest(o, dir, p);
            let other = homogeneous(vadd(scale(o, q), scale(dir, m)), q);
            scaled_dist2(h, p) * (q * q) <= scaled_dist2(other, p) * (h.den * h.den)
        }),
{
    let w = vsub(o, p);
    let l = norm2(dir);
    let b = dot(w, dir);
    let c = norm2(w);
    let h = ray_closest(o, dir, p);
    lemma_norm2_positive(dir);
    lemma_shift(o, dir, p, q, m);
    lemma_norm2_combination(w, dir, q, m);
    let other_d2 = q * q * c + 2 * (q * m) * b + m * m * l;
    let t = dot(dir, vsub(p, o));
    assert(t == -b) by (nonlinear_arith)
        requires t == dir.x * (p.x - o.x) + dir.y * (p.y - o.y) + dir.z * (p.z - o.z),
            b == w.x * dir.x + w.y * dir.y + w.z * dir.z, w == vsub(o, p);
    if t <= 0 {
        lemma_norm2_combination(w, dir, 1, 0);
        assert(vsub(h.num, scale(p, 1)) == vadd(scale(w, 1), scale(dir, 0)));
        assert(c * (q * q) <= other_d2 * (1 * 1)) by (nonlinear_arith)
            requires other_d2 == q * q * c + 2 * (q * m) * b + m * m * l, b >= 0, q > 0, m >= 0, l
                > 0;
    } else {
        lemma_shift(o, dir, p, l, t);
        lemma_norm2_combination(w, dir, l, t);
        assert(t * q == -(q * b)) by (nonlinear_arith)
            requires t == -b;
        lemma_unclamped_minimum(q * b, t * q, m * l);
        lemma_compare_scaled(l, c, b, t, q, m);
    }
}

/// No point of a line is nearer to `p` than its projection: for every point
/// `(o * q + dir * m) / q`, the squared distance to `p` is at least the
/// projection's.
pub proof fn lemma_line_closest_is_nearest(o: Vec3, dir: Vec3, p: Vec3, m: int, q: int)
    requires
        !is_zero(dir),
        q > 0,
    ensures
        ({
            let h = line_closest(o, dir, p);
            let other = homogeneous(vadd(scale(o, q), scale(dir, m)), q);
            scaled_dist2(h, p) * (q * q) <= scaled_dist2(other, p) * (h.den * h.den)
        }),
{
    let w = vsub(o, p);
    let l = norm2(dir);
    let b = dot(w, dir);
    let c = norm2(w);
    lemma_norm2_positive(dir);
    lemma_shift(o, dir, p, q, m);
    lemma_norm2_combination(w, dir, q, m);
    let t = dot(dir, vsub(p, o));
    assert(t == -b) by (nonlinear_arith)
        requires t == dir.x * (p.x - o.x) + dir.y * (p.y - o.y) + dir.z * (p.z - o.z),
            b == w.x * dir.x + w.y * dir.y + w.z * dir.z, w == vsub(o, p);
    lemma_shift(o, dir, p, l, t);
    lemma_norm2_combination(w, dir, l, t);
    assert(t * q == -(q * b)) by (nonlinear_arith)
        requires t == -b;
    lemma_unclamped_minimum(q * b, t * q, m * l);
    lemma_compare_scaled(l, c, b, t, q, m);
}

/// No point of a plane is nearer to `p` than its projection: for every point
/// `x / q` of the plane (`normal · x == d q`), the squared distance to `p` is
/// at least the projection's.
pub proof fn lemma_plane_closest_is_nearest(pl: Plane, p: Vec3, x: Vec3, q: int)
    requires
        !is_zero(pl.normal@),
        q > 0,
        dot(pl.normal@, x) == pl.d * q,
    ensures
        ({
            let h = plane_closest(pl, p);
            let other = homogeneous(x, q);
            scaled_dist2(h, p) * (q * q) <= scaled_dist2(other, p) * (h.den * h.den)
        }),
{
    lemma_projection_is_nearest(pl.normal@, pl.d as int, p, x, q);
}

proof fn lemma_projection_is_nearest(n: Vec3, d: int, p: Vec3, x: Vec3, q: int)
    requires
        !is_zero(n),
        q > 0,
        dot(n, x) == d * q,
    ensures
        ({
            let nn = norm2(n);
            let h = homogeneous(vsub(scale(p, nn), scale(n, dot(n, p) - d)), nn);
            let other = homogeneous(x, q);
            scaled_dist2(h, p) * (q * q) <= scaled_dist2(other, p) * (h.den * h.den)
        }),
{
    let nn = norm2(n);
    let off = dot(n, p) - d;
    let h = homogeneous(vsub(scale(p, nn), scale(n, off)), nn);
    let v = vsub(x, scale(p, q));
    lemma_norm2_positive(n);
    // the projection is `off * |n|` away, scaled by `|n|²`
    assert(vsub(h.num, scale(p, nn)) == vadd(scale(p, 0), scale(n, -off))) by {
        assert(vsub(scale(p, nn), scale(n, off)).x - p.x * nn == 0 * p.x + n.x * (-off)) by (nonlinear_arith);
        assert(vsub(scale(p, nn), scale(n, off)).y - p.y * nn == 0 * p.y + n.y * (-off)) by (nonlinear_arith);
        assert(vsub(scale(p, nn), scale(n, off)).z - p.z * nn == 0 * p.z + n.z * (-off)) by (nonlinear_arith);
    }
    lemma_norm2_combination(p, n, 0, -off);
    let own = 0 * 0 * norm2(p) + 2 * (0 * -off) * dot(p, n) + (-off) * (-off) * nn;
    assert(own == off * off * nn) by (nonlinear_arith)
        requires own == 0 * 0 * norm2(p) + 2 * (0 * -off) * dot(p, n) + (-off) * (-off) * nn;
    // `n · v == -q off`, and Cauchy-Schwarz bounds it by `|n| |v|`
    assert(n.x * (x.x - p.x * q) == n.x * x.x - q * (n.x * p.x)) by (nonlinear_arith);
    assert(n.y * (x.y - p.y * q) == n.y * x.y - q * (n.y * p.y)) by (nonlinear_arith);
    assert(n.z * (x.z - p.z * q) == n.z * x.z - q * (n.z * p.z)) by (nonlinear_arith);
    assert(q * (n.x * p.x) + q * (n.y * p.y) + q * (n.z * p.z) == q * dot(n, p)) by (nonlinear_arith)
        requires dot(n, p) == n.x * p.x + n.y * p.y + n.z * p.z;
    assert(q * dot(n, p) - d * q == q * off) by (nonlinear_arith)
        requires off == dot(n, p) - d;
    assert(dot(n, v) == -(q * off));
    lemma_lagrange(n, v);
    let nv = dot(n, v);
    assert(nv * nv == q * q * (off * off)) by (nonlinear_arith)
        requires nv == -(q * off);
    assert(own * (q * q) <= norm2(v) * (nn * nn)) by (nonlinear_arith)
        requires own == off * off * nn, q * q * (off * off) <= nn * norm2(v), nn > 0;
}

/// When `p` projects inside a proper triangle, no point of the triangle's
/// plane, and so no point of the triangle, is nearer to `p` than the closest
/// point: for every `x / q` with `n · x == (n · a) q`, the squared distance
/// is at least the closest point's.
pub proof fn lemma_triangle_closest_is_nearest_inside(t: Triangle, p: Vec3, x: Vec3, q: int)
    requires
        !is_zero(triangle_normal(t)),
        inside(t, p, 1),
        q > 0,
        dot(triangle_normal(t), x) == dot(triangle_normal(t), t.a@) * q,
    ensures
        ({
            let h = triangle_closest(t, p);
            let other = homogeneous(x, q);
            scaled_dist2(h, p) * (q * q) <= scaled_dist2(other, p) * (h.den * h.den)
        }),
{
    let n = triangle_normal(t);
    let a = t.a@;
    assert(dot(n, vsub(p, a)) == dot(n, p) - dot(n, a)) by (nonlinear_arith)
        requires dot(n, vsub(p, a)) == n.x * (p.x - a.x) + n.y * (p.y - a.y) + n.z * (p.z - a.z),
            dot(n, p) == n.x * p.x + n.y * p.y + n.z * p.z, dot(n, a) == n.x * a.x + n.y * a.y + n.z
            * a.z;
    assert(dot(n, x) == dot(n, a) * q);
    lemma_projection_is_nearest(n, dot(n, a), p, x, q);
}

/// When `p` does not project inside the triangle, no point of the
/// triangle's boundary is nearer to `p` than the closest point: for every
/// point `(u q + (v - u) m) / q`, `0 <= m <= q`, of an edge from `u` to `v`,
/// the squared distance is at least the closest point's.
pub proof fn lemma_triangle_closest_is_nearest_on_edges(
    t: Triangle,
    p: Vec3,
    u: Vec3,
    v: Vec3,
    m: int,
    q: int,
)
    requires
        !(!is_zero(triangle_normal(t)) && inside(t, p, 1)),
        (u == t.a@ && v == t.b@) || (u == t.b@ && v == t.c@) || (u == t.c@ && v == t.a@),
        q > 0,
        0 <= m <= q,
    ensures
        ({
            let h = triangle_closest(t, p);
            let other = homogeneous(vadd(scale(u, q), scale(vsub(v, u), m)), q);
            scaled_dist2(h, p) * (q * q) <= scaled_dist2(other, p) * (h.den * h.den)
        }),
{
    let h = triangle_closest(t, p);
    let best = (scaled_dist2(h, p), h.den * h.den);
    let other = homogeneous(vadd(scale(u, q), scale(vsub(v, u), m)), q);
    let edge = segment_dist2(u, v, p);
    lemma_triangle_closest_is_nearest_edge(t, p);
    lemma_segment_dist2_is_closest(u, v, p);
    lemma_segment_closest_is_nearest(u, v, p, m, q);
    let so = scaled_dist2(other, p);
    let hs = segment_closest(u, v, p);
    // from `num den q² <= so den²` to `num / den <= so / q²`
    assert(edge.0 * (q * q) <= so * edge.1) by (nonlinear_arith)
        requires scaled_dist2(hs, p) == edge.0 * edge.1, hs.den == edge.1, edge.1 > 0,
            scaled_dist2(hs, p) * (q * q) <= so * (hs.den * hs.den);
    assert(h.den * h.den > 0) by (nonlinear_arith)
        requires h.den > 0;
    assert(q * q > 0) by (nonlinear_arith)
        requires q > 0;
    lemma_at_most_transitive(best, edge, (so, q * q));
}

} // verus!
