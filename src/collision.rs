use vstd::prelude::*;
use crate::closest_point::{homogeneous, Homogeneous, RationalPoint};
use crate::intersection::{
    crossing_den, crossing_num, crossing_point, lemma_dot_of_combination, triangle_meets_ray,
    triangle_meets_segment,
};
use crate::line_segment::LineSegment;
use crate::ray::Ray;
use crate::shape::Shape;
use crate::triangle::{inner_side, inside, triangle_normal, Triangle};
use crate::vector::{
    bounded, cross, dot, scale, vadd, vec3, vsub, wide_sub, widen, Vec3, Vector3, Wide3,
};

verus! {

/// Where two shapes touch.
#[derive(Clone, Copy, Debug, PartialEq, Eq, Structural)]
pub struct Contact {
    /// The point at which the shapes touch.
    pub point: RationalPoint,
    /// The surface normal there; not scaled to unit length.
    pub normal: Vector3,
    /// How deep the shapes overlap.
    pub overlap: i64,
}

/// A contact as mathematical values.
pub struct ContactView {
    pub point: Homogeneous,
    pub normal: Vec3,
    pub overlap: int,
}

impl View for Contact {
    type V = ContactView;

    open spec fn view(&self) -> ContactView {
        ContactView { point: self.point@, normal: self.normal@, overlap: self.overlap as int }
    }
}

impl Contact {
    pub fn new(point: RationalPoint, normal: Vector3, overlap: i64) -> (r: Contact)
        ensures
            r.point == point,
            r.normal == normal,
            r.overlap == overlap,
    {
        Contact { point, normal, overlap }
    }
}

/// Finds where two shapes touch.
pub trait Collision<Rhs: Shape>: Shape {
    /// The contact, if the shapes touch.
    spec fn spec_collides(&self, rhs: &Rhs) -> Option<ContactView>;

    /// Whether this shape touches the other, and where.
    fn collides(&self, rhs: &Rhs) -> (r: Option<Contact>)
        requires
            self.wf(),
            rhs.wf(),
        ensures
            match r {
                Some(c) => self.spec_collides(rhs) == Some(c@),
                None => self.spec_collides(rhs).is_none(),
            },
    ;
}

pub open spec fn negate(v: Vec3) -> Vec3 {
    vec3(-v.x, -v.y, -v.z)
}

/// The crossing point of the line `o + t * dir` with the triangle's plane,
/// with a positive denominator.
pub open spec fn crossing_at_point(t: Triangle, o: Vec3, dir: Vec3) -> Homogeneous {
    let den = crossing_den(t, dir);
    let p = crossing_point(o, dir, crossing_num(t, o), den);
    if den > 0 {
        homogeneous(p, den)
    } else {
        homogeneous(negate(p), -den)
    }
}

/// A crossing of a triangle: at the crossing point, with the triangle's
/// normal and no overlap.
pub open spec fn crossing_contact(t: Triangle, o: Vec3, dir: Vec3) -> ContactView {
    ContactView { point: crossing_at_point(t, o, dir), normal: triangle_normal(t), overlap: 0 }
}

fn crossing_contact_of(t: &Triangle, p: &Wide3, den: i128) -> (r: Contact)
    requires
        t.wf(),
        den != 0,
        -0x6_0000_0000_0000 <= den <= 0x6_0000_0000_0000,
        bounded(p@, 0x10_0000_0000_0000_0000),
    ensures
        r@ == (ContactView {
            point: if den > 0 {
                homogeneous(p@, den as int)
            } else {
                homogeneous(negate(p@), -den)
            },
            normal: triangle_normal(*t),
            overlap: 0,
        }),
{
    let point = if den > 0 {
        RationalPoint { x: p.x, y: p.y, z: p.z, w: den }
    } else {
        RationalPoint { x: -p.x, y: -p.y, z: -p.z, w: -den }
    };
    let normal = crate::plane::normal_through(&t.a, &t.b, &t.c);
    Contact::new(point, normal, 0)
}

impl Collision<Triangle> for Ray {
    open spec fn spec_collides(&self, rhs: &Triangle) -> Option<ContactView> {
        if triangle_meets_ray(*rhs, *self) {
            Some(crossing_contact(*rhs, self.origin@, self.direction@))
        } else {
            None
        }
    }

    fn collides(&self, rhs: &Triangle) -> (r: Option<Contact>) {
        match crate::intersection::triangle_crossing(rhs, &self.origin, &widen(&self.direction), false) {
            Some((p, den)) => Some(crossing_contact_of(rhs, &p, den)),
            None => None,
        }
    }
}

impl Collision<Triangle> for LineSegment {
    open spec fn spec_collides(&self, rhs: &Triangle) -> Option<ContactView> {
        if triangle_meets_segment(*rhs, *self) {
            Some(crossing_contact(*rhs, self.start@, vsub(self.end@, self.start@)))
        } else {
            None
        }
    }

    fn collides(&self, rhs: &Triangle) -> (r: Option<Contact>) {
        let dir = wide_sub(&self.end, &self.start);
        match crate::intersection::triangle_crossing(rhs, &self.start, &dir, true) {
            Some((p, den)) => Some(crossing_contact_of(rhs, &p, den)),
            None => None,
        }
    }
}

} // verus!

verus! {

/// The crossing point lies in the triangle's plane.
proof fn lemma_crossing_in_plane(t: Triangle, o: Vec3, dir: Vec3)
    ensures
        ({
            let den = crossing_den(t, dir);
            let p = crossing_point(o, dir, crossing_num(t, o), den);
            dot(triangle_normal(t), p) == dot(triangle_normal(t), t.a@) * den
        }),
{
    let n = triangle_normal(t);
    let den = crossing_den(t, dir);
    let num = crossing_num(t, o);
    lemma_dot_of_combination(n, o, dir, den, num);
    assert(num == dot(n, t.a@) - dot(n, o)) by (nonlinear_arith)
        requires num == dot(n, vsub(t.a@, o)), dot(n, vsub(t.a@, o)) == n.x * (t.a@.x - o.x) + n.y
            * (t.a@.y - o.y) + n.z * (t.a@.z - o.z), dot(n, t.a@) == n.x * t.a@.x + n.y * t.a@.y
            + n.z * t.a@.z, dot(n, o) == n.x * o.x + n.y * o.y + n.z * o.z;
    assert(den * dot(n, o) + num * den == dot(n, t.a@) * den) by (nonlinear_arith)
        requires num == dot(n, t.a@) - dot(n, o);
}

/// `(p, w)` and `(-p, -w)` name the same point, inside the triangle or not.
proof fn lemma_inside_negated(t: Triangle, p: Vec3, w: int)
    ensures
        inside(t, negate(p), -w) == inside(t, p, w),
{
    let n = triangle_normal(t);
    lemma_edge_side_negated(n, t.a@, t.b@, p, w);
    lemma_edge_side_negated(n, t.b@, t.c@, p, w);
    lemma_edge_side_negated(n, t.c@, t.a@, p, w);
}

proof fn lemma_edge_side_negated(n: Vec3, u: Vec3, v: Vec3, p: Vec3, w: int)
    ensures
        inner_side(n, u, v, negate(p), -w) == inner_side(n, u, v, p, w),
{
    let q = vsub(p, scale(u, w));
    let q2 = vsub(negate(p), scale(u, -w));
    assert(q2 == negate(q)) by {
        assert(-p.x - u.x * -w == -(p.x - u.x * w)) by (nonlinear_arith);
        assert(-p.y - u.y * -w == -(p.y - u.y * w)) by (nonlinear_arith);
        assert(-p.z - u.z * -w == -(p.z - u.z * w)) by (nonlinear_arith);
    }
    let e = vsub(v, u);
    let c = cross(e, q);
    let c2 = cross(e, q2);
    assert(c2 == negate(c)) by {
        assert(e.y * -q.z - e.z * -q.y == -(e.y * q.z - e.z * q.y)) by (nonlinear_arith);
        assert(e.z * -q.x - e.x * -q.z == -(e.z * q.x - e.x * q.z)) by (nonlinear_arith);
        assert(e.x * -q.y - e.y * -q.x == -(e.x * q.y - e.y * q.x)) by (nonlinear_arith);
    }
    let s = dot(n, c);
    let s2 = dot(n, c2);
    assert(s2 == -s) by (nonlinear_arith)
        requires c2 == negate(c), s == n.x * c.x + n.y * c.y + n.z * c.z, s2 == n.x * c2.x + n.y
            * c2.y + n.z * c2.z;
    assert(-w * s2 == w * s) by (nonlinear_arith)
        requires s2 == -s;
}

/// A contact between a ray and a triangle lies on both: on the ray, at
/// `origin + direction * k / w` with `k >= 0`, and in the triangle's plane,
/// inside the triangle or on its boundary. The overlap is never negative.
pub proof fn lemma_ray_triangle_contact_valid(r: Ray, t: Triangle)
    requires
        <Ray as Collision<Triangle>>::spec_collides(&r, &t).is_some(),
    ensures
        ({
            let c = <Ray as Collision<Triangle>>::spec_collides(&r, &t).unwrap();
            let w = c.point.den;
            &&& c.overlap >= 0
            &&& w > 0
            &&& dot(triangle_normal(t), c.point.num) == dot(triangle_normal(t), t.a@) * w
            &&& inside(t, c.point.num, w)
            &&& exists|k: int|
                k >= 0 && c.point.num == vadd(scale(r.origin@, w), scale(r.direction@, k))
        }),
{
    lemma_crossing_valid(t, r.origin@, r.direction@);
}

/// A contact between a segment and a triangle lies on both: on the segment,
/// at `start + (end - start) * k / w` with `0 <= k <= w`, and in the
/// triangle's plane, inside the triangle or on its boundary. The overlap is
/// never negative.
pub proof fn lemma_segment_triangle_contact_valid(l: LineSegment, t: Triangle)
    requires
        <LineSegment as Collision<Triangle>>::spec_collides(&l, &t).is_some(),
    ensures
        ({
            let c = <LineSegment as Collision<Triangle>>::spec_collides(&l, &t).unwrap();
            let w = c.point.den;
            &&& c.overlap >= 0
            &&& w > 0
            &&& dot(triangle_normal(t), c.point.num) == dot(triangle_normal(t), t.a@) * w
            &&& inside(t, c.point.num, w)
            &&& exists|k: int|
                0 <= k <= w && c.point.num == vadd(
                    scale(l.start@, w),
                    scale(vsub(l.end@, l.start@), k),
                )
        }),
{
    let dir = vsub(l.end@, l.start@);
    lemma_crossing_valid(t, l.start@, dir);
    let den = crossing_den(t, dir);
    let num = crossing_num(t, l.start@);
    if den > 0 {
        assert(num <= den) by (nonlinear_arith)
            requires num * den <= den * den, den > 0;
    } else {
        assert(-num <= -den) by (nonlinear_arith)
            requires num * den <= den * den, den < 0;
    }
}

/// The crossing of `o + t * dir` with a triangle that it meets, as a contact
/// with a positive denominator, lies in the plane, inside the triangle, and
/// at parameter `k / w` for `k` of the sign of the parameter.
proof fn lemma_crossing_valid(t: Triangle, o: Vec3, dir: Vec3)
    requires
        crossing_den(t, dir) != 0,
        crossing_num(t, o) * crossing_den(t, dir) >= 0,
        inside(t, crossing_point(o, dir, crossing_num(t, o), crossing_den(t, dir)), crossing_den(t, dir)),
    ensures
        ({
            let den = crossing_den(t, dir);
            let num = crossing_num(t, o);
            let h = crossing_at_point(t, o, dir);
            let k = if den > 0 { num } else { -num };
            &&& h.den > 0
            &&& dot(triangle_normal(t), h.num) == dot(triangle_normal(t), t.a@) * h.den
            &&& inside(t, h.num, h.den)
            &&& k >= 0
            &&& h.num == vadd(scale(o, h.den), scale(dir, k))
        }),
{
    let den = crossing_den(t, dir);
    let num = crossing_num(t, o);
    let p = crossing_point(o, dir, num, den);
    let n = triangle_normal(t);
    lemma_crossing_in_plane(t, o, dir);
    if den < 0 {
        lemma_inside_negated(t, p, den);
        assert(num <= 0) by (nonlinear_arith)
            requires num * den >= 0, den < 0;
        assert(dot(n, negate(p)) == -dot(n, p)) by (nonlinear_arith)
            requires dot(n, negate(p)) == n.x * -p.x + n.y * -p.y + n.z * -p.z, dot(n, p) == n.x
                * p.x + n.y * p.y + n.z * p.z;
        assert(-(dot(n, t.a@) * den) == dot(n, t.a@) * -den) by (nonlinear_arith);
        assert(negate(p) == vadd(scale(o, -den), scale(dir, -num))) by {
            assert(-(o.x * den + dir.x * num) == o.x * -den + dir.x * -num) by (nonlinear_arith);
            assert(-(o.y * den + dir.y * num) == o.y * -den + dir.y * -num) by (nonlinear_arith);
            assert(-(o.z * den + dir.z * num) == o.z * -den + dir.z * -num) by (nonlinear_arith);
        }
    } else {
        assert(num >= 0) by (nonlinear_arith)
            requires num * den >= 0, den > 0;
    }
}

} // verus!
