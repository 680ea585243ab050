use vstd::prelude::*;
use crate::plane::{normal_of, normal_through, Plane};
use crate::shape::Shape;
use crate::vector::{
    bounded, cross, dot, is_zero, lemma_mul_bound, scale, vsub, wide_cross, wide_dot, wide_minus,
    wide_scale, wide_sub, widen, norm2, Point, Vec3, Wide3, DIRECTION_LIMIT, NORMAL_LIMIT,
};

verus! {

/// A triangle with vertices `a`, `b`, `c`.
///
/// Its normal is `(c - a) × (b - a)`, the normal that `Plane::from_points`
/// gives for the same three points.
#[derive(Clone, Copy, Debug, PartialEq, Eq, Structural)]
pub struct Triangle {
    pub a: Point,
    pub b: Point,
    pub c: Point,
}

impl Shape for Triangle {
    open spec fn wf(&self) -> bool {
        self.a.wf() && self.b.wf() && self.c.wf()
    }
}

/// The triangle's normal, `(c - a) × (b - a)`.
pub open spec fn triangle_normal(t: Triangle) -> Vec3 {
    normal_of(t.a@, t.b@, t.c@)
}

/// For the point `p / w`: `w * (n · ((v - u) × (p / w - u)))`, whose sign
/// tells on which side of the edge from `u` to `v` the point lies.
pub open spec fn edge_side(n: Vec3, u: Vec3, v: Vec3, p: Vec3, w: int) -> int {
    dot(n, cross(vsub(v, u), vsub(p, scale(u, w))))
}

/// The point `p / w` (`w != 0`) lies on the inner side of the edge from `u`
/// to `v`, or on it.
pub open spec fn inner_side(n: Vec3, u: Vec3, v: Vec3, p: Vec3, w: int) -> bool {
    w * edge_side(n, u, v, p, w) <= 0
}

/// The point `p / w` (`w != 0`), taken in the triangle's plane, lies inside
/// the triangle or on its boundary: on the inner side of all three edges.
pub open spec fn inside(t: Triangle, p: Vec3, w: int) -> bool {
    let n = triangle_normal(t);
    inner_side(n, t.a@, t.b@, p, w) && inner_side(n, t.b@, t.c@, p, w) && inner_side(
        n,
        t.c@,
        t.a@,
        p,
        w,
    )
}

proof fn lemma_sign_of_product(w: int, s: int)
    requires
        w != 0,
    ensures
        (w * s <= 0) == (if w > 0 { s <= 0 } else { s >= 0 }),
{
    if w > 0 {
        if s > 0 {
            assert(w * s > 0) by (nonlinear_arith)
                requires w > 0, s > 0;
        } else {
            assert(w * s <= 0) by (nonlinear_arith)
                requires w > 0, s <= 0;
        }
    } else {
        if s < 0 {
            assert(w * s > 0) by (nonlinear_arith)
                requires w < 0, s < 0;
        } else {
            assert(w * s <= 0) by (nonlinear_arith)
                requires w < 0, s >= 0;
        }
    }
}

/// Whether `p / w` lies on the inner side of the edge from `u` to `v`.
fn on_inner_side(n: &Wide3, u: &Point, v: &Point, p: &Wide3, w: i128) -> (r: bool)
    requires
        bounded(n@, NORMAL_LIMIT as int),
        u.wf(),
        v.wf(),
        bounded(p@, 0x10_0000_0000_0000_0000),
        -0x8_0000_0000_0000 <= w <= 0x8_0000_0000_0000,
        w != 0,
    ensures
        r == inner_side(n@, u@, v@, p@, w as int),
{
    let uw = Wide3 { x: u.x as i128, y: u.y as i128, z: u.z as i128 };
    let su = wide_scale(&uw, w, Ghost(0x8000), Ghost(0x8_0000_0000_0000));
    proof {
        lemma_mul_bound(uw.x as int, w as int, 0x8000, 0x8_0000_0000_0000);
        lemma_mul_bound(uw.y as int, w as int, 0x8000, 0x8_0000_0000_0000);
        lemma_mul_bound(uw.z as int, w as int, 0x8000, 0x8_0000_0000_0000);
    }
    let q = wide_minus(p, &su, Ghost(0x10_0000_0000_0000_0000));
    let e = wide_sub(v, u);
    let cr = wide_cross(&e, &q, Ghost(0x1_0000), Ghost(0x20_0000_0000_0000_0000));
    let s = wide_dot(n, &cr, Ghost(NORMAL_LIMIT as int), Ghost(0x40_0000_0000_0000_0000_0000));
    proof {
        lemma_sign_of_product(w as int, s as int);
    }
    if w > 0 {
        s <= 0
    } else {
        s >= 0
    }
}

/// Barycentric coordinates `(u / den, v / den, w / den)`, `den > 0`.
#[derive(Clone, Copy, Debug, PartialEq, Eq, Structural)]
pub struct Barycentric {
    pub u: i128,
    pub v: i128,
    pub w: i128,
    pub den: i128,
}

/// `|b - a|² |c - a|² - ((b - a) · (c - a))²`: the denominator of the
/// barycentric coordinates, zero exactly for a degenerate triangle.
pub open spec fn barycentric_den(t: Triangle) -> int {
    let e0 = vsub(t.b@, t.a@);
    let e1 = vsub(t.c@, t.a@);
    norm2(e0) * norm2(e1) - dot(e0, e1) * dot(e0, e1)
}

/// The numerator of the weight of `b` for the point `p`.
pub open spec fn barycentric_v(t: Triangle, p: Vec3) -> int {
    let e0 = vsub(t.b@, t.a@);
    let e1 = vsub(t.c@, t.a@);
    let e2 = vsub(p, t.a@);
    norm2(e1) * dot(e2, e0) - dot(e0, e1) * dot(e2, e1)
}

/// The numerator of the weight of `c` for the point `p`.
pub open spec fn barycentric_w(t: Triangle, p: Vec3) -> int {
    let e0 = vsub(t.b@, t.a@);
    let e1 = vsub(t.c@, t.a@);
    let e2 = vsub(p, t.a@);
    norm2(e0) * dot(e2, e1) - dot(e0, e1) * dot(e2, e0)
}

impl Triangle {
    /// The triangle with vertices `a`, `b`, `c`.
    pub fn new(a: Point, b: Point, c: Point) -> (r: Triangle)
        ensures
            r.a == a,
            r.b == b,
            r.c == c,
    {
        Triangle { a, b, c }
    }

    /// The triangle's normal, `(c - a) × (b - a)`.
    pub fn normal(&self) -> (r: Wide3)
        requires
            self.wf(),
        ensures
            r@ == triangle_normal(*self),
            bounded(r@, NORMAL_LIMIT as int),
    {
        widen(&normal_through(&self.a, &self.b, &self.c))
    }

    /// The plane through the three vertices, or `None` when they are
    /// collinear.
    pub fn plane(&self) -> (r: Option<Plane>)
        requires
            self.wf(),
        ensures
            is_zero(triangle_normal(*self)) <==> r.is_none(),
            r matches Some(pl) ==> pl.wf() && pl.normal@ == triangle_normal(*self) && pl.d == dot(
                pl.normal@,
                self.a@,
            ),
    {
        Plane::from_points(self.a, self.b, self.c)
    }

    /// Whether the point `p / w` lies inside the triangle or on its boundary,
    /// taken in the triangle's plane.
    pub(crate) fn inside_rational(&self, n: &Wide3, p: &Wide3, w: i128) -> (r: bool)
        requires
            self.wf(),
            n@ == triangle_normal(*self),
            bounded(n@, NORMAL_LIMIT as int),
            bounded(p@, 0x10_0000_0000_0000_0000),
            -0x8_0000_0000_0000 <= w <= 0x8_0000_0000_0000,
            w != 0,
        ensures
            r == inside(*self, p@, w as int),
    {
        on_inner_side(n, &self.a, &self.b, p, w) && on_inner_side(n, &self.b, &self.c, p, w)
            && on_inner_side(n, &self.c, &self.a, p, w)
    }

    /// Whether a point of the triangle's plane lies inside the triangle or on
    /// its boundary, by the side of each edge it lies on. A point off the
    /// plane is judged by its projection on the plane.
    pub fn coplanar_point_inside(&self, p: Point) -> (r: bool)
        requires
            self.wf(),
            p.wf(),
        ensures
            r == inside(*self, p@, 1),
    {
        let n = self.normal();
        let pw = Wide3 { x: p.x as i128, y: p.y as i128, z: p.z as i128 };
        self.inside_rational(&n, &pw, 1)
    }

    /// The barycentric coordinates of the projection of `p` on the
    /// triangle's plane, the weights of `a`, `b` and `c` summing to one; `None`
    /// for a degenerate triangle.
    pub fn barycentric_coordinates(&self, p: Point) -> (r: Option<Barycentric>)
        requires
            self.wf(),
            p.wf(),
        ensures
            r.is_none() <==> barycentric_den(*self) == 0,
            r matches Some(bc) ==> bc.den == barycentric_den(*self) && bc.den > 0 && bc.v
                == barycentric_v(*self, p@) && bc.w == barycentric_w(*self, p@) && bc.u + bc.v + bc.w
                == bc.den,
    {
        let m = DIRECTION_LIMIT as i128;
        let e0 = wide_sub(&self.b, &self.a);
        let e1 = wide_sub(&self.c, &self.a);
        let e2 = wide_sub(&p, &self.a);
        let d00 = wide_dot(&e0, &e0, Ghost(m as int), Ghost(m as int));
        let d01 = wide_dot(&e0, &e1, Ghost(m as int), Ghost(m as int));
        let d11 = wide_dot(&e1, &e1, Ghost(m as int), Ghost(m as int));
        let d20 = wide_dot(&e2, &e0, Ghost(m as int), Ghost(m as int));
        let d21 = wide_dot(&e2, &e1, Ghost(m as int), Ghost(m as int));
        proof {
            let mm = 0x3_0000_0000int;
            lemma_mul_bound(d00 as int, d11 as int, mm, mm);
            lemma_mul_bound(d01 as int, d01 as int, mm, mm);
            lemma_mul_bound(d11 as int, d20 as int, mm, mm);
            lemma_mul_bound(d01 as int, d21 as int, mm, mm);
            lemma_mul_bound(d00 as int, d21 as int, mm, mm);
            lemma_mul_bound(d01 as int, d20 as int, mm, mm);
        }
        let den = d00 * d11 - d01 * d01;
        if den <= 0 {
            proof {
                crate::closest_point::lemma_lagrange(e0@, e1@);
            }
            return None;
        }
        let v = d11 * d20 - d01 * d21;
        let w = d00 * d21 - d01 * d20;
        Some(Barycentric { u: den - v - w, v, w, den })
    }
}

} // verus!
