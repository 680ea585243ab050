use vstd::prelude::*;
use crate::closest_point::{
    at_most, homogeneous, lattice, lemma_lagrange, lemma_norm2_positive,
    lemma_segment_dist2_is_closest, line_closest, rational, along, ray_closest, scaled_dist2,
    segment_closest, segment_closest_to, segment_dist2, segment_dist2_of, ClosestPoint,
    Homogeneous, RationalPoint,
};
use crate::line::Line;
use crate::line_segment::LineSegment;
use crate::shape::Shape;
use crate::ray::Ray;
use crate::vector::{
    cross, dot, is_zero, lemma_mul_bound, norm2, scale, vadd, vsub, wide_cross, wide_dot,
    wide_sub, widen, Point, Vec3, Vector3, DIRECTION_LIMIT,
};

verus! {

/// The range of a straight piece's parameter: all of it for a line, from
/// zero on for a ray, from zero to one for a segment.
#[derive(Clone, Copy, Debug, PartialEq, Eq, Structural)]
pub enum Extent {
    Whole,
    FromZero,
    ZeroToOne,
}

/// A line, ray or segment: the points `start + dir * t` for `t` in
/// `extent`. A segment also keeps its end point, and its `dir` may be zero;
/// the `dir` of a line or a ray never is.
#[derive(Clone, Copy, Debug, PartialEq, Eq, Structural)]
pub struct Piece {
    pub start: Point,
    pub end: Point,
    pub dir: Vector3,
    pub extent: Extent,
}

impl Piece {
    pub open spec fn wf(&self) -> bool {
        &&& self.start.wf()
        &&& self.end.wf()
        &&& self.dir.wf()
        &&& self.extent == Extent::ZeroToOne ==> self.dir@ == vsub(self.end@, self.start@)
        &&& self.extent != Extent::ZeroToOne ==> !is_zero(self.dir@)
    }
}

/// The squared distance from `q` to the line through `s` along `d`, as
/// `(|d|² |s - q|² - (d · (q - s))², |d|²)`: Lagrange's form of
/// `|d × (q - s)|² / |d|²`.
pub open spec fn line_dist2_parts(s: Vec3, d: Vec3, q: Vec3) -> (int, int) {
    let t = dot(d, vsub(q, s));
    (norm2(d) * norm2(vsub(s, q)) - t * t, norm2(d))
}

/// The squared distance from `q` to the ray from `s` along `d`: to the
/// origin when `q` lies behind it, else to the carrier line.
pub open spec fn ray_dist2_parts(s: Vec3, d: Vec3, q: Vec3) -> (int, int) {
    if dot(d, vsub(q, s)) <= 0 {
        (norm2(vsub(s, q)), 1)
    } else {
        line_dist2_parts(s, d, q)
    }
}

/// The squared distance from `q` to the piece, as a fraction.
pub open spec fn piece_dist2(pc: Piece, q: Vec3) -> (int, int) {
    match pc.extent {
        Extent::Whole => line_dist2_parts(pc.start@, pc.dir@, q),
        Extent::FromZero => ray_dist2_parts(pc.start@, pc.dir@, q),
        Extent::ZeroToOne => segment_dist2(pc.start@, pc.end@, q),
    }
}

/// The point of the piece nearest to `q`.
pub open spec fn piece_closest(pc: Piece, q: Vec3) -> Homogeneous {
    match pc.extent {
        Extent::Whole => line_closest(pc.start@, pc.dir@, q),
        Extent::FromZero => ray_closest(pc.start@, pc.dir@, q),
        Extent::ZeroToOne => segment_closest(pc.start@, pc.end@, q),
    }
}

/// A point of the first piece, and its squared distance from the second.
pub struct Candidate {
    pub dist2: (int, int),
    pub point: Homogeneous,
}

/// The nearer of the best candidate so far and `c`; the earlier wins ties.
pub open spec fn prefer(best: Option<Candidate>, c: Candidate) -> Option<Candidate> {
    match best {
        None => Some(c),
        Some(b) => if at_most(b.dist2, c.dist2) {
            Some(b)
        } else {
            Some(c)
        },
    }
}

/// The best of the pairs in which one piece is at an end point: each end of
/// `a` with its distance from `b`, then each end of `b` with `a`'s point
/// nearest to it.
pub open spec fn nearest_at_ends(a: Piece, b: Piece) -> Option<Candidate> {
    let c0 = if a.extent != Extent::Whole {
        Some(Candidate { dist2: piece_dist2(b, a.start@), point: homogeneous(a.start@, 1) })
    } else {
        None
    };
    let c1 = if a.extent == Extent::ZeroToOne {
        prefer(c0, Candidate { dist2: piece_dist2(b, a.end@), point: homogeneous(a.end@, 1) })
    } else {
        c0
    };
    let c2 = if b.extent != Extent::Whole {
        prefer(c1, Candidate { dist2: piece_dist2(a, b.start@), point: piece_closest(a, b.start@) })
    } else {
        c1
    };
    if b.extent == Extent::ZeroToOne {
        prefer(c2, Candidate { dist2: piece_dist2(a, b.end@), point: piece_closest(a, b.end@) })
    } else {
        c2
    }
}

/// Whether `num / den` (`den > 0`) is a parameter of the extent.
pub open spec fn in_extent(x: Extent, num: int, den: int) -> bool {
    match x {
        Extent::Whole => true,
        Extent::FromZero => num >= 0,
        Extent::ZeroToOne => 0 <= num <= den,
    }
}

/// `|u|² |v|² - (u · v)²` for the two directions: zero exactly when they
/// are parallel.
pub open spec fn pair_den(a: Piece, b: Piece) -> int {
    norm2(a.dir@) * norm2(b.dir@) - dot(a.dir@, b.dir@) * dot(a.dir@, b.dir@)
}

/// The parameter along `a` of the carriers' nearest points, times
/// `pair_den`.
pub open spec fn pair_s(a: Piece, b: Piece) -> int {
    let w = vsub(a.start@, b.start@);
    dot(a.dir@, b.dir@) * dot(b.dir@, w) - norm2(b.dir@) * dot(a.dir@, w)
}

/// The parameter along `b` of the carriers' nearest points, times
/// `pair_den`.
pub open spec fn pair_t(a: Piece, b: Piece) -> int {
    let w = vsub(a.start@, b.start@);
    norm2(a.dir@) * dot(b.dir@, w) - dot(a.dir@, b.dir@) * dot(a.dir@, w)
}

/// The carriers are not parallel and their nearest points lie on both
/// pieces.
pub open spec fn meet_inside(a: Piece, b: Piece) -> bool {
    pair_den(a, b) != 0 && in_extent(a.extent, pair_s(a, b), pair_den(a, b)) && in_extent(
        b.extent,
        pair_t(a, b),
        pair_den(a, b),
    )
}

/// The point of `a` nearest to `b`. When the carriers' nearest points lie on
/// both pieces it is `a`'s; otherwise one of the two pieces is at an end
/// point at the nearest pair, and the best such pair gives it. (Two lines,
/// which have no end points, are left to `line_line_closest`.)
pub open spec fn pair_closest(a: Piece, b: Piece) -> Homogeneous {
    if meet_inside(a, b) {
        homogeneous(vadd(scale(a.start@, pair_den(a, b)), scale(a.dir@, pair_s(a, b))), pair_den(a, b))
    } else {
        match nearest_at_ends(a, b) {
            Some(c) => c.point,
            None => homogeneous(a.start@, 1),
        }
    }
}

/// The squared distance between the pieces, in the same cases: the
/// carriers' distance `(w · (u × v))² / |u × v|²`, or that of the best pair
/// at an end point.
pub open spec fn pair_dist2(a: Piece, b: Piece) -> (int, int) {
    if meet_inside(a, b) {
        let n = cross(a.dir@, b.dir@);
        let w = vsub(a.start@, b.start@);
        (dot(w, n) * dot(w, n), norm2(n))
    } else {
        match nearest_at_ends(a, b) {
            Some(c) => c.dist2,
            None => (0, 1),
        }
    }
}

/// A candidate as exact values: the fraction and the point.
pub open spec fn candidate_of(c: ((i128, i128), RationalPoint)) -> Candidate {
    Candidate { dist2: (c.0.0 as int, c.0.1 as int), point: c.1@ }
}

pub open spec fn candidates_of(c: Option<((i128, i128), RationalPoint)>) -> Option<Candidate> {
    match c {
        None => None,
        Some(x) => Some(candidate_of(x)),
    }
}

/// A fraction with the bounds of `piece_dist2`.
pub open spec fn small_fraction(f: (i128, i128)) -> bool {
    0 <= f.0 <= 0x40_0000_0000_0000_0000 && 0 < f.1 <= 0x3_0000_0000
}

/// A candidate with a small fraction and a positive denominator.
pub open spec fn good_candidate(c: ((i128, i128), RationalPoint)) -> bool {
    small_fraction(c.0) && c.1.w > 0
}

/// `(|d|² |w|² - t², |d|²)` for `t = d · (q - s)`, `w = s - q`: never
/// negative.
proof fn lemma_line_dist2_parts_nonneg(s: Vec3, d: Vec3, q: Vec3)
    ensures
        line_dist2_parts(s, d, q).0 >= 0,
{
    let w = vsub(s, q);
    let t = dot(d, vsub(q, s));
    lemma_lagrange(d, w);
    assert(t * t == dot(d, w) * dot(d, w)) by (nonlinear_arith)
        requires t == d.x * (q.x - s.x) + d.y * (q.y - s.y) + d.z * (q.z - s.z), dot(d, w) == d.x
            * w.x + d.y * w.y + d.z * w.z, w == vsub(s, q);
}

/// The squared distance from `q` to the piece.
pub(crate) fn piece_dist2_of(pc: &Piece, q: &Point) -> (r: (i128, i128))
    requires
        pc.wf(),
        q.wf(),
    ensures
        (r.0 as int, r.1 as int) == piece_dist2(*pc, q@),
        small_fraction(r),
{
    let m = DIRECTION_LIMIT as i128;
    if pc.extent == Extent::ZeroToOne {
        let r = segment_dist2_of(&pc.start, &pc.end, q);
        proof {
            lemma_segment_dist2_is_closest(pc.start@, pc.end@, q@);
            let h = segment_closest(pc.start@, pc.end@, q@);
            lemma_norm2_positive(vsub(h.num, scale(q@, h.den)));
            assert(r.0 >= 0) by (nonlinear_arith)
                requires scaled_dist2(h, q@) == r.0 * r.1, r.1 > 0, scaled_dist2(h, q@) >= 0;
        }
        return r;
    }
    let d = widen(&pc.dir);
    let w = wide_sub(&pc.start, q);
    let t = wide_dot(&d, &wide_sub(q, &pc.start), Ghost(m as int), Ghost(m as int));
    let ww = wide_dot(&w, &w, Ghost(m as int), Ghost(m as int));
    proof {
        lemma_norm2_positive(w@);
        lemma_norm2_positive(d@);
    }
    if pc.extent == Extent::FromZero && t <= 0 {
        return (ww, 1);
    }
    let l = wide_dot(&d, &d, Ghost(m as int), Ghost(m as int));
    proof {
        let mm = 0x3_0000_0000int;
        lemma_mul_bound(l as int, ww as int, mm, mm);
        lemma_mul_bound(t as int, t as int, mm, mm);
        lemma_line_dist2_parts_nonneg(pc.start@, pc.dir@, q@);
        assert(t * t >= 0) by (nonlinear_arith);
    }
    (l * ww - t * t, l)
}

/// The point of the piece nearest to `q`.
pub(crate) fn piece_closest_of(pc: &Piece, q: &Point) -> (r: RationalPoint)
    requires
        pc.wf(),
        q.wf(),
    ensures
        r@ == piece_closest(*pc, q@),
        r.w > 0,
{
    match pc.extent {
        Extent::Whole => Line { point: pc.start, direction: pc.dir }.closest_point(q),
        Extent::FromZero => Ray { origin: pc.start, direction: pc.dir }.closest_point(q),
        Extent::ZeroToOne => segment_closest_to(&pc.start, &pc.end, q),
    }
}

fn prefer_of(best: Option<((i128, i128), RationalPoint)>, c: ((i128, i128), RationalPoint)) -> (r:
    Option<((i128, i128), RationalPoint)>)
    requires
        best matches Some(b) ==> good_candidate(b),
        good_candidate(c),
    ensures
        candidates_of(r) == prefer(candidates_of(best), candidate_of(c)),
        r matches Some(b) && good_candidate(b),
{
    match best {
        None => Some(c),
        Some(b) => {
            proof {
                lemma_mul_bound(b.0.0 as int, c.0.1 as int, 0x40_0000_0000_0000_0000, 0x3_0000_0000);
                lemma_mul_bound(c.0.0 as int, b.0.1 as int, 0x40_0000_0000_0000_0000, 0x3_0000_0000);
            }
            if b.0.0 * c.0.1 <= c.0.0 * b.0.1 {
                Some(b)
            } else {
                Some(c)
            }
        },
    }
}

/// The best pair at an end point, as in `nearest_at_ends`.
fn nearest_at_ends_of(a: &Piece, b: &Piece) -> (r: Option<((i128, i128), RationalPoint)>)
    requires
        a.wf(),
        b.wf(),
    ensures
        candidates_of(r) == nearest_at_ends(*a, *b),
        r matches Some(c) ==> good_candidate(c),
        (a.extent != Extent::Whole || b.extent != Extent::Whole) ==> r.is_some(),
{
    let c0 = if a.extent != Extent::Whole {
        Some((piece_dist2_of(b, &a.start), lattice(&a.start)))
    } else {
        None
    };
    let c1 = if a.extent == Extent::ZeroToOne {
        prefer_of(c0, (piece_dist2_of(b, &a.end), lattice(&a.end)))
    } else {
        c0
    };
    let c2 = if b.extent != Extent::Whole {
        prefer_of(c1, (piece_dist2_of(a, &b.start), piece_closest_of(a, &b.start)))
    } else {
        c1
    };
    if b.extent == Extent::ZeroToOne {
        prefer_of(c2, (piece_dist2_of(a, &b.end), piece_closest_of(a, &b.end)))
    } else {
        c2
    }
}

/// `(pair_den, pair_s, pair_t)`.
fn pair_terms(a: &Piece, b: &Piece) -> (r: (i128, i128, i128))
    requires
        a.wf(),
        b.wf(),
    ensures
        r.0 == pair_den(*a, *b),
        r.1 == pair_s(*a, *b),
        r.2 == pair_t(*a, *b),
        0 <= r.0 <= 0x12_0000_0000_0000_0000,
        -0x12_0000_0000_0000_0000 <= r.1 <= 0x12_0000_0000_0000_0000,
        -0x12_0000_0000_0000_0000 <= r.2 <= 0x12_0000_0000_0000_0000,
{
    let m = DIRECTION_LIMIT as i128;
    let u = widen(&a.dir);
    let v = widen(&b.dir);
    let w = wide_sub(&a.start, &b.start);
    let aa = wide_dot(&u, &u, Ghost(m as int), Ghost(m as int));
    let bb = wide_dot(&u, &v, Ghost(m as int), Ghost(m as int));
    let cc = wide_dot(&v, &v, Ghost(m as int), Ghost(m as int));
    let dd = wide_dot(&u, &w, Ghost(m as int), Ghost(m as int));
    let ee = wide_dot(&v, &w, Ghost(m as int), Ghost(m as int));
    proof {
        let mm = 0x3_0000_0000int;
        lemma_mul_bound(aa as int, cc as int, mm, mm);
        lemma_mul_bound(bb as int, bb as int, mm, mm);
        lemma_mul_bound(bb as int, ee as int, mm, mm);
        lemma_mul_bound(cc as int, dd as int, mm, mm);
        lemma_mul_bound(aa as int, ee as int, mm, mm);
        lemma_mul_bound(bb as int, dd as int, mm, mm);
        lemma_lagrange(u@, v@);
        lemma_norm2_positive(u@);
        lemma_norm2_positive(v@);
        assert(bb * bb >= 0) by (nonlinear_arith);
        assert(aa * cc >= 0) by (nonlinear_arith)
            requires aa >= 0, cc >= 0;
    }
    (aa * cc - bb * bb, bb * ee - cc * dd, aa * ee - bb * dd)
}

fn in_extent_of(x: Extent, num: i128, den: i128) -> (r: bool)
    ensures
        r == in_extent(x, num as int, den as int),
{
    match x {
        Extent::Whole => true,
        Extent::FromZero => num >= 0,
        Extent::ZeroToOne => 0 <= num && num <= den,
    }
}

/// The point of `a` nearest to `b`, for two pieces not both lines.
pub(crate) fn pair_closest_of(a: &Piece, b: &Piece) -> (r: RationalPoint)
    requires
        a.wf(),
        b.wf(),
        a.extent != Extent::Whole || b.extent != Extent::Whole,
    ensures
        r@ == pair_closest(*a, *b),
        r.w > 0,
{
    let (den, s, t) = pair_terms(a, b);
    if den != 0 && in_extent_of(a.extent, s, den) && in_extent_of(b.extent, t, den) {
        let q = along(
            &a.start,
            &widen(&a.dir),
            s,
            den,
            Ghost(0x12_0000_0000_0000_0000),
            Ghost(0x12_0000_0000_0000_0000),
        );
        return rational(&q, den);
    }
    let c = nearest_at_ends_of(a, b);
    match c {
        Some(c) => c.1,
        None => lattice(&a.start),
    }
}

/// The squared distance between two pieces, not both lines.
pub(crate) fn pair_dist2_of(a: &Piece, b: &Piece) -> (r: (i128, i128))
    requires
        a.wf(),
        b.wf(),
        a.extent != Extent::Whole || b.extent != Extent::Whole,
    ensures
        (r.0 as int, r.1 as int) == pair_dist2(*a, *b),
        r.0 >= 0,
        r.1 > 0,
{
    let (den, s, t) = pair_terms(a, b);
    if den != 0 && in_extent_of(a.extent, s, den) && in_extent_of(b.extent, t, den) {
        let u = widen(&a.dir);
        let v = widen(&b.dir);
        let n = wide_cross(&u, &v, Ghost(DIRECTION_LIMIT as int), Ghost(DIRECTION_LIMIT as int));
        let w = wide_sub(&a.start, &b.start);
        let h = wide_dot(&w, &n, Ghost(DIRECTION_LIMIT as int), Ghost(0x2_0000_0000));
        let nn = wide_dot(&n, &n, Ghost(0x2_0000_0000), Ghost(0x2_0000_0000));
        proof {
            lemma_mul_bound(h as int, h as int, 0x6_0000_0000_0000, 0x6_0000_0000_0000);
            lemma_lagrange(u@, v@);
            assert(h * h >= 0) by (nonlinear_arith);
        }
        return (h * h, nn);
    }
    match nearest_at_ends_of(a, b) {
        Some(c) => c.0,
        None => (0, 1),
    }
}

/// A ray as a piece.
pub open spec fn ray_piece(r: Ray) -> Piece {
    Piece { start: r.origin, end: r.origin, dir: r.direction, extent: Extent::FromZero }
}

/// A line as a piece.
pub open spec fn line_piece(l: Line) -> Piece {
    Piece { start: l.point, end: l.point, dir: l.direction, extent: Extent::Whole }
}

/// A segment as a piece.
pub open spec fn segment_piece(l: LineSegment) -> Piece {
    Piece {
        start: l.start,
        end: l.end,
        dir: Vector3 {
            x: (l.end.x - l.start.x) as i64,
            y: (l.end.y - l.start.y) as i64,
            z: (l.end.z - l.start.z) as i64,
        },
        extent: Extent::ZeroToOne,
    }
}

pub(crate) fn ray_piece_of(r: &Ray) -> (p: Piece)
    requires
        r.wf(),
    ensures
        p == ray_piece(*r),
        p.wf(),
{
    Piece { start: r.origin, end: r.origin, dir: r.direction, extent: Extent::FromZero }
}

pub(crate) fn line_piece_of(l: &Line) -> (p: Piece)
    requires
        l.wf(),
    ensures
        p == line_piece(*l),
        p.wf(),
{
    Piece { start: l.point, end: l.point, dir: l.direction, extent: Extent::Whole }
}

pub(crate) fn segment_piece_of(l: &LineSegment) -> (p: Piece)
    requires
        l.wf(),
    ensures
        p == segment_piece(*l),
        p.wf(),
{
    Piece {
        start: l.start,
        end: l.end,
        dir: Vector3::between(&l.start, &l.end),
        extent: Extent::ZeroToOne,
    }
}

} // verus!
