use mini_collide::{
    ClosestPoint, Line, LineSegment, Plane, Point, RationalPoint, Ray, Triangle, Vector3,
};

fn p(x: i64, y: i64, z: i64) -> Point {
    Point::new(x, y, z)
}

fn v(x: i64, y: i64, z: i64) -> Vector3 {
    Vector3::new(x, y, z)
}

fn is_at(r: RationalPoint, x: i128, y: i128, z: i128) -> bool {
    r.w > 0 && r.x == x * r.w && r.y == y * r.w && r.z == z * r.w
}

#[test]
fn closest_point_test_line_line() {
    let line = Line::from_points(p(0, 0, 0), p(0, 0, 10)).unwrap();

    let l = Line::from_points(p(0, 0, 1), p(0, 10, 10)).unwrap();
    assert!(is_at(line.closest_point(&l), 0, 0, 1));

    let l = Line::from_points(p(0, 5, 5), p(0, 5, 15)).unwrap();
    assert!(is_at(line.closest_point(&l), 0, 0, 0));

    let l = Line::from_points(p(0, 5, 0), p(25, 5, 0)).unwrap();
    assert!(is_at(line.closest_point(&l), 0, 0, 0));

    let l = Line::from_points(p(0, 5, 10), p(25, 5, 10)).unwrap();
    assert!(is_at(line.closest_point(&l), 0, 0, 10));
}

#[test]
fn closest_point_test_ray_point() {
    let ray = Ray::new(Point::zero(), v(0, 0, 1)).unwrap();

    assert!(is_at(ray.closest_point(&p(0, 0, -5)), 0, 0, 0));
    assert!(is_at(ray.closest_point(&p(0, 5, 25)), 0, 0, 25));
}

#[test]
fn closest_point_test_ray_line() {
    let ray = Ray::new(Point::zero(), v(0, 0, 1)).unwrap();

    let l = Line::new(p(0, 5, 0), v(0, 0, 1)).unwrap();
    assert!(is_at(ray.closest_point(&l), 0, 0, 0));

    let l = Line::new(p(0, 0, -5), v(0, 0, -1)).unwrap();
    assert!(is_at(ray.closest_point(&l), 0, 0, 0));

    let l = Line::new(p(0, 5, -5), v(0, 1, 0)).unwrap();
    assert!(is_at(ray.closest_point(&l), 0, 0, 0));

    let l = Line::new(p(0, 5, 5), v(0, 1, 0)).unwrap();
    assert!(is_at(ray.closest_point(&l), 0, 0, 5));
}

#[test]
fn closest_point_test_plane_point() {
    let plane = Plane::from_points(p(-1, 0, -1), p(1, 0, -1), p(0, 0, 1)).unwrap();

    assert!(is_at(plane.closest_point(&p(2, 1, 3)), 2, 0, 3));
    assert!(is_at(plane.closest_point(&p(-2, -1, -3)), -2, 0, -3));
}

#[test]
fn test_triangle_point() {
    let triangle = Triangle::new(p(-1, 0, -1), p(1, 0, -1), p(0, 0, 1));

    assert!(is_at(triangle.closest_point(&p(0, 1, 0)), 0, 0, 0));
    assert!(is_at(triangle.closest_point(&p(0, 1, 2)), 0, 0, 1));
    assert!(is_at(triangle.closest_point(&p(0, -1, -2)), 0, 0, -1));
}

#[test]
fn segment_closest_point_clamps_to_both_ends() {
    let seg = LineSegment::new(p(0, 0, 0), p(0, 0, 10));
    assert!(is_at(seg.closest_point(&p(0, 3, -4)), 0, 0, 0));
    assert!(is_at(seg.closest_point(&p(0, 3, 14)), 0, 0, 10));
    assert!(is_at(seg.closest_point(&p(0, 3, 4)), 0, 0, 4));
    // a degenerate segment is its single point
    let dot = LineSegment::new(p(1, 2, 3), p(1, 2, 3));
    assert!(is_at(dot.closest_point(&p(9, 9, 9)), 1, 2, 3));
}

#[test]
fn closest_point_can_be_fractional() {
    // the projection of (1, 0, 0) on the line through the origin along (1, 1, 0)
    let line = Line::new(p(0, 0, 0), v(1, 1, 0)).unwrap();
    let r = line.closest_point(&p(1, 0, 0));
    assert_eq!((r.x * 2, r.y * 2, r.z * 2), (r.w, r.w, 0));
}

#[test]
fn closest_point_is_no_farther_than_sampled_points() {
    let seg = LineSegment::new(p(-3, 1, 2), p(5, -2, 7));
    let q = p(4, 4, -1);
    let c = seg.closest_point(&q);
    let (cx, cy, cz) = (
        c.x as f64 / c.w as f64,
        c.y as f64 / c.w as f64,
        c.z as f64 / c.w as f64,
    );
    let best = (cx - 4.0).powi(2) + (cy - 4.0).powi(2) + (cz + 1.0).powi(2);
    for i in 0..=100 {
        let t = i as f64 / 100.0;
        let (x, y, z) = (-3.0 + 8.0 * t, 1.0 - 3.0 * t, 2.0 + 5.0 * t);
        let d = (x - 4.0).powi(2) + (y - 4.0).powi(2) + (z + 1.0).powi(2);
        assert!(best <= d + 1e-9);
    }
}

#[test]
fn closest_points_between_pieces() {
    // two segments crossing over each other at height 2
    let a = LineSegment::new(p(-3, 0, 0), p(3, 0, 0));
    let b = LineSegment::new(p(0, -3, 2), p(0, 3, 2));
    assert!(is_at(a.closest_point(&b), 0, 0, 0));
    assert!(is_at(b.closest_point(&a), 0, 0, 2));
    // a ray pointing away from a segment: its origin is nearest
    let r = Ray::new(p(0, 0, 5), v(0, 0, 1)).unwrap();
    assert!(is_at(r.closest_point(&a), 0, 0, 5));
    assert!(is_at(a.closest_point(&r), 0, 0, 0));
    // two rays whose carriers meet behind one of them
    let r1 = Ray::new(p(0, 0, 0), v(1, 0, 0)).unwrap();
    let r2 = Ray::new(p(-4, 3, 0), v(0, 1, 0)).unwrap();
    assert!(is_at(r1.closest_point(&r2), 0, 0, 0));
    assert!(is_at(r2.closest_point(&r1), -4, 3, 0));
    // a line and a segment
    let l = Line::new(p(0, 0, 7), v(1, 1, 0)).unwrap();
    let s = LineSegment::new(p(2, 2, 0), p(2, 2, 4));
    assert!(is_at(s.closest_point(&l), 2, 2, 4));
    assert!(is_at(l.closest_point(&r1), 0, 0, 7));
}
