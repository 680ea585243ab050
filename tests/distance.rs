use mini_collide::{Distance, Fraction, Line, LineSegment, Plane, Point, Ray, Vector3};

fn p(x: i64, y: i64, z: i64) -> Point {
    Point::new(x, y, z)
}

fn v(x: i64, y: i64, z: i64) -> Vector3 {
    Vector3::new(x, y, z)
}

/// Whether the squared distance `f` is `expected²`.
fn is_dist(f: Fraction, expected: i128) -> bool {
    f.den > 0 && f.num == expected * expected * f.den
}

#[test]
fn test_line_point() {
    let line = Line::from_points(p(0, 0, 0), p(0, 0, 10)).unwrap();

    assert!(is_dist(line.distance_squared(&p(0, 0, -5)), 0));
    assert!(is_dist(line.distance_squared(&p(0, 5, 25)), 5));
}

#[test]
fn distance_test_line_line() {
    let line = Line::from_points(p(0, 0, 0), p(0, 0, 10)).unwrap();

    let l = Line::from_points(p(0, 0, 1), p(0, 10, 10)).unwrap();
    assert!(is_dist(line.distance_squared(&l), 0));

    let l = Line::from_points(p(0, 5, 5), p(0, 5, 15)).unwrap();
    assert!(is_dist(line.distance_squared(&l), 5));

    let l = Line::from_points(p(0, 5, 0), p(25, 5, 0)).unwrap();
    assert!(is_dist(line.distance_squared(&l), 5));
}

#[test]
fn distance_test_ray_point() {
    let ray = Ray::new(p(0, 0, 0), v(0, 0, 1)).unwrap();

    assert!(is_dist(ray.distance_squared(&p(0, 0, -5)), 5));
    assert!(is_dist(ray.distance_squared(&p(0, 5, 25)), 5));
}

#[test]
fn distance_test_ray_line() {
    let ray = Ray::new(p(0, 0, 0), v(0, 0, 1)).unwrap();

    let l = Line::new(p(0, 5, 0), v(0, 0, 1)).unwrap();
    assert!(is_dist(ray.distance_squared(&l), 5));

    let l = Line::new(p(0, 0, -5), v(0, 0, -1)).unwrap();
    assert!(is_dist(ray.distance_squared(&l), 0));

    let l = Line::new(p(0, 5, -5), v(0, 1, 0)).unwrap();
    assert!(is_dist(ray.distance_squared(&l), 5));
}

#[test]
fn test_line_segment_point() {
    let line = LineSegment::new(p(0, 0, 0), p(0, 0, 10));

    assert!(is_dist(line.distance_squared(&p(0, 0, -5)), 5));
    assert!(is_dist(line.distance_squared(&p(0, 0, 15)), 5));
    assert!(is_dist(line.distance_squared(&p(0, 5, 5)), 5));
}

#[test]
fn distance_test_plane_point() {
    let plane = Plane::from_points(p(-1, 0, -1), p(1, 0, -1), p(0, 0, 1)).unwrap();
    // the normal is (0, 4, 0): offsets are signed distances times 4
    assert_eq!(plane.normal, v(0, 4, 0));

    let q = p(3, 1, 2);
    assert_eq!(plane.signed_offset(&q), 4);
    assert!(is_dist(plane.distance_squared(&q), 1));

    let q = p(-2, -1, -3);
    assert_eq!(plane.signed_offset(&q), -4);
    assert!(is_dist(plane.distance_squared(&q), 1));
}

#[test]
fn skew_lines_distance_is_exact() {
    // the z axis and the line x = 3 along y: three apart
    let a = Line::new(p(0, 0, 0), v(0, 0, 2)).unwrap();
    let b = Line::new(p(3, 7, -4), v(0, 5, 0)).unwrap();
    assert!(is_dist(a.distance_squared(&b), 3));
    assert!(is_dist(b.distance_squared(&a), 3));
}

#[test]
fn distances_are_never_negative() {
    let seg = LineSegment::new(p(-7, 2, 9), p(3, -4, 1));
    let ray = Ray::new(p(1, 1, 1), v(-2, 3, 5)).unwrap();
    let line = Line::new(p(4, -4, 0), v(1, 0, -1)).unwrap();
    for q in [p(0, 0, 0), p(-9, 8, 7), p(100, -200, 300)] {
        for f in [seg.distance_squared(&q), ray.distance_squared(&q), line.distance_squared(&q)] {
            assert!(f.den > 0 && f.num >= 0);
        }
    }
    let f = ray.distance_squared(&line);
    assert!(f.den > 0 && f.num >= 0);
}

#[test]
fn degenerate_segment_distance_is_point_distance() {
    let seg = LineSegment::new(p(1, 2, 3), p(1, 2, 3));
    let f = seg.distance_squared(&p(4, 6, 3));
    assert!(is_dist(f, 5));
}

#[test]
fn largest_coordinates_stay_exact() {
    let m = mini_collide::COORD_LIMIT;
    let seg = LineSegment::new(p(-m, -m, -m), p(m, m, m));
    let f = seg.distance_squared(&p(m, -m, m));
    // distance² from (m, -m, m) to the diagonal: |(2m,0,2m) × (2m,2m,2m)|² / |(2m,2m,2m)|²
    let m = m as i128;
    assert_eq!(f.num * 3, 8 * m * m * f.den);
}

#[test]
fn test_ray_ray() {
    let ray = Ray::new(p(0, 0, 0), v(0, 0, 1)).unwrap();

    let r = Ray::new(p(0, 5, 0), v(0, 0, 1)).unwrap();
    assert!(is_dist(ray.distance_squared(&r), 5));

    let r = Ray::new(p(0, 0, -5), v(0, 0, -1)).unwrap();
    assert!(is_dist(ray.distance_squared(&r), 5));

    // sqrt(5² + 5²)
    let r = Ray::new(p(0, 5, -5), v(0, 1, 0)).unwrap();
    let f = ray.distance_squared(&r);
    assert_eq!(f.num, (5 * 5 + 5 * 5) * f.den);
}

#[test]
fn test_ray_line_segment() {
    let ray = Ray::new(p(0, 0, 0), v(0, 0, 1)).unwrap();

    let l = LineSegment::new(p(0, 5, 0), p(0, 5, 1));
    assert!(is_dist(ray.distance_squared(&l), 5));

    let l = LineSegment::new(p(0, 0, -5), p(0, 0, -1));
    assert!(is_dist(ray.distance_squared(&l), 1));

    // sqrt(5² + 5²)
    let l = LineSegment::new(p(0, 5, -5), p(0, 6, -5));
    let f = ray.distance_squared(&l);
    assert_eq!(f.num, (5 * 5 + 5 * 5) * f.den);
}

#[test]
fn test_line_segment_line_segment() {
    let line = LineSegment::new(p(0, 0, 0), p(0, 0, 10));

    let l = LineSegment::new(p(0, 0, 15), p(0, 0, 20));
    assert!(is_dist(line.distance_squared(&l), 5));

    let l = LineSegment::new(p(0, 7, 5), p(0, 7, 20));
    assert!(is_dist(line.distance_squared(&l), 7));

    let l = LineSegment::new(p(9, 0, 0), p(9, 7, 0));
    assert!(is_dist(line.distance_squared(&l), 9));

    // sqrt(9² + 9² + 1²)
    let l = LineSegment::new(p(9, 1, -9), p(9, 7, -9));
    let f = line.distance_squared(&l);
    assert_eq!(f.num, (9 * 9 + 9 * 9 + 1 * 1) * f.den);

    let l = LineSegment::new(p(0, 0, -10), p(0, 0, -1));
    assert!(is_dist(line.distance_squared(&l), 1));
}

#[test]
fn crossing_segments_are_at_distance_zero() {
    let a = LineSegment::new(p(-3, 0, 0), p(3, 0, 0));
    let b = LineSegment::new(p(0, -3, 0), p(0, 3, 0));
    assert!(is_dist(a.distance_squared(&b), 0));
    // degenerate segments measure between their points
    let c = LineSegment::new(p(1, 2, 3), p(1, 2, 3));
    let d = LineSegment::new(p(4, 6, 3), p(4, 6, 3));
    assert!(is_dist(c.distance_squared(&d), 5));
}
