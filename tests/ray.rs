use mini_collide::{Distance, Fraction, Line, Point, Ray, Vector3};

fn p(x: i64, y: i64, z: i64) -> Point {
    Point::new(x, y, z)
}

fn v(x: i64, y: i64, z: i64) -> Vector3 {
    Vector3::new(x, y, z)
}

fn is_dist(f: Fraction, expected: i128) -> bool {
    f.den > 0 && f.num == expected * expected * f.den
}

#[test]
fn ray_test_distance_to_point() {
    let ray = Ray::new(p(0, 0, 0), v(0, 0, 1)).unwrap();

    assert!(is_dist(ray.distance_squared(&p(0, 0, -5)), 5));
    assert!(is_dist(ray.distance_squared(&p(0, 5, 25)), 5));
}

#[test]
fn ray_test_distance_to_line() {
    let ray = Ray::new(p(0, 0, 0), v(0, 0, 1)).unwrap();

    let l = Line::new(p(0, 5, 0), v(0, 0, 1)).unwrap();
    assert!(is_dist(ray.distance_squared(&l), 5));

    let l = Line::new(p(0, 0, -5), v(0, 0, -1)).unwrap();
    assert!(is_dist(ray.distance_squared(&l), 0));

    let l = Line::new(p(0, 5, -5), v(0, 1, 0)).unwrap();
    assert!(is_dist(ray.distance_squared(&l), 5));
}

#[test]
fn ray_with_zero_direction_is_refused() {
    assert!(Ray::new(p(0, 0, 0), v(0, 0, 0)).is_none());
}

#[test]
fn test_distance_to_ray() {
    let ray = Ray::new(p(0, 0, 0), v(0, 0, 1)).unwrap();

    let r = Ray::new(p(0, 5, 0), v(0, 0, 1)).unwrap();
    assert!(is_dist(ray.distance_squared(&r), 5));

    let r = Ray::new(p(0, 0, -5), v(0, 0, -1)).unwrap();
    assert!(is_dist(ray.distance_squared(&r), 5));

    // sqrt(5² + 5²)
    let r = Ray::new(p(0, 5, -5), v(0, 1, 0)).unwrap();
    let f = ray.distance_squared(&r);
    assert_eq!(f.num, (5 * 5 + 5 * 5) * f.den);
}

#[test]
fn ray_test_distance_to_line_segment() {
    let ray = Ray::new(p(0, 0, 0), v(0, 0, 1)).unwrap();

    let l = mini_collide::LineSegment::new(p(0, 5, 0), p(0, 5, 1));
    assert!(is_dist(ray.distance_squared(&l), 5));

    let l = mini_collide::LineSegment::new(p(0, 0, -5), p(0, 0, -1));
    assert!(is_dist(ray.distance_squared(&l), 1));

    // sqrt(5² + 5²)
    let l = mini_collide::LineSegment::new(p(0, 5, -5), p(0, 6, -5));
    let f = ray.distance_squared(&l);
    assert_eq!(f.num, (5 * 5 + 5 * 5) * f.den);
}
