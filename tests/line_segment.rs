use mini_collide::{Distance, Fraction, LineSegment, Point};

fn p(x: i64, y: i64, z: i64) -> Point {
    Point::new(x, y, z)
}

fn is_dist(f: Fraction, expected: i128) -> bool {
    f.den > 0 && f.num == expected * expected * f.den
}

#[test]
fn line_segment_test_distance_to_point() {
    let line = LineSegment::new(p(0, 0, 0), p(0, 0, 10));

    assert!(is_dist(line.distance_squared(&p(0, 0, -5)), 5));
    assert!(is_dist(line.distance_squared(&p(0, 0, 15)), 5));
    assert!(is_dist(line.distance_squared(&p(0, 5, 5)), 5));
}

#[test]
fn line_segment_test_distance_to_line_segment() {
    let line = LineSegment::new(p(0, 0, 0), p(0, 0, 10));

    let l = LineSegment::new(p(0, 0, 15), p(0, 0, 20));
    assert!(is_dist(line.distance_squared(&l), 5));

    let l = LineSegment::new(p(0, 7, 5), p(0, 7, 20));
    assert!(is_dist(line.distance_squared(&l), 7));

    let l = LineSegment::new(p(9, 0, 0), p(9, 7, 0));
    assert!(is_dist(line.distance_squared(&l), 9));

    // sqrt(9² + 9² + 1²)
    let l = LineSegment::new(p(9, 1, -9), p(9, 7, -9));
    let f = line.distance_squared(&l);
    assert_eq!(f.num, (9 * 9 + 9 * 9 + 1 * 1) * f.den);

    let l = LineSegment::new(p(0, 0, -10), p(0, 0, -1));
    assert!(is_dist(line.distance_squared(&l), 1));
}
