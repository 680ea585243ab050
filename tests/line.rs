use mini_collide::{Distance, Fraction, Line, Point};

fn p(x: i64, y: i64, z: i64) -> Point {
    Point::new(x, y, z)
}

fn is_dist(f: Fraction, expected: i128) -> bool {
    f.den > 0 && f.num == expected * expected * f.den
}

#[test]
fn line_test_distance_to_point() {
    let line = Line::from_points(p(0, 0, 0), p(0, 0, 10)).unwrap();

    assert!(is_dist(line.distance_squared(&p(0, 0, -5)), 0));
    assert!(is_dist(line.distance_squared(&p(0, 5, 25)), 5));
}

#[test]
fn line_test_distance_to_line() {
    let line = Line::from_points(p(0, 0, 0), p(0, 0, 10)).unwrap();

    let l = Line::from_points(p(0, 0, 1), p(0, 10, 10)).unwrap();
    assert!(is_dist(line.distance_squared(&l), 0));

    let l = Line::from_points(p(0, 5, 5), p(0, 5, 15)).unwrap();
    assert!(is_dist(line.distance_squared(&l), 5));

    let l = Line::from_points(p(0, 5, 0), p(25, 5, 0)).unwrap();
    assert!(is_dist(line.distance_squared(&l), 5));
}

#[test]
fn line_from_coincident_points_is_refused() {
    assert!(Line::from_points(p(1, 2, 3), p(1, 2, 3)).is_none());
    assert!(Line::new(p(1, 2, 3), mini_collide::Vector3::new(0, 0, 0)).is_none());
}
