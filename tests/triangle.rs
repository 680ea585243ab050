use mini_collide::{Point, Triangle};

fn p(x: i64, y: i64, z: i64) -> Point {
    Point::new(x, y, z)
}

#[test]
fn barycentric_coordinates_of_vertices_and_centroid() {
    let t = Triangle::new(p(0, 0, 0), p(3, 0, 0), p(0, 3, 0));
    let b = t.barycentric_coordinates(p(0, 0, 0)).unwrap();
    assert_eq!((b.u, b.v, b.w), (b.den, 0, 0));
    let b = t.barycentric_coordinates(p(3, 0, 0)).unwrap();
    assert_eq!((b.u, b.v, b.w), (0, b.den, 0));
    let b = t.barycentric_coordinates(p(1, 1, 5)).unwrap();
    assert_eq!((3 * b.u, 3 * b.v, 3 * b.w), (b.den, b.den, b.den));
    let b = t.barycentric_coordinates(p(3, 3, 0)).unwrap();
    assert!(b.u < 0);
}

#[test]
fn degenerate_triangle_has_no_barycentric_coordinates() {
    let t = Triangle::new(p(0, 0, 0), p(1, 1, 1), p(2, 2, 2));
    assert!(t.barycentric_coordinates(p(0, 1, 0)).is_none());
    assert!(t.plane().is_none());
}

#[test]
fn coplanar_point_inside_by_edges() {
    let t = Triangle::new(p(-1, 0, -1), p(1, 0, -1), p(0, 0, 1));
    assert!(t.coplanar_point_inside(p(0, 0, 0)));
    assert!(t.coplanar_point_inside(p(0, 0, -1)));
    assert!(t.coplanar_point_inside(p(1, 0, -1)));
    assert!(!t.coplanar_point_inside(p(0, 0, 2)));
    assert!(!t.coplanar_point_inside(p(0, 0, -2)));
}

#[test]
fn plane_of_triangle_follows_the_winding() {
    let t = Triangle::new(p(-1, 0, -1), p(1, 0, -1), p(0, 0, 1));
    let pl = t.plane().unwrap();
    assert_eq!((pl.normal.x, pl.normal.y, pl.normal.z, pl.d), (0, 4, 0, 0));
    let flipped = Triangle::new(p(-1, 0, -1), p(0, 0, 1), p(1, 0, -1)).plane().unwrap();
    assert_eq!(flipped.normal.y, -4);
}
