use mini_collide::{Collision, Contact, Intersection, LineSegment, Point, Ray, Triangle, Vector3};

fn p(x: i64, y: i64, z: i64) -> Point {
    Point::new(x, y, z)
}

fn v(x: i64, y: i64, z: i64) -> Vector3 {
    Vector3::new(x, y, z)
}

fn ray(o: Point, d: Vector3) -> Ray {
    Ray::new(o, d).unwrap()
}

/// The contact is at `(x, y, z)`, with a normal along `+y` and no overlap.
fn is_contact(c: Option<Contact>, x: i128, y: i128, z: i128) -> bool {
    match c {
        Some(c) => {
            let q = c.point;
            q.w > 0
                && (q.x, q.y, q.z) == (x * q.w, y * q.w, z * q.w)
                && c.normal.x == 0
                && c.normal.y > 0
                && c.normal.z == 0
                && c.overlap == 0
        }
        None => false,
    }
}

#[test]
fn test_triangle_ray_collision() {
    let triangle = Triangle::new(p(-1, 0, 0), p(1, 0, 0), p(0, 0, 1));

    // parallel
    assert_eq!(ray(p(0, 1, 0), v(0, 0, 1)).collides(&triangle), None);

    // in front
    assert_eq!(ray(p(0, 1, 0), v(0, 1, 0)).collides(&triangle), None);

    // behind
    assert_eq!(ray(p(0, -1, 0), v(0, -1, 0)).collides(&triangle), None);

    // past
    assert_eq!(ray(p(3, 1, 3), v(0, -1, 0)).collides(&triangle), None);

    // straight through
    assert!(is_contact(ray(p(0, 1, 0), v(0, -1, 0)).collides(&triangle), 0, 0, 0));

    // diagonally through: from (-0.5, -1, 0) along (0.5, 1, 0), in halves
    let triangle = Triangle::new(p(-2, 0, 0), p(2, 0, 0), p(0, 0, 2));
    assert!(is_contact(ray(p(-1, -2, 0), v(1, 2, 0)).collides(&triangle), 0, 0, 0));
}

#[test]
fn triangle_ray_contact_scenario() {
    // triangle (-1,0,0), (1,0,0), (0,0,1) hit from (0,1,0) straight down
    let triangle = Triangle::new(p(-1, 0, 0), p(1, 0, 0), p(0, 0, 1));
    let c = ray(p(0, 1, 0), v(0, -1, 0)).collides(&triangle).unwrap();
    assert_eq!(c.normal, v(0, 2, 0));
    assert_eq!(c.overlap, 0);
    assert_eq!((c.point.x, c.point.y, c.point.z), (0, 0, 0));
}

#[test]
fn segment_triangle_collision() {
    let triangle = Triangle::new(p(-4, 0, -4), p(4, 0, -4), p(0, 0, 4));
    // crossing at (1, 0, 0), a third of the way
    let c = LineSegment::new(p(1, 1, 0), p(1, -2, 0)).collides(&triangle).unwrap();
    assert_eq!((c.point.x, c.point.y, c.point.z), (c.point.w, 0, 0));
    assert_eq!(c.overlap, 0);
    // too short to reach the plane
    assert_eq!(LineSegment::new(p(1, 3, 0), p(1, 1, 0)).collides(&triangle), None);
    // crossing the plane outside the triangle
    assert_eq!(LineSegment::new(p(9, 1, 0), p(9, -1, 0)).collides(&triangle), None);
}

#[test]
fn contact_lies_on_both_shapes() {
    let triangle = Triangle::new(p(-5, 1, -5), p(6, 2, -4), p(0, -1, 7));
    let r = ray(p(0, 9, 0), v(1, -7, 2));
    let c = r.collides(&triangle).unwrap();
    let (x, y, z, w) = (c.point.x, c.point.y, c.point.z, c.point.w);
    assert!(w > 0 && c.overlap >= 0);
    // in the triangle's plane: n · point == n · a
    let n = c.normal;
    let (nx, ny, nz) = (n.x as i128, n.y as i128, n.z as i128);
    assert_eq!(nx * x + ny * y + nz * z, (nx * -5 + ny * 1 + nz * -5) * w);
    // on the ray: point - origin * w is a non-negative multiple of the direction
    let (dx, dy, dz) = (x, y - 9 * w, z);
    assert!(dx >= 0);
    assert_eq!(dy, -7 * dx);
    assert_eq!(dz, 2 * dx);
    // and so the triangle reports the ray as meeting it
    assert!(triangle.intersects(&r));
}
