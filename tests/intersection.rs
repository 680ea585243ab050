use mini_collide::{Intersection, LineSegment, Plane, Point, Ray, Sphere, Triangle, Vector3};

fn p(x: i64, y: i64, z: i64) -> Point {
    Point::new(x, y, z)
}

fn v(x: i64, y: i64, z: i64) -> Vector3 {
    Vector3::new(x, y, z)
}

fn ray(o: Point, d: Vector3) -> Ray {
    Ray::new(o, d).unwrap()
}

#[test]
fn test_ray_sphere_intersects() {
    let sphere = Sphere::new(p(0, 20, 0), 10);

    let r = ray(p(-20, 0, 0), v(1, 0, 0));
    assert!(!sphere.intersects(&r));
    assert!(!r.intersects(&sphere));

    let r = ray(p(-20, 20, 0), v(1, 0, 0));
    assert!(sphere.intersects(&r));
    assert!(r.intersects(&sphere));
}

#[test]
fn test_segment_sphere_intersects() {
    let sphere = Sphere::new(p(0, 20, 0), 10);

    let segment = LineSegment::new(p(-20, 0, 0), p(-10, 0, 0));
    assert!(!sphere.intersects(&segment));
    assert!(!segment.intersects(&sphere));

    let segment = LineSegment::new(p(10, 0, 0), p(20, 0, 0));
    assert!(!sphere.intersects(&segment));
    assert!(!segment.intersects(&sphere));

    let segment = LineSegment::new(p(-20, 20, 0), p(20, 0, 0));
    assert!(sphere.intersects(&segment));
    assert!(segment.intersects(&sphere));
}

#[test]
fn test_ray_plane_intersects() {
    let plane = Plane::from_points(p(-1, 0, -1), p(1, 0, -1), p(0, 0, 1)).unwrap();

    let r = ray(p(0, 1, 0), v(0, 1, 0));
    assert!(!plane.intersects(&r));
    assert!(!r.intersects(&plane));

    let r = ray(p(0, -1, 0), v(0, 1, 0));
    assert!(plane.intersects(&r));
    assert!(r.intersects(&plane));
}

#[test]
fn test_sphere_plane_intersects() {
    let plane = Plane::from_points(p(-1, 0, -1), p(1, 0, -1), p(0, 0, 1)).unwrap();

    let sphere = Sphere::new(p(0, 10, 0), 5);
    assert!(!plane.intersects(&sphere));
    assert!(!sphere.intersects(&plane));

    let sphere = Sphere::new(p(0, -10, 0), 5);
    assert!(!plane.intersects(&sphere));
    assert!(!sphere.intersects(&plane));

    let sphere = Sphere::new(p(0, 2, 0), 5);
    assert!(plane.intersects(&sphere));
    assert!(sphere.intersects(&plane));
}

#[test]
fn test_sphere_sphere_intersects() {
    let sphere1 = Sphere::new(p(10, 0, 0), 5);

    let sphere2 = Sphere::new(p(-10, 0, 0), 5);
    assert!(!sphere1.intersects(&sphere2));
    assert!(!sphere2.intersects(&sphere1));

    let sphere2 = Sphere::new(p(0, 0, 0), 7);
    assert!(sphere1.intersects(&sphere2));
    assert!(sphere2.intersects(&sphere1));
}

// Lengths in tenths: the triangle spans (-1, 0, 0), (1, 0, 0), (0, 0, 1) and
// the spheres have radius 0.5.
#[test]
fn test_triangle_sphere_intersects() {
    let triangle = Triangle::new(p(-10, 0, 0), p(10, 0, 0), p(0, 0, 10));

    // distance from plane in the positive direction
    let sphere = Sphere::new(p(0, 10, 0), 5);
    assert!(!triangle.intersects(&sphere));
    assert!(!sphere.intersects(&triangle));

    // distance from plane in the negative direction
    let sphere = Sphere::new(p(0, -10, 0), 5);
    assert!(!triangle.intersects(&sphere));
    assert!(!sphere.intersects(&triangle));

    // distance from the plane in the direction of each edge
    let sphere = Sphere::new(p(0, 0, -30), 5);
    assert!(!triangle.intersects(&sphere));
    assert!(!sphere.intersects(&triangle));

    let sphere = Sphere::new(p(30, 0, 30), 5);
    assert!(!triangle.intersects(&sphere));
    assert!(!sphere.intersects(&triangle));

    let sphere = Sphere::new(p(-30, 0, 30), 5);
    assert!(!triangle.intersects(&sphere));
    assert!(!sphere.intersects(&triangle));

    // diagonally from an edge
    let sphere = Sphere::new(p(0, 3, -3), 5);
    assert!(triangle.intersects(&sphere));
    assert!(sphere.intersects(&triangle));

    // in the middle of the triangle
    let sphere = Sphere::new(p(0, 0, 0), 5);
    assert!(triangle.intersects(&sphere));
    assert!(sphere.intersects(&triangle));
}

#[test]
fn test_triangle_ray_intersects() {
    let triangle = Triangle::new(p(-1, 0, 0), p(1, 0, 0), p(0, 0, 1));

    // parallel
    assert!(!triangle.intersects(&ray(p(0, 1, 0), v(0, 0, 1))));

    // in front
    assert!(!triangle.intersects(&ray(p(0, 1, 0), v(0, 1, 0))));

    // behind
    assert!(!triangle.intersects(&ray(p(0, -1, 0), v(0, -1, 0))));

    // past
    assert!(!triangle.intersects(&ray(p(3, 1, 3), v(0, -1, 0))));

    // straight through
    assert!(triangle.intersects(&ray(p(0, 1, 0), v(0, -1, 0))));

    // diagonally through: from (-0.5, -1, 0) along (0.5, 1, 0), in halves
    let triangle = Triangle::new(p(-2, 0, 0), p(2, 0, 0), p(0, 0, 2));
    assert!(triangle.intersects(&ray(p(-1, -2, 0), v(1, 2, 0))));
}

#[test]
fn test_triangle_line_segment_intersects() {
    let triangle = Triangle::new(p(-1, 0, 0), p(1, 0, 0), p(0, 0, 1));

    // parallel
    assert!(!triangle.intersects(&LineSegment::new(p(0, 1, 0), p(0, 1, 1))));

    // in front
    assert!(!triangle.intersects(&LineSegment::new(p(0, 1, 0), p(0, 4, 0))));

    // behind
    assert!(!triangle.intersects(&LineSegment::new(p(0, -8, 0), p(0, -1, 0))));

    // past
    assert!(!triangle.intersects(&LineSegment::new(p(3, 1, 3), p(3, -1, 3))));

    // straight through
    assert!(triangle.intersects(&LineSegment::new(p(0, 1, 0), p(0, -1, 0))));

    // diagonally through: from (-0.5, -2, 0) to (0.5, 2, 0), in halves
    let triangle = Triangle::new(p(-2, 0, 0), p(2, 0, 0), p(0, 0, 2));
    assert!(triangle.intersects(&LineSegment::new(p(-1, -4, 0), p(1, 4, 0))));
}

#[test]
fn ray_through_plane_from_below() {
    // the ray travels toward the plane from (0, -1, 0)
    let plane = Plane::from_points(p(-1, 0, -1), p(1, 0, -1), p(0, 0, 1)).unwrap();
    let r = ray(p(0, -1, 0), v(0, 1, 0));
    assert!(plane.intersects(&r));
    // parallel to the plane: meets it only when lying in it
    assert!(!plane.intersects(&ray(p(0, 1, 0), v(1, 0, 0))));
    assert!(plane.intersects(&ray(p(0, 0, 0), v(1, 0, 0))));
}

#[test]
fn tangent_shapes_touch() {
    // spheres touching at a single point
    assert!(Sphere::new(p(0, 0, 0), 3).intersects(&Sphere::new(p(0, 7, 0), 4)));
    assert!(!Sphere::new(p(0, 0, 0), 3).intersects(&Sphere::new(p(0, 8, 0), 4)));
    // a ray grazing a sphere
    let s = Sphere::new(p(0, 5, 0), 5);
    assert!(s.intersects(&ray(p(-10, 0, 0), v(1, 0, 0))));
    assert!(!s.intersects(&ray(p(-10, -1, 0), v(1, 0, 0))));
    // a segment ending on a sphere's surface
    assert!(s.intersects(&LineSegment::new(p(0, -5, 0), p(0, 0, 0))));
    assert!(!s.intersects(&LineSegment::new(p(0, -5, 0), p(0, -1, 0))));
    // a segment ending on the triangle
    let t = Triangle::new(p(-1, 0, 0), p(1, 0, 0), p(0, 0, 1));
    assert!(t.intersects(&LineSegment::new(p(0, 3, 0), p(0, 0, 0))));
}

#[test]
fn intersection_is_symmetric_on_samples() {
    let spheres = [Sphere::new(p(0, 0, 0), 2), Sphere::new(p(5, 5, 5), 4), Sphere::new(p(-3, 1, 0), 1)];
    let plane = Plane::new(v(1, 2, 2), 3).unwrap();
    let rays = [ray(p(0, 0, -9), v(0, 0, 1)), ray(p(9, 9, 9), v(1, 1, 1)), ray(p(-3, 3, 0), v(0, -1, 0))];
    let segments = [LineSegment::new(p(-4, 0, 0), p(4, 0, 0)), LineSegment::new(p(6, 6, 6), p(9, 9, 9))];
    let triangle = Triangle::new(p(-3, 0, -3), p(3, 0, -3), p(0, 0, 3));
    for a in &spheres {
        for b in &spheres {
            assert_eq!(a.intersects(b), b.intersects(a));
        }
        assert_eq!(a.intersects(&plane), plane.intersects(a));
        assert_eq!(a.intersects(&triangle), triangle.intersects(a));
        for r in &rays {
            assert_eq!(a.intersects(r), r.intersects(a));
        }
        for l in &segments {
            assert_eq!(a.intersects(l), l.intersects(a));
        }
    }
    for r in &rays {
        assert_eq!(r.intersects(&plane), plane.intersects(r));
        assert_eq!(r.intersects(&triangle), triangle.intersects(r));
    }
}
