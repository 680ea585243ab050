use mini_collide::{
    Capsule, Collision, Distance, Intersection, Line, Plane, Point, Ray, Sphere, Triangle, Vector3,
};

fn p(x: i64, y: i64, z: i64) -> Point {
    Point::new(x, y, z)
}

fn v(x: i64, y: i64, z: i64) -> Vector3 {
    Vector3::new(x, y, z)
}

#[test]
fn overlapping_spheres_scenario() {
    // in halves: centers (0, 1.5, 0) and the origin, radius 1, overlap 0.5
    let a = Sphere::new(p(0, 3, 0), 2);
    let b = Sphere::new(p(0, 0, 0), 2);
    assert!(a.intersects(&b));
    let d2 = (a.center.y - b.center.y).pow(2);
    let overlap = (a.radius + b.radius) as f64 - (d2 as f64).sqrt();
    assert_eq!(overlap / 2.0, 0.5);
}

#[test]
fn line_point_distance_scenario() {
    let line = Line::from_points(p(0, 0, 0), p(0, 0, 10)).unwrap();
    let f = line.distance_squared(&p(0, 5, 25));
    assert_eq!((f.num as f64 / f.den as f64).sqrt(), 5.0);
}

#[test]
fn ray_plane_scenario() {
    let plane = Plane::from_points(p(-1, 0, -1), p(1, 0, -1), p(0, 0, 1)).unwrap();
    assert!(Ray::new(p(0, -1, 0), v(0, 1, 0)).unwrap().intersects(&plane));
    assert!(!Ray::new(p(0, -1, 0), v(0, -1, 0)).unwrap().intersects(&plane));
}

#[test]
fn triangle_ray_scenario() {
    let triangle = Triangle::new(p(-1, 0, 0), p(1, 0, 0), p(0, 0, 1));
    let c = Ray::new(p(0, 1, 0), v(0, -1, 0)).unwrap().collides(&triangle).unwrap();
    assert_eq!((c.point.x, c.point.y, c.point.z), (0, 0, 0));
    assert!(c.normal.x == 0 && c.normal.y > 0 && c.normal.z == 0);
    assert_eq!(c.overlap, 0);
}

#[test]
fn capsule_point_scenario() {
    let cap = Capsule::new(p(0, 0, 0), p(0, 5, 0), 1);
    for q in [p(0, 0, -5), p(0, 10, 0)] {
        let f = cap.axis.distance_squared(&q);
        assert_eq!((f.num as f64 / f.den as f64).sqrt() - cap.radius as f64, 4.0);
    }
}

#[test]
fn point_touches_shape_exactly_at_zero_distance() {
    let seg = mini_collide::LineSegment::new(p(0, 0, 0), p(4, 4, 0));
    let on = Sphere::new(p(2, 2, 0), 0);
    let off = Sphere::new(p(2, 3, 0), 0);
    assert!(seg.intersects(&on) && seg.distance_squared(&on.center).num == 0);
    assert!(!seg.intersects(&off) && seg.distance_squared(&off.center).num > 0);
    let plane = Plane::new(v(0, 0, 3), 6).unwrap();
    let on = Sphere::new(p(7, -7, 2), 0);
    let off = Sphere::new(p(7, -7, 3), 0);
    assert!(plane.intersects(&on) && plane.distance_squared(&on.center).num == 0);
    assert!(!plane.intersects(&off) && plane.distance_squared(&off.center).num > 0);
}

#[test]
fn triangle_closest_point_near_a_shared_vertex() {
    // p lies beyond vertex b, nearest to it; the edges a-b and b-c tie there
    let t = Triangle::new(p(0, 0, 0), p(4, 0, 0), p(0, 0, 4));
    let c = mini_collide::ClosestPoint::closest_point(&t, &p(6, 1, -2));
    assert_eq!((c.x, c.y, c.z), (4 * c.w, 0, 0));
}
