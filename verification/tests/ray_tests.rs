use tracer::fixed::{Field, SCALE};
use tracer::ray::Ray;
use tracer::sphere::Sphere;
use tracer::vector::{Point, Vector};

fn f(raw: i128) -> Field {
    Field::from_raw(raw)
}

fn p(x: i64, y: i64, z: i64) -> Point {
    Point::new(Field::from_int(x), Field::from_int(y), Field::from_int(z))
}

fn v(x: i64, y: i64, z: i64) -> Vector {
    Vector::new(Field::from_int(x), Field::from_int(y), Field::from_int(z))
}

#[test]
fn position_along_the_ray() {
    let r = Ray::new(p(2, 3, 4), v(1, 0, 0));
    assert_eq!(r.position(Field::from_int(0)), p(2, 3, 4));
    assert_eq!(r.position(Field::from_int(1)), p(3, 3, 4));
    assert_eq!(r.position(Field::from_int(-1)), p(1, 3, 4));
    let q = r.position(f(2_500_000));
    assert_eq!(q.x.raw, 4_500_000);
    assert_eq!(q.y.raw, 3 * SCALE);
    assert_eq!(q.z.raw, 4 * SCALE);
}

#[test]
fn ray_intersects_a_sphere_at_two_points() {
    let r = Ray::new(p(0, 0, -5), v(0, 0, 1));
    let s = Sphere::default();
    let (first, second) = r.sphere_intersection(s).unwrap();
    assert_eq!(first.t.raw, 4 * SCALE);
    assert_eq!(second.t.raw, 6 * SCALE);
}

#[test]
fn ray_intersects_a_sphere_at_a_tangent() {
    let r = Ray::new(p(0, 1, -5), v(0, 0, 1));
    let s = Sphere::default();
    let (first, second) = r.sphere_intersection(s).unwrap();
    assert_eq!(first.t.raw, 5 * SCALE);
    assert_eq!(second.t.raw, 5 * SCALE);
    assert_eq!(first.t, second.t);
}

#[test]
fn ray_misses_a_sphere() {
    let r = Ray::new(p(0, 2, -5), v(0, 0, 1));
    let s = Sphere::default();
    assert!(r.sphere_intersection(s).is_none());
}

#[test]
fn ray_originates_inside_a_sphere() {
    let r = Ray::new(p(0, 0, 0), v(0, 0, 1));
    let s = Sphere::default();
    let (first, second) = r.sphere_intersection(s).unwrap();
    assert_eq!(first.t.raw, -1 * SCALE);
    assert_eq!(second.t.raw, 1 * SCALE);
}

#[test]
fn sphere_entirely_behind_the_ray() {
    let r = Ray::new(p(0, 0, 5), v(0, 0, 1));
    let s = Sphere::default();
    let (first, second) = r.sphere_intersection(s).unwrap();
    assert_eq!(first.t.raw, -6 * SCALE);
    assert_eq!(second.t.raw, -4 * SCALE);
}

#[test]
fn roots_come_in_order() {
    let r = Ray::new(p(0, 0, -5), v(0, 0, 1));
    let s = Sphere::default();
    let (first, second) = r.sphere_intersection(s).unwrap();
    assert!(first.t.raw <= second.t.raw);
}

#[test]
fn intersection_records_carry_the_sphere() {
    let r = Ray::new(p(0, 0, -5), v(0, 0, 1));
    let s = Sphere::default();
    let (first, second) = r.sphere_intersection(s).unwrap();
    assert_eq!(first.object, s);
    assert_eq!(second.object, s);
}
