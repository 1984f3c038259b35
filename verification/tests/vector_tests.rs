use tracer::fixed::{Field, SCALE};
use tracer::vector::{reflect, Point, Vector};

fn f(raw: i128) -> Field {
    Field::from_raw(raw)
}

fn v(x: i64, y: i64, z: i64) -> Vector {
    Vector::new(Field::from_int(x), Field::from_int(y), Field::from_int(z))
}

fn p(x: i64, y: i64, z: i64) -> Point {
    Point::new(Field::from_int(x), Field::from_int(y), Field::from_int(z))
}

#[test]
fn componentwise_arithmetic() {
    let a = v(1, 2, 3);
    let b = v(2, 3, 4);
    assert_eq!(a.add(b), v(3, 5, 7));
    assert_eq!(a.sub(b), v(-1, -1, -1));
    assert_eq!(a.neg(), v(-1, -2, -3));
    assert_eq!(a.mul(b), v(2, 6, 12));
    assert_eq!(a.scale(Field::from_int(2)), v(2, 4, 6));
}

#[test]
fn point_and_vector_displacement() {
    assert_eq!(p(3, 2, 1).sub(p(5, 6, 7)), v(-2, -4, -6));
    assert_eq!(p(3, -2, 5).add(v(-2, 3, 1)), p(1, 1, 6));
}

#[test]
fn dot_products() {
    assert_eq!(v(1, 0, 0).dot(&v(1, 0, 0)).raw, SCALE);
    assert_eq!(v(1, 0, 0).dot(&v(0, 1, 1)).raw, 0);
    assert_eq!(v(1, 2, 3).dot(&v(2, 3, 4)).raw, 20 * SCALE);
}

#[test]
fn cross_products() {
    assert_eq!(v(1, 0, 0).cross(&v(0, 1, 0)), v(0, 0, 1));
    assert_eq!(v(0, 1, 0).cross(&v(1, 0, 0)), v(0, 0, -1));
    assert_eq!(v(1, 2, 3).cross(&v(2, 3, 4)), v(-1, 2, -1));
    assert_eq!(v(2, 3, 4).cross(&v(1, 2, 3)), v(1, -2, 1));
}

#[test]
fn norms() {
    assert_eq!(v(1, 0, 0).norm().raw, SCALE);
    assert_eq!(v(0, 3, 4).norm().raw, 5 * SCALE);
    assert_eq!(v(0, -3, -4).norm().raw, 5 * SCALE);
    // |(1,2,3)| = sqrt(14), truncated to millionths
    assert_eq!(v(1, 2, 3).norm().raw, 3_741_657);
}

#[test]
fn normalize_unit_and_scaled_axes() {
    assert_eq!(v(1, 0, 0).normalize(), Some(v(1, 0, 0)));
    assert_eq!(v(4, 0, 0).normalize(), Some(v(1, 0, 0)));
    let n = v(0, 1, -1).normalize().unwrap();
    assert_eq!(n.x.raw, 0);
    assert_eq!(n.y.raw, 707_107);
    assert_eq!(n.z.raw, -707_107);
}

#[test]
fn normalize_zero_vector_is_none() {
    assert!(v(0, 0, 0).normalize().is_none());
    // A vector too short for the fixed-point norm to resolve also fails.
    assert!(Vector::new(f(1), f(0), f(0)).normalize().is_none());
}

#[test]
fn reflect_at_forty_five_degrees() {
    assert_eq!(reflect(v(1, -1, 0), v(0, 1, 0)), v(1, 1, 0));
}

#[test]
fn reflect_off_slanted_surface() {
    let n = Vector::new(f(707_107), f(707_107), f(0));
    let r = reflect(v(0, -1, 0), n);
    assert!((r.x.raw - SCALE).abs() <= 3);
    assert!(r.y.raw.abs() <= 3);
    assert_eq!(r.z.raw, 0);
}
