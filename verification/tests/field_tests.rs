use tracer::fixed::{Field, LIMIT, SCALE};

fn f(raw: i128) -> Field {
    Field::from_raw(raw)
}

#[test]
fn from_int_scales() {
    assert_eq!(Field::from_int(3).raw, 3 * SCALE);
    assert_eq!(Field::from_int(-7).raw, -7 * SCALE);
    assert_eq!(Field::zero().raw, 0);
    assert_eq!(Field::one().raw, SCALE);
}

#[test]
fn add_sub_neg_exact() {
    let a = f(2_500_000);
    let b = f(1_250_000);
    assert_eq!(a.add(b).raw, 3_750_000);
    assert_eq!(a.sub(b).raw, 1_250_000);
    assert_eq!(a.neg().raw, -2_500_000);
}

#[test]
fn mul_truncates_toward_zero() {
    // 2.5 * 4 = 10
    assert_eq!(f(2_500_000).mul(Field::from_int(4)).raw, 10_000_000);
    // 0.5 * 0.5 = 0.25
    assert_eq!(f(500_000).mul(f(500_000)).raw, 250_000);
    // -0.5 * 0.5 = -0.25 (toward zero)
    assert_eq!(f(-500_000).mul(f(500_000)).raw, -250_000);
    // A product below one raw unit truncates to zero.
    assert_eq!(f(1).mul(f(1)).raw, 0);
}

#[test]
fn div_exact_and_truncating() {
    assert_eq!(Field::from_int(10).div(Field::from_int(4)).raw, 2_500_000);
    assert_eq!(Field::from_int(1).div(Field::from_int(3)).raw, 333_333);
    assert_eq!(Field::from_int(-1).div(Field::from_int(3)).raw, -333_333);
    assert_eq!(Field::from_int(1).div(Field::from_int(-3)).raw, -333_333);
}

#[test]
fn sqrt_exact_squares() {
    assert_eq!(Field::from_int(4).sqrt().raw, 2 * SCALE);
    assert_eq!(Field::from_int(25).sqrt().raw, 5 * SCALE);
    assert_eq!(Field::zero().sqrt().raw, 0);
    // sqrt(2) truncated to millionths
    assert_eq!(Field::from_int(2).sqrt().raw, 1_414_213);
}

#[test]
fn pow_on_unit_interval() {
    assert_eq!(f(500_000).pow(2).raw, 250_000);
    assert_eq!(Field::one().pow(200).raw, SCALE);
    assert_eq!(f(500_000).pow(0).raw, SCALE);
    // A proper fraction to the 200th power underflows to zero.
    assert_eq!(f(707_107).pow(200).raw, 0);
}

#[test]
fn limit_covers_scene_values() {
    // The documented input limit is a thousand whole units.
    assert_eq!(LIMIT, 1000 * SCALE);
}
