use tracer::colour::Colour;
use tracer::fixed::{Field, SCALE};

fn f(raw: i128) -> Field {
    Field::from_raw(raw)
}

fn c(r: i128, g: i128, b: i128) -> Colour {
    Colour::new(f(r), f(g), f(b))
}

#[test]
fn named_colours() {
    assert_eq!(Colour::black(), c(0, 0, 0));
    assert_eq!(Colour::red(), c(SCALE, 0, 0));
    assert_eq!(Colour::green(), c(0, SCALE, 0));
    assert_eq!(Colour::blue(), c(0, 0, SCALE));
    assert_eq!(Colour::cyan(), c(0, SCALE, SCALE));
    assert_eq!(Colour::magenta(), c(SCALE, 0, SCALE));
    assert_eq!(Colour::yellow(), c(SCALE, SCALE, 0));
    assert_eq!(Colour::white(), c(SCALE, SCALE, SCALE));
}

#[test]
fn channelwise_arithmetic() {
    let a = c(900_000, 600_000, 750_000);
    let b = c(700_000, 100_000, 250_000);
    assert_eq!(a.add(b), c(1_600_000, 700_000, 1_000_000));
    assert_eq!(a.sub(b), c(200_000, 500_000, 500_000));
    assert_eq!(a.neg(), c(-900_000, -600_000, -750_000));
    assert_eq!(a.scale(Field::from_int(2)), c(1_800_000, 1_200_000, 1_500_000));
}

#[test]
fn hadamard_product() {
    let a = c(SCALE, 200_000, 400_000);
    let b = c(900_000, SCALE, 100_000);
    assert_eq!(a.mul(b), c(900_000, 200_000, 40_000));
}

#[test]
fn encode_clamps_and_rounds() {
    // Channels below zero clamp to 0, above one clamp to 255, and one
    // half rounds up to 128.
    assert_eq!(c(-SCALE, 500_000, 1_500_000).encode(), "0 128 255");
    assert_eq!(Colour::white().encode(), "255 255 255");
}

#[test]
fn encode_named_colours() {
    assert_eq!(Colour::red().encode(), "255 0 0");
    assert_eq!(Colour::green().encode(), "0 255 0");
    assert_eq!(Colour::blue().encode(), "0 0 255");
    assert_eq!(Colour::black().encode(), "0 0 0");
}

#[test]
fn encode_intermediate_values() {
    // 0.2 * 255 = 51, 0.4 * 255 = 102, 0.6 * 255 = 153
    assert_eq!(c(200_000, 400_000, 600_000).encode(), "51 102 153");
    // 0.001 * 255 = 0.255 rounds to 0; 0.002 * 255 = 0.51 rounds to 1
    assert_eq!(c(1_000, 2_000, 0).encode(), "0 1 0");
}
