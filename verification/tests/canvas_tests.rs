use tracer::canvas::Canvas;
use tracer::colour::Colour;
use tracer::fixed::Field;

fn f(raw: i128) -> Field {
    Field::from_raw(raw)
}

fn c(r: i128, g: i128, b: i128) -> Colour {
    Colour::new(f(r), f(g), f(b))
}

#[test]
fn write_then_read_pixel() {
    let mut canvas: Canvas<10, 20> = Canvas::default();
    let pixel = Colour::green();
    canvas.set(5, 10, pixel);
    assert_eq!(canvas.get(5, 10), pixel);
}

#[test]
fn default_is_black() {
    let canvas: Canvas<4, 4> = Canvas::default();
    assert_eq!(canvas.get(3, 3), Colour::black());
}

#[test]
fn blank_to_ppm_header() {
    let canvas: Canvas<5, 3> = Canvas::default();
    let ppm = canvas.to_ppm();
    assert!(ppm.starts_with("P3\n5 3\n255\n"));
    let lines: Vec<&str> = ppm.split("\n").collect();
    assert_eq!(lines[0], "P3");
    assert_eq!(lines[1], "5 3");
    assert_eq!(lines[2], "255");
}

#[test]
fn blank_to_ppm_has_one_line_per_pixel() {
    let canvas: Canvas<5, 3> = Canvas::default();
    let ppm = canvas.to_ppm();
    // Three header lines, fifteen pixel lines, and the trailing newline
    // makes a final empty fragment.
    let lines: Vec<&str> = ppm.split("\n").collect();
    assert_eq!(lines.len(), 19);
    for body_line in &lines[3..18] {
        assert_eq!(*body_line, "0 0 0");
    }
    assert_eq!(lines[18], "");
}

#[test]
fn to_ppm_places_pixels_row_zero_first() {
    let mut canvas: Canvas<5, 3> = Canvas::default();
    canvas.set(0, 0, c(1_500_000, 0, 0));
    canvas.set(2, 1, c(0, 500_000, 0));
    canvas.set(4, 2, c(-500_000, 0, 1_000_000));
    let ppm = canvas.to_ppm();
    let lines: Vec<&str> = ppm.split("\n").collect();
    // Row y is lines 3 + 5 * y .. 3 + 5 * (y + 1); x indexes inside it.
    assert_eq!(lines[3], "255 0 0");
    assert_eq!(lines[10], "0 128 0");
    assert_eq!(lines[17], "0 0 255");
}

#[test]
fn to_ppm_ends_with_newline() {
    let canvas: Canvas<5, 3> = Canvas::default();
    assert!(canvas.to_ppm().ends_with("\n"));
}

#[test]
fn out_of_bounds_set_is_a_no_op() {
    let mut touched: Canvas<5, 3> = Canvas::default();
    let mut untouched: Canvas<5, 3> = Canvas::default();
    touched.set(1, 1, Colour::red());
    untouched.set(1, 1, Colour::red());
    // Writes at or past either bound must leave the canvas unchanged.
    touched.set(5, 0, Colour::white());
    touched.set(0, 3, Colour::white());
    touched.set(5, 3, Colour::white());
    touched.set(1000, 1000, Colour::white());
    assert_eq!(touched.to_ppm(), untouched.to_ppm());
}
