use tracer::colour::Colour;
use tracer::fixed::Field;
use tracer::light::{lighting, LightSource};
use tracer::material::Material;
use tracer::sphere::Sphere;
use tracer::vector::{Point, Vector};

fn f(raw: i128) -> Field {
    Field::from_raw(raw)
}

fn v(x: i64, y: i64, z: i64) -> Vector {
    Vector::new(Field::from_int(x), Field::from_int(y), Field::from_int(z))
}

fn sun_at(x: i64, y: i64, z: i64) -> LightSource {
    LightSource::sun_at(Field::from_int(x), Field::from_int(y), Field::from_int(z))
}

fn setup() -> (Material, Point, Vector) {
    (Material::default(), Point::origin(), v(0, 0, -1))
}

fn assert_close(c: Colour, raw: i128, tolerance: i128) {
    assert!((c.r.raw - raw).abs() <= tolerance);
    assert!((c.g.raw - raw).abs() <= tolerance);
    assert!((c.b.raw - raw).abs() <= tolerance);
}

#[test]
fn eye_between_the_light_and_the_surface() {
    let (material, point, surface_normal) = setup();
    let eye = v(0, 0, -1);
    let result = lighting(material, sun_at(0, 0, -10), point, eye, surface_normal);
    // Ambient 0.1, full diffuse 0.9, full specular 0.9: 1.9 exactly.
    assert_eq!(result, Colour::new(f(1_900_000), f(1_900_000), f(1_900_000)));
}

#[test]
fn eye_offset_forty_five_degrees() {
    let (material, point, surface_normal) = setup();
    let eye = v(0, 1, -1).normalize().unwrap();
    let result = lighting(material, sun_at(0, 0, -10), point, eye, surface_normal);
    // The specular highlight misses the eye entirely: 0.1 + 0.9 = 1.
    assert_eq!(result, Colour::white());
}

#[test]
fn light_offset_forty_five_degrees() {
    let (material, point, surface_normal) = setup();
    let eye = v(0, 0, -1);
    let result = lighting(material, sun_at(0, 10, -10), point, eye, surface_normal);
    // Diffuse falls to 0.9 * sqrt(2)/2: about 0.7364.
    assert_close(result, 736_400, 1_500);
}

#[test]
fn eye_in_the_path_of_the_reflection() {
    let (material, point, surface_normal) = setup();
    let eye = v(0, -1, -1).normalize().unwrap();
    let result = lighting(material, sun_at(0, 10, -10), point, eye, surface_normal);
    // Diffuse as above plus the full specular highlight: about 1.6364.
    assert_close(result, 1_636_400, 2_000);
}

#[test]
fn light_behind_the_surface() {
    let (material, point, surface_normal) = setup();
    let eye = v(0, 0, -1);
    let result = lighting(material, sun_at(0, 0, 10), point, eye, surface_normal);
    // Ambient only: 0.1 exactly.
    assert_eq!(result, Colour::new(f(100_000), f(100_000), f(100_000)));
}

#[test]
fn normal_at_points_outward() {
    let sphere = Sphere::new(
        Point::new(Field::from_int(1), Field::zero(), Field::zero()),
        Field::from_int(1),
        Material::default(),
    );
    assert_eq!(sphere.normal_at(Point::new(Field::from_int(2), Field::zero(), Field::zero())),
        Some(v(1, 0, 0)));
    assert_eq!(sphere.normal_at(Point::origin()), Some(v(-1, 0, 0)));
    assert_eq!(sphere.normal_at(Point::new(Field::from_int(1), Field::from_int(1), Field::zero())),
        Some(v(0, 1, 0)));
    assert_eq!(sphere.normal_at(Point::new(Field::from_int(1), Field::from_int(-1), Field::zero())),
        Some(v(0, -1, 0)));
}

#[test]
fn normal_at_the_centre_is_none() {
    let sphere = Sphere::default();
    assert!(sphere.normal_at(Point::origin()).is_none());
}

#[test]
fn default_sphere_is_the_unit_sphere_at_origin() {
    let s = Sphere::default();
    assert_eq!(s.origin, Point::origin());
    assert_eq!(s.radius, Field::from_int(1));
    assert_eq!(s.material, Material::default());
}

#[test]
fn default_material_parameters() {
    let m = Material::default();
    assert_eq!(m.colour, Colour::white());
    assert_eq!(m.ambient.raw, 100_000);
    assert_eq!(m.diffuse.raw, 900_000);
    assert_eq!(m.specular.raw, 900_000);
    assert_eq!(m.shininess, Field::from_int(200));
}

#[test]
fn sun_at_is_a_white_light() {
    let l = sun_at(-10, 10, -10);
    assert_eq!(l.colour, Colour::white());
    assert_eq!(l.origin.x, Field::from_int(-10));
    assert_eq!(l.origin.y, Field::from_int(10));
    assert_eq!(l.origin.z, Field::from_int(-10));
}
