use tracer::fixed::Field;
use tracer::intersection::{Intersection, Intersections};
use tracer::sphere::Sphere;

fn i(t: i64) -> Intersection {
    Intersection::new(Field::from_int(t), Sphere::default())
}

#[test]
fn hit_when_all_intersections_have_positive_t() {
    let intersections = Intersections::from(vec![i(2), i(1)]);
    assert_eq!(intersections.hit(), Some(i(1)));
}

#[test]
fn hit_when_some_intersections_have_negative_t() {
    let intersections = Intersections::from(vec![i(-1), i(1)]);
    assert_eq!(intersections.hit(), Some(i(1)));
}

#[test]
fn hit_when_all_intersections_have_negative_t() {
    let intersections = Intersections::from(vec![i(-2), i(-1)]);
    assert!(intersections.hit().is_none());
}

#[test]
fn hit_is_lowest_nonnegative_intersection() {
    let intersections = Intersections::from(vec![i(-2), i(-1), i(2), i(1)]);
    assert_eq!(intersections.hit(), Some(i(1)));
}

#[test]
fn hit_with_zero_t_counts_as_visible() {
    let intersections = Intersections::from(vec![i(-1), i(0), i(3)]);
    assert_eq!(intersections.hit(), Some(i(0)));
}

#[test]
fn hit_does_not_depend_on_input_order() {
    let expected = Some(i(1));
    assert_eq!(Intersections::from(vec![i(1), i(2), i(-1), i(4)]).hit(), expected);
    assert_eq!(Intersections::from(vec![i(4), i(-1), i(2), i(1)]).hit(), expected);
    assert_eq!(Intersections::from(vec![i(2), i(1), i(4), i(-1)]).hit(), expected);
    assert_eq!(Intersections::from(vec![i(-1), i(4), i(1), i(2)]).hit(), expected);
}

#[test]
fn hit_of_empty_collection_is_none() {
    let intersections = Intersections::from(vec![]);
    assert!(intersections.hit().is_none());
}
