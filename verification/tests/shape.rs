use raytracer::coord::{INFINITY, NEG_INFINITY};
use raytracer::intersection::Intersection;
use raytracer::shape::{Point3, Rect, Shape};

#[test]
fn infinite_spans_everything() {
    let r = Rect::infinite();
    assert_eq!(r.min, Point3::splat(NEG_INFINITY));
    assert_eq!(r.max, Point3::splat(INFINITY));
    assert!(r.intersects(&Point3::new(0, -5, 1_000_000)));
    assert!(r.intersects(&Point3::splat(INFINITY)));
}

#[test]
fn order_components_puts_corners_in_order() {
    let r = Rect { min: Point3::new(5, -2, 9), max: Point3::new(1, 3, 9) }.order_components();
    assert_eq!(r, Rect { min: Point3::new(1, -2, 9), max: Point3::new(5, 3, 9) });
    assert_eq!(r.order_components(), r);
}

#[test]
fn union_reaches_as_far_as_both() {
    let a = Rect { min: Point3::new(0, 0, 0), max: Point3::new(2, 2, 2) };
    let b = Rect { min: Point3::new(-1, 1, 1), max: Point3::new(1, 5, 2) };
    assert_eq!(a.union(&b), Rect { min: Point3::new(-1, 0, 0), max: Point3::new(2, 5, 2) });
    assert_eq!(b.union(&a), a.union(&b));
}

#[test]
fn a_box_meets_the_points_in_it() {
    let r = Rect { min: Point3::new(0, 0, 0), max: Point3::new(2, 2, 2) };
    assert!(r.intersects(&Point3::new(0, 0, 0)));
    assert!(r.intersects(&Point3::new(2, 1, 0)));
    assert!(!r.intersects(&Point3::new(3, 1, 0)));
    assert!(!r.intersects(&Point3::new(1, -1, 0)));
    assert!(!r.intersects(&Point3::new(1, 1, 3)));
}

#[test]
fn a_box_meets_a_box_by_its_corners() {
    let r = Rect { min: Point3::new(0, 0, 0), max: Point3::new(2, 2, 2) };
    let overlapping = Rect { min: Point3::new(1, 1, 1), max: Point3::new(5, 5, 5) };
    let apart = Rect { min: Point3::new(3, 3, 3), max: Point3::new(5, 5, 5) };
    let around = Rect { min: Point3::new(-1, -1, -1), max: Point3::new(5, 5, 5) };
    assert!(r.intersects(&overlapping));
    assert!(!r.intersects(&apart));
    // A box that holds neither corner of the other does not meet it, even
    // when it lies inside.
    assert!(!r.intersects(&around));
    assert!(around.intersects(&r));
}

#[test]
fn a_box_is_its_own_shape() {
    let r = Rect { min: Point3::new(1, 2, 3), max: Point3::new(4, 5, 6) };
    assert_eq!(r.position(), Point3::new(1, 2, 3));
    assert_eq!(r.bounding_box(), r);
}

#[test]
fn min_and_max_work_by_component() {
    let a = Point3::new(1, 7, -3);
    let b = Point3::new(2, 5, -3);
    assert_eq!(a.min(b), Point3::new(1, 5, -3));
    assert_eq!(a.max(b), Point3::new(2, 7, -3));
}
