//! Bounding-box, interval, fraction and vector checks.

use raycore::math::{Frac, Interval, Ray, Vector3};
use raycore::surfaces::{BoundingBox, Sphere};

#[test]
fn box_origin_inside_always_hits() {
    // A ray born strictly inside the box hits it whatever its direction,
    // the zero direction included.
    let bb = BoundingBox::new(Vector3::new(-10, -10, -10), Vector3::new(10, 10, 10));
    let directions = [
        Vector3::new(0, 0, 1),
        Vector3::new(0, 0, -1),
        Vector3::new(1, 0, 0),
        Vector3::new(-3, 7, 2),
        Vector3::new(0, -1, 0),
        Vector3::new(0, 0, 0),
    ];
    for d in directions.iter() {
        let ray = Ray::new(Vector3::new(1, 2, 3), *d);
        assert!(bb.intersects(&ray));
    }
}

#[test]
fn box_corners_normalized() {
    // The constructor derives the componentwise minimum and maximum, so
    // corners may be passed in any order.
    let a = BoundingBox::new(Vector3::new(5, -2, 9), Vector3::new(-5, 2, 3));
    assert_eq!((a.corners.0.x, a.corners.0.y, a.corners.0.z), (-5, -2, 3));
    assert_eq!((a.corners.1.x, a.corners.1.y, a.corners.1.z), (5, 2, 9));
    let ray = Ray::new(Vector3::new(0, 0, 0), Vector3::new(0, 0, 1));
    let b = BoundingBox::new(Vector3::new(-5, -2, 3), Vector3::new(5, 2, 9));
    assert_eq!(a.intersects(&ray), b.intersects(&ray));
    assert!(a.intersects(&ray));
}

#[test]
fn box_zero_axis_outside_misses() {
    // The direction is zero along x and the origin lies outside the box's
    // x-slab: the axis can never be satisfied, so the box is missed even
    // though the ray runs towards the box's z-range.
    let bb = BoundingBox::new(Vector3::new(-5, -5, 45), Vector3::new(5, 5, 55));
    let ray = Ray::new(Vector3::new(20, 0, 0), Vector3::new(0, 0, 1));
    assert!(!bb.intersects(&ray));
}

#[test]
fn box_behind_ray_misses() {
    // The whole box lies behind the ray.
    let bb = BoundingBox::new(Vector3::new(-5, -5, -55), Vector3::new(5, 5, -45));
    let ray = Ray::new(Vector3::new(0, 0, 0), Vector3::new(0, 0, 1));
    assert!(!bb.intersects(&ray));
}

#[test]
fn box_hit_from_outside() {
    // A ray aimed at the box from outside, straight and skewed.
    let bb = BoundingBox::new(Vector3::new(-5, -5, 45), Vector3::new(5, 5, 55));
    let straight = Ray::new(Vector3::new(0, 0, 0), Vector3::new(0, 0, 1));
    let skewed = Ray::new(Vector3::new(0, 0, 0), Vector3::new(1, 1, 10));
    let wide = Ray::new(Vector3::new(0, 0, 0), Vector3::new(2, 0, 10));
    assert!(bb.intersects(&straight));
    assert!(bb.intersects(&skewed));
    assert!(!bb.intersects(&wide));
}

#[test]
fn sphere_bounding_box_spans_radius() {
    let sphere = Sphere::new(Vector3::new(1, 2, 3), 10);
    let bb = sphere.bounding_box();
    assert_eq!((bb.corners.0.x, bb.corners.0.y, bb.corners.0.z), (-9, -8, -7));
    assert_eq!((bb.corners.1.x, bb.corners.1.y, bb.corners.1.z), (11, 12, 13));
}

#[test]
fn interval_new_orders_endpoints() {
    let a = Frac { num: 7, den: 2 };
    let b = Frac { num: 3, den: 1 };
    let iv = Interval::new(a, b);
    let (lo, hi) = iv.get_endpoints();
    assert_eq!((lo.num, lo.den), (3, 1));
    assert_eq!((hi.num, hi.den), (7, 2));
}

#[test]
fn interval_intersection_overlap() {
    // [1, 3] and [2, 5] meet in [2, 3].
    let a = Interval::new(Frac { num: 1, den: 1 }, Frac { num: 3, den: 1 });
    let b = Interval::new(Frac { num: 2, den: 1 }, Frac { num: 5, den: 1 });
    let iv = a.intersection(&b).expect("overlapping intervals must intersect");
    let (lo, hi) = iv.get_endpoints();
    assert_eq!((lo.num, lo.den), (2, 1));
    assert_eq!((hi.num, hi.den), (3, 1));
}

#[test]
fn interval_intersection_disjoint() {
    // [1/2, 2/3] and [3/4, 5] share no rational.
    let a = Interval::new(Frac { num: 1, den: 2 }, Frac { num: 2, den: 3 });
    let b = Interval::new(Frac { num: 3, den: 4 }, Frac { num: 5, den: 1 });
    assert!(a.intersection(&b).is_none());
}

#[test]
fn frac_compares_by_cross_multiplication() {
    let half = Frac::new(1, 2);
    let third = Frac::new(-1, -3);
    assert_eq!((third.num, third.den), (1, 3));
    assert!(third.le(&half));
    assert!(!half.le(&third));
    assert!(half.le(&half));
    let neg = Frac::new(3, -4);
    assert_eq!((neg.num, neg.den), (-3, 4));
    assert!(neg.le(&third));
}

#[test]
fn vector_operations_are_componentwise() {
    let a = Vector3::new(1, -2, 3);
    let b = Vector3::new(4, 5, -6);
    let sum = a.add(&b);
    assert_eq!((sum.x, sum.y, sum.z), (5, 3, -3));
    let diff = a.sub(&b);
    assert_eq!((diff.x, diff.y, diff.z), (-3, -7, 9));
    let scaled = a.scale(-2);
    assert_eq!((scaled.x, scaled.y, scaled.z), (-2, 4, -6));
    assert_eq!(a.dot(&b), 4 - 10 - 18);
    assert_eq!(a.norm2(), 1 + 4 + 9);
}
