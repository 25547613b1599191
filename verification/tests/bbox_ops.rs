//! Bounding-box behaviour, with coordinates in fixed-point units
//! (1_000_000 units per 1.0).

use implicit3d::bbox::BoundingBox;
use implicit3d::geom::Point3;
use implicit3d::geom::Transform;
use implicit3d::geom::Vector3;
use implicit3d::scalar::SCALE;

#[test]
fn simple_box() {
    let bbox = BoundingBox::new(
        &Point3::new(0, 0, 0),
        &Point3::new(1 * SCALE, 2 * SCALE, 3 * SCALE),
    );
    assert!(bbox.contains(&Point3::new(0, 0, 0)));
    assert!(bbox.contains(&Point3::new(0, 1 * SCALE, 0)));
    assert!(bbox.contains(&Point3::new(1 * SCALE, 0, 1 * SCALE)));
    assert!(bbox.contains(&Point3::new(1 * SCALE, 1 * SCALE, 1 * SCALE)));
    assert!(!bbox.contains(&Point3::new(2 * SCALE, 2 * SCALE, 2 * SCALE)));
    assert!(!bbox.contains(&Point3::new(-1 * SCALE, -1 * SCALE, -1 * SCALE)));
}

#[test]
fn transform() {
    let bbox = BoundingBox::new(
        &Point3::new(0, 0, 0),
        &Point3::new(1 * SCALE, 1 * SCALE, 1 * SCALE),
    );
    // Rotation by 90 degrees about the X axis: (x, y, z) -> (x, -z, y).
    let rot = Transform {
        r0: Vector3::new(SCALE, 0, 0),
        r1: Vector3::new(0, 0, -SCALE),
        r2: Vector3::new(0, SCALE, 0),
        t: Vector3::new(0, 0, 0),
    };
    assert_eq!(
        bbox.transform(&rot),
        BoundingBox::new(
            &Point3::new(0, -1 * SCALE, 0),
            &Point3::new(1 * SCALE, 0, 1 * SCALE),
        )
    );
    // Translation by (1, 2, 3).
    let tr = Transform {
        r0: Vector3::new(SCALE, 0, 0),
        r1: Vector3::new(0, SCALE, 0),
        r2: Vector3::new(0, 0, SCALE),
        t: Vector3::new(1 * SCALE, 2 * SCALE, 3 * SCALE),
    };
    assert_eq!(
        bbox.transform(&tr),
        BoundingBox::new(
            &Point3::new(1 * SCALE, 2 * SCALE, 3 * SCALE),
            &Point3::new(2 * SCALE, 3 * SCALE, 4 * SCALE),
        )
    );
}

#[test]
fn boolean() {
    let bbox1 = BoundingBox::new(
        &Point3::new(0, 0, 0),
        &Point3::new(4 * SCALE, 8 * SCALE, 16 * SCALE),
    );
    let bbox2 = BoundingBox::new(
        &Point3::new(2 * SCALE, 2 * SCALE, 2 * SCALE),
        &Point3::new(16 * SCALE, 4 * SCALE, 8 * SCALE),
    );
    assert_eq!(
        bbox1.union(&bbox2),
        BoundingBox::new(
            &Point3::new(0, 0, 0),
            &Point3::new(16 * SCALE, 8 * SCALE, 16 * SCALE),
        )
    );
    assert_eq!(
        bbox1.intersection(&bbox2),
        BoundingBox::new(
            &Point3::new(2 * SCALE, 2 * SCALE, 2 * SCALE),
            &Point3::new(4 * SCALE, 4 * SCALE, 8 * SCALE),
        )
    );
}

#[test]
fn dilate() {
    let mut bbox = BoundingBox::new(
        &Point3::new(0, 0, 0),
        &Point3::new(1 * SCALE, 1 * SCALE, 1 * SCALE),
    );
    bbox.dilate(SCALE / 10);
    assert_eq!(
        bbox,
        BoundingBox::new(
            &Point3::new(-SCALE / 10, -SCALE / 10, -SCALE / 10),
            &Point3::new(SCALE + SCALE / 10, SCALE + SCALE / 10, SCALE + SCALE / 10),
        )
    );
    bbox.dilate(-SCALE / 2);
    assert_eq!(
        bbox,
        BoundingBox::new(
            &Point3::new(2 * SCALE / 5, 2 * SCALE / 5, 2 * SCALE / 5),
            &Point3::new(3 * SCALE / 5, 3 * SCALE / 5, 3 * SCALE / 5),
        )
    );
}

#[test]
fn union_contains_either_operand_point() {
    let a = BoundingBox::new(&Point3::new(0, 0, 0), &Point3::new(SCALE, SCALE, SCALE));
    let b = BoundingBox::new(
        &Point3::new(3 * SCALE, 3 * SCALE, 3 * SCALE),
        &Point3::new(4 * SCALE, 4 * SCALE, 4 * SCALE),
    );
    let u = a.union(&b);
    let pa = Point3::new(SCALE / 2, SCALE / 2, SCALE / 2);
    let pb = Point3::new(7 * SCALE / 2, 7 * SCALE / 2, 7 * SCALE / 2);
    assert!(a.contains(&pa) && !b.contains(&pa) && u.contains(&pa));
    assert!(b.contains(&pb) && !a.contains(&pb) && u.contains(&pb));
}

#[test]
fn intersection_contains_iff_both() {
    let a = BoundingBox::new(&Point3::new(0, 0, 0), &Point3::new(2 * SCALE, 2 * SCALE, 2 * SCALE));
    let b = BoundingBox::new(
        &Point3::new(SCALE, SCALE, SCALE),
        &Point3::new(3 * SCALE, 3 * SCALE, 3 * SCALE),
    );
    let i = a.intersection(&b);
    let inside_both = Point3::new(3 * SCALE / 2, 3 * SCALE / 2, 3 * SCALE / 2);
    let only_a = Point3::new(SCALE / 2, SCALE / 2, SCALE / 2);
    let only_b = Point3::new(5 * SCALE / 2, 5 * SCALE / 2, 5 * SCALE / 2);
    assert!(i.contains(&inside_both));
    assert!(!i.contains(&only_a));
    assert!(!i.contains(&only_b));
}

#[test]
fn distance_sign_matches_containment() {
    let b = BoundingBox::new(&Point3::new(0, 0, 0), &Point3::new(SCALE, SCALE, SCALE));
    // Inside: negative, bounded by the nearest face.
    assert_eq!(b.distance(&Point3::new(SCALE / 2, SCALE / 2, SCALE / 2)), -SCALE / 2);
    // On the surface: zero.
    assert_eq!(b.distance(&Point3::new(SCALE, SCALE / 2, SCALE / 2)), 0);
    // Outside along an axis: the exact axis distance.
    assert_eq!(b.distance(&Point3::new(2 * SCALE, SCALE / 2, SCALE / 2)), SCALE);
    // Outside at a corner: an underestimate of the Euclidean distance.
    let d = b.distance(&Point3::new(2 * SCALE, 2 * SCALE, 2 * SCALE));
    assert_eq!(d, SCALE);
}

#[test]
fn insert_and_dim() {
    let mut b = BoundingBox::new(&Point3::new(0, 0, 0), &Point3::new(SCALE, SCALE, SCALE));
    b.insert(&Point3::new(2 * SCALE, -1 * SCALE, SCALE / 2));
    assert_eq!(
        b,
        BoundingBox::new(
            &Point3::new(0, -1 * SCALE, 0),
            &Point3::new(2 * SCALE, SCALE, SCALE),
        )
    );
    let d = b.dim();
    assert_eq!((d.x, d.y, d.z), (2 * SCALE, 2 * SCALE, SCALE));
}

#[test]
fn sentinel_boxes() {
    let everywhere = BoundingBox::infinity();
    let nowhere = BoundingBox::neg_infinity();
    let p = Point3::new(123, -456, 789);
    assert!(everywhere.contains(&p));
    assert!(!nowhere.contains(&p));
    // The sentinels are the identities of intersection and union.
    let b = BoundingBox::new(&Point3::new(0, 0, 0), &Point3::new(SCALE, SCALE, SCALE));
    assert_eq!(everywhere.intersection(&b), b);
    assert_eq!(nowhere.union(&b), b);
}

#[test]
fn abs_diff_eq_tolerance() {
    let a = BoundingBox::new(&Point3::new(0, 0, 0), &Point3::new(SCALE, SCALE, SCALE));
    let b = BoundingBox::new(&Point3::new(3, -2, 1), &Point3::new(SCALE + 4, SCALE, SCALE - 5));
    assert!(a.abs_diff_eq(&b, 5));
    assert!(!a.abs_diff_eq(&b, 4));
    assert!(a.abs_diff_eq(&a, 0));
}
