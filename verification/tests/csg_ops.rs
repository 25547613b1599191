//! Composite solids: union, intersection, difference, negation and the
//! parameter broadcast, with field values in fixed-point units.

use implicit3d::bbox::BoundingBox;
use implicit3d::csg::Constant;
use implicit3d::csg::Intersection;
use implicit3d::csg::Negation;
use implicit3d::csg::Object;
use implicit3d::csg::PrimitiveParameters;
use implicit3d::csg::Union;
use implicit3d::geom::Point3;
use implicit3d::geom::Vector3;
use implicit3d::scalar::SCALE;

fn leaf(value: i64, nx: i64, ny: i64, nz: i64) -> Object {
    Object::Constant(Constant { value, normal: Vector3::new(nx, ny, nz) })
}

#[test]
fn union() {
    let m1 = leaf(1 * SCALE, SCALE, 0, 0);
    let m2 = leaf(2 * SCALE, 0, SCALE, 0);
    let union = Union::from_vec(vec![m1, m2], 0).unwrap();
    let origin = Point3::new(0, 0, 0);
    assert_eq!(union.approx_value(&origin, 0), 1 * SCALE);
    assert_eq!(union.normal(&origin), Vector3::new(SCALE, 0, 0));
}

#[test]
fn intersection() {
    let m1 = leaf(1 * SCALE, SCALE, 0, 0);
    let m2 = leaf(2 * SCALE, 0, SCALE, 0);
    let is = Intersection::from_vec(vec![m1, m2], 0).unwrap();
    let origin = Point3::new(0, 0, 0);
    assert_eq!(is.approx_value(&origin, 0), 2 * SCALE);
    assert_eq!(is.normal(&origin), Vector3::new(0, SCALE, 0));
}

#[test]
fn negation() {
    let m = leaf(1 * SCALE, SCALE, 0, 0);
    let n = Negation::from_vec(vec![m]).remove(0);
    let origin = Point3::new(0, 0, 0);
    assert_eq!(n.approx_value(&origin, 0), -1 * SCALE);
    assert_eq!(n.normal(&origin), Vector3::new(-SCALE, 0, 0));
}

#[test]
fn negation_twice_restores_the_field() {
    let m = leaf(1 * SCALE, SCALE, 0, 0);
    let reference = leaf(1 * SCALE, SCALE, 0, 0);
    let nn = Object::Negation(Negation::new(Object::Negation(Negation::new(m))));
    let p = Point3::new(3 * SCALE, -2 * SCALE, SCALE);
    assert_eq!(nn.approx_value(&p, 0), reference.approx_value(&p, 0));
    assert_eq!(nn.approx_value(&p, 0), 1 * SCALE);
}

#[test]
fn difference() {
    let a = leaf(1 * SCALE, SCALE, 0, 0);
    let b = leaf(2 * SCALE, 0, SCALE, 0);
    let d = Intersection::difference_from_vec(vec![a, b], 0).unwrap();
    let origin = Point3::new(0, 0, 0);
    // a minus b: max(a, -b) = max(1, -2) = 1.
    assert_eq!(d.approx_value(&origin, 0), 1 * SCALE);
    assert_eq!(d.normal(&origin), Vector3::new(SCALE, 0, 0));
}

#[test]
fn from_vec_degenerate_cases() {
    assert!(Union::from_vec(vec![], 0).is_none());
    assert!(Intersection::from_vec(vec![], 0).is_none());
    assert!(Intersection::difference_from_vec(vec![], 0).is_none());
    // A single input is returned unchanged, unwrapped.
    let single = Union::from_vec(vec![leaf(5 * SCALE, SCALE, 0, 0)], SCALE).unwrap();
    let origin = Point3::new(0, 0, 0);
    assert_eq!(single.approx_value(&origin, 0), 5 * SCALE);
    assert_eq!(single.normal(&origin), Vector3::new(SCALE, 0, 0));
}

#[test]
fn union_bbox_is_everywhere_for_constant_leaves() {
    let u = Union::from_vec(
        vec![leaf(1 * SCALE, SCALE, 0, 0), leaf(2 * SCALE, 0, SCALE, 0)],
        SCALE,
    )
    .unwrap();
    let far = Point3::new(i64::MAX, i64::MIN, 0);
    assert!(u.bbox().contains(&far));
}

#[test]
fn union_blends_close_values() {
    // Two fields 0.05 apart with rounding radius 1.0: the smooth minimum
    // dips below the literal minimum, but never by more than the radius.
    let u = Union::from_vec(
        vec![leaf(1 * SCALE, SCALE, 0, 0), leaf(SCALE + SCALE / 20, 0, SCALE, 0)],
        SCALE,
    )
    .unwrap();
    let v = u.approx_value(&Point3::new(0, 0, 0), 0);
    assert!(v < 1 * SCALE);
    assert!(v >= 0);
}

#[test]
fn union_normal_uses_gradient_when_surfaces_are_close() {
    // Constant fields have a zero gradient, so the blended normal of two
    // nearly tied children degenerates to the zero vector.
    let u = Union::from_vec(
        vec![leaf(1 * SCALE, SCALE, 0, 0), leaf(SCALE + SCALE / 20, 0, SCALE, 0)],
        SCALE,
    )
    .unwrap();
    assert_eq!(u.normal(&Point3::new(0, 0, 0)), Vector3::new(0, 0, 0));
}

#[test]
fn set_parameters_retunes_exact_range() {
    // Values 1.0 and 1.8 with radius 1.0: the default exact range 1.0
    // sees them as close, so the union blends below the literal minimum.
    // Broadcasting a zero multiplier shrinks the exact range to zero and
    // the union becomes the sharp minimum again.
    let mk = || {
        Union::from_vec(
            vec![leaf(1 * SCALE, SCALE, 0, 0), leaf(SCALE + 4 * SCALE / 5, 0, SCALE, 0)],
            SCALE,
        )
        .unwrap()
    };
    let origin = Point3::new(0, 0, 0);
    let before = mk();
    let v_before = before.approx_value(&origin, 0);
    assert!(v_before < 1 * SCALE);
    assert!(v_before >= 0);
    let mut after = mk();
    after.set_parameters(&PrimitiveParameters {
        r_multiplier: 0,
        fade_range: SCALE / 10,
    });
    assert_eq!(after.approx_value(&origin, 0), 1 * SCALE);
}

#[test]
fn bbox_pruning_short_circuits() {
    // A union whose cached box is the unit cube: queried far outside the
    // box with zero slack, it answers with the (conservative) box
    // distance instead of recursing into its children; with enough slack
    // it recurses and returns the children's minimum.
    let u = Object::Union(Union {
        objs: vec![leaf(-1 * SCALE, SCALE, 0, 0), leaf(-2 * SCALE, 0, SCALE, 0)],
        r: 0,
        exact_range: 0,
        fade_range: SCALE / 10,
        bbox: BoundingBox::new(&Point3::new(0, 0, 0), &Point3::new(SCALE, SCALE, SCALE)),
    });
    let far = Point3::new(3 * SCALE, SCALE / 2, SCALE / 2);
    assert_eq!(u.approx_value(&far, 0), 2 * SCALE);
    assert_eq!(u.approx_value(&far, 3 * SCALE), -2 * SCALE);
    let inside = Point3::new(SCALE / 2, SCALE / 2, SCALE / 2);
    assert_eq!(u.approx_value(&inside, 0), -2 * SCALE);
}

#[test]
fn union_normal_fades_partially() {
    // Child values 1.0 and 1.95 with exact range 1.0 and fade fraction
    // 0.1: the gap lies in the fade band [0.9, 1.0), with fader 0.5, so
    // the normal is the blend of the closest child's normal with the
    // whole-object gradient (zero for constant fields), renormalized.
    let u = Union::from_vec(
        vec![
            leaf(1 * SCALE, SCALE, 0, 0),
            leaf(SCALE + 19 * SCALE / 20, 0, SCALE, 0),
        ],
        SCALE,
    )
    .unwrap();
    assert_eq!(u.normal(&Point3::new(0, 0, 0)), Vector3::new(SCALE, 0, 0));
}

#[test]
fn intersection_blends_close_values() {
    // Dual of the union blend: the smooth maximum of two close values
    // rises above the literal maximum, but never by more than the radius.
    let is = Intersection::from_vec(
        vec![leaf(1 * SCALE, SCALE, 0, 0), leaf(SCALE - SCALE / 20, 0, SCALE, 0)],
        SCALE,
    )
    .unwrap();
    let v = is.approx_value(&Point3::new(0, 0, 0), 0);
    assert!(v > 1 * SCALE);
    assert!(v <= 2 * SCALE);
}

#[test]
fn negation_wraps_a_composite() {
    let u = Union::from_vec(
        vec![leaf(1 * SCALE, SCALE, 0, 0), leaf(2 * SCALE, 0, SCALE, 0)],
        0,
    )
    .unwrap();
    let n = Object::Negation(Negation::new(u));
    let origin = Point3::new(0, 0, 0);
    assert_eq!(n.approx_value(&origin, 0), -1 * SCALE);
    assert_eq!(n.normal(&origin), Vector3::new(-SCALE, 0, 0));
    assert!(n.bbox().contains(&Point3::new(i64::MIN, i64::MAX, 0)));
}

#[test]
fn duplicate_preserves_behaviour() {
    let u = Union::from_vec(
        vec![leaf(1 * SCALE, SCALE, 0, 0), leaf(2 * SCALE, 0, SCALE, 0)],
        SCALE / 2,
    )
    .unwrap();
    let copy = u.duplicate();
    let p = Point3::new(SCALE, SCALE, -SCALE);
    assert_eq!(u.approx_value(&p, 0), copy.approx_value(&p, 0));
    assert_eq!(u.normal(&p), copy.normal(&p));
}
