//! CSG composite solids.
//!
//! A solid is an [`Object`]: a constant-field leaf, a smooth union, a
//! smooth intersection, or a negation.  Every solid answers the same four
//! queries — field value with slack, bounding box, surface normal, and
//! parameter broadcast — and composites answer them by combining their
//! children through the smooth blends of [`crate::blend`], pruned by the
//! bounding boxes of [`crate::bbox`].
//!
//! The field convention is signed-distance style: negative inside, zero on
//! the surface, positive outside.  Union therefore takes the smooth
//! minimum of its children, intersection the smooth maximum, and negation
//! flips the sign.

use vstd::prelude::*;

use crate::bbox::BoundingBox;
use crate::bbox::spec_distance;
use crate::blend::MAX_TERMS;
use crate::blend::rvmax;
use crate::blend::rvmin;
use crate::blend::spec_rvmax;
use crate::blend::spec_rvmin;
use crate::geom::Point3;
use crate::geom::Vector3;
use crate::scalar::SCALE;
use crate::scalar::clip;
use crate::scalar::sat_add;
use crate::scalar::sat_neg;

verus! {

/// Default fraction of the smoothing range over which normals fade.
pub const FADE_RANGE: i64 = 100_000;

/// Default factor from the rounding radius to the exact range.
pub const R_MULTIPLIER: i64 = 1_000_000;

/// The slack that forces exact field evaluation.
pub const ALWAYS_PRECISE: i64 = 0;

/// Finite-difference step of the gradient estimate.
pub const NORMAL_EPS: i64 = 100;

/// Configuration broadcast through an object tree by `set_parameters`:
/// retunes the cached `exact_range` (as `r * r_multiplier`) and the normal
/// fade fraction without rebuilding the tree.
#[derive(Clone, Copy, Debug, PartialEq, Eq, Structural)]
pub struct PrimitiveParameters {
    /// Factor from each composite's rounding radius to its exact range.
    pub r_multiplier: i64,
    /// Fraction of the exact range over which normals fade, in `[0, 1]`.
    pub fade_range: i64,
}

/// A leaf solid with a constant field value and a constant normal
/// everywhere; its bounding box is the everywhere box.  Real leaf shapes
/// are supplied by callers through this same interface.
#[derive(Clone, Copy, Debug)]
pub struct Constant {
    /// The field value returned at every point.
    pub value: i64,
    /// The normal returned at every point.
    pub normal: Vector3,
}

/// A smooth union: the field is the smooth minimum of the children's
/// fields, rounded with radius `r`.
#[derive(Debug)]
pub struct Union {
    /// The children; built by `from_vec`, at least two.
    pub objs: Vec<Object>,
    /// Rounding radius of the smooth blend.
    pub r: i64,
    /// Distance within which two child surfaces count as close.
    pub exact_range: i64,
    /// Fraction of `exact_range` over which normals fade.
    pub fade_range: i64,
    /// Cached conservative bounding box.
    pub bbox: BoundingBox,
}

/// A smooth intersection: the field is the smooth maximum of the
/// children's fields, rounded with radius `r`.
#[derive(Debug)]
pub struct Intersection {
    /// The children; built by `from_vec`, at least two.
    pub objs: Vec<Object>,
    /// Rounding radius of the smooth blend.
    pub r: i64,
    /// Distance within which two child surfaces count as close.
    pub exact_range: i64,
    /// Fraction of `exact_range` over which normals fade.
    pub fade_range: i64,
    /// Cached conservative bounding box.
    pub bbox: BoundingBox,
}

/// A negation: the child's field with the sign flipped.  Its bounding box
/// is the everywhere box, since the complement of a bounded solid is
/// unbounded.
#[derive(Debug)]
pub struct Negation {
    /// The wrapped child.
    pub object: Box<Object>,
}

/// A solid: a leaf or a composite.  This closed set of variants is the
/// object capability every solid implements.  Deep copies come from
/// [`Object::duplicate`], whose contract guarantees an identical tree.
#[derive(Debug)]
pub enum Object {
    /// A constant-field leaf.
    Constant(Constant),
    /// A smooth union of children.
    Union(Union),
    /// A smooth intersection of children.
    Intersection(Intersection),
    /// A sign-flipped child.
    Negation(Negation),
}

/// Well-formedness of a solid: composites hold between 2 and `MAX_TERMS`
/// children, their radius and exact range are non-negative, their fade
/// fraction lies in `[0, 1]`, and all children are well formed.
pub open spec fn spec_wf(o: Object) -> bool
    decreases o,
{
    match o {
        Object::Constant(_) => true,
        Object::Union(u) => {
            &&& 2 <= u.objs@.len() <= MAX_TERMS
            &&& u.r >= 0
            &&& u.exact_range >= 0
            &&& 0 <= u.fade_range <= SCALE
            &&& spec_wf_all(u.objs@)
        },
        Object::Intersection(s) => {
            &&& 2 <= s.objs@.len() <= MAX_TERMS
            &&& s.r >= 0
            &&& s.exact_range >= 0
            &&& 0 <= s.fade_range <= SCALE
            &&& spec_wf_all(s.objs@)
        },
        Object::Negation(n) => spec_wf(*n.object),
    }
}

/// Well-formedness of a sequence of solids.
pub open spec fn spec_wf_all(s: Seq<Object>) -> bool
    decreases s,
{
    if s.len() == 0 {
        true
    } else {
        spec_wf(s.last()) && spec_wf_all(s.drop_last())
    }
}

/// Every element of a well-formed sequence is well formed.
pub proof fn lemma_wf_all_index(s: Seq<Object>, i: int)
    requires
        spec_wf_all(s),
        0 <= i < s.len(),
    ensures
        spec_wf(s[i]),
    decreases s.len(),
{
    if i < s.len() - 1 {
        lemma_wf_all_index(s.drop_last(), i);
    }
}

/// The cached bounding box of a solid.  Leaves and negations occupy the
/// everywhere box; composites carry the box computed at construction.
pub open spec fn spec_bbox(o: Object) -> BoundingBox {
    match o {
        Object::Constant(_) => BoundingBox {
            min: Point3 { x: i64::MIN, y: i64::MIN, z: i64::MIN },
            max: Point3 { x: i64::MAX, y: i64::MAX, z: i64::MAX },
        },
        Object::Union(u) => u.bbox,
        Object::Intersection(s) => s.bbox,
        Object::Negation(_) => BoundingBox {
            min: Point3 { x: i64::MIN, y: i64::MIN, z: i64::MIN },
            max: Point3 { x: i64::MAX, y: i64::MAX, z: i64::MAX },
        },
    }
}

/// The field value of a solid at `p` under `slack`: exact while the
/// point is within `slack` of the cached box, otherwise the box distance
/// itself as a conservative answer.  Composites evaluate every child with
/// the slack widened by `r` and blend with the smooth minimum (union) or
/// maximum (intersection); negation flips the sign.
pub open spec fn spec_approx_value(o: Object, p: Point3, slack: i64) -> int
    decreases o,
{
    match o {
        Object::Constant(c) => c.value as int,
        Object::Union(u) => {
            let approx = spec_distance(u.bbox, p);
            if approx <= slack as int {
                spec_rvmin(
                    spec_child_values(u.objs@, p, clip(slack + u.r) as i64),
                    u.r,
                    u.exact_range,
                )
            } else {
                approx
            }
        },
        Object::Intersection(s) => {
            let approx = spec_distance(s.bbox, p);
            if approx <= slack as int {
                spec_rvmax(
                    spec_child_values(s.objs@, p, clip(slack + s.r) as i64),
                    s.r,
                    s.exact_range,
                )
            } else {
                approx
            }
        },
        Object::Negation(n) => clip(-spec_approx_value(*n.object, p, slack)),
    }
}

/// The children's field values, in order.
pub open spec fn spec_child_values(s: Seq<Object>, p: Point3, slack: i64) -> Seq<i64>
    decreases s,
{
    if s.len() == 0 {
        Seq::empty()
    } else {
        spec_child_values(s.drop_last(), p, slack)
            .push(clip(spec_approx_value(s.last(), p, slack)) as i64)
    }
}

impl Object {
    /// The cached, conservative bounding box of this solid.
    pub fn bbox(&self) -> (r: BoundingBox)
        ensures
            r == spec_bbox(*self),
    {
        match self {
            Object::Constant(_) => BoundingBox::infinity(),
            Object::Union(u) => u.bbox,
            Object::Intersection(s) => s.bbox,
            Object::Negation(_) => BoundingBox::infinity(),
        }
    }

    /// The field value at `p`, exact or conservative under `slack`; see
    /// [`spec_approx_value`].  Callers that need the exact value pass a
    /// slack of zero (or [`ALWAYS_PRECISE`]).
    pub fn approx_value(&self, p: &Point3, slack: i64) -> (r: i64)
        requires
            spec_wf(*self),
        ensures
            r as int == spec_approx_value(*self, *p, slack),
        decreases *self,
    {
        match self {
            Object::Constant(c) => c.value,
            Object::Union(u) => {
                let approx: i64 = u.bbox.distance(p);
                if approx <= slack {
                    let child_slack: i64 = sat_add(slack, u.r);
                    let vals: Vec<i64> = eval_children(&u.objs, p, child_slack);
                    rvmin(&vals, u.r, u.exact_range)
                } else {
                    approx
                }
            },
            Object::Intersection(s) => {
                let approx: i64 = s.bbox.distance(p);
                if approx <= slack {
                    let child_slack: i64 = sat_add(slack, s.r);
                    let vals: Vec<i64> = eval_children(&s.objs, p, child_slack);
                    rvmax(&vals, s.r, s.exact_range)
                } else {
                    approx
                }
            },
            Object::Negation(n) => {
                let v: i64 = n.object.approx_value(p, slack);
                sat_neg(v)
            },
        }
    }
}

/// Headroom factor for the union box: the smooth blend can bulge the
/// surface slightly beyond a sharp union, so the box is dilated by
/// `0.2 * r`.
pub const DILATE_FACTOR: i64 = 200_000;

/// The nowhere box, the identity of box union.
pub open spec fn spec_nowhere() -> BoundingBox {
    BoundingBox {
        min: Point3 { x: i64::MAX, y: i64::MAX, z: i64::MAX },
        max: Point3 { x: i64::MIN, y: i64::MIN, z: i64::MIN },
    }
}

/// The everywhere box, the identity of box intersection.
pub open spec fn spec_everywhere() -> BoundingBox {
    BoundingBox {
        min: Point3 { x: i64::MIN, y: i64::MIN, z: i64::MIN },
        max: Point3 { x: i64::MAX, y: i64::MAX, z: i64::MAX },
    }
}

/// The union of the children's boxes, folded left to right from the
/// nowhere box.
pub open spec fn spec_boxes_union(s: Seq<Object>) -> BoundingBox
    decreases s,
{
    if s.len() == 0 {
        spec_nowhere()
    } else {
        crate::bbox::spec_union(spec_boxes_union(s.drop_last()), spec_bbox(s.last()))
    }
}

/// The intersection of the children's boxes, folded left to right from
/// the everywhere box.
pub open spec fn spec_boxes_intersection(s: Seq<Object>) -> BoundingBox
    decreases s,
{
    if s.len() == 0 {
        spec_everywhere()
    } else {
        crate::bbox::spec_intersection(
            spec_boxes_intersection(s.drop_last()), spec_bbox(s.last()))
    }
}

/// Fold the union of all children's boxes.
fn fold_boxes_union(objs: &Vec<Object>) -> (r: BoundingBox)
    ensures
        r == spec_boxes_union(objs@),
{
    let n: usize = objs.len();
    let mut bb: BoundingBox = BoundingBox::neg_infinity();
    let mut i: usize = 0;
    while i < n
        invariant
            0 <= i <= n,
            n == objs@.len(),
            bb == spec_boxes_union(objs@.take(i as int)),
        decreases n - i,
    {
        proof {
            assert(objs@.take(i as int + 1).drop_last() =~= objs@.take(i as int));
            assert(objs@.take(i as int + 1).last() == objs@[i as int]);
        }
        let cb: BoundingBox = objs[i].bbox();
        bb = bb.union(&cb);
        i = i + 1;
    }
    proof {
        assert(objs@.take(n as int) =~= objs@);
    }
    bb
}

/// Fold the intersection of all children's boxes.
fn fold_boxes_intersection(objs: &Vec<Object>) -> (r: BoundingBox)
    ensures
        r == spec_boxes_intersection(objs@),
{
    let n: usize = objs.len();
    let mut bb: BoundingBox = BoundingBox::infinity();
    let mut i: usize = 0;
    while i < n
        invariant
            0 <= i <= n,
            n == objs@.len(),
            bb == spec_boxes_intersection(objs@.take(i as int)),
        decreases n - i,
    {
        proof {
            assert(objs@.take(i as int + 1).drop_last() =~= objs@.take(i as int));
            assert(objs@.take(i as int + 1).last() == objs@[i as int]);
        }
        let cb: BoundingBox = objs[i].bbox();
        bb = bb.intersection(&cb);
        i = i + 1;
    }
    proof {
        assert(objs@.take(n as int) =~= objs@);
    }
    bb
}

impl Union {
    /// Build a union of all the solids in `v`, rounded with radius `r` if
    /// `r > 0`.  An empty input yields no object; a single input is
    /// returned unchanged, unwrapped.  Otherwise the cached box is the
    /// union of all children's boxes dilated by `0.2 * r`, and the exact
    /// range starts as `r` times the default multiplier.
    pub fn from_vec(v: Vec<Object>, r: i64) -> (res: Option<Object>)
        requires
            r >= 0,
            v@.len() <= MAX_TERMS,
            spec_wf_all(v@),
        ensures
            res is None <==> v@.len() == 0,
            v@.len() == 1 ==> res == Some(v@[0]),
            v@.len() >= 2 ==> (res matches Some(o) && o matches Object::Union(u)
                && u.objs@ == v@
                && u.r == r
                && u.exact_range as int == clip((r * R_MULTIPLIER) / (SCALE as int))
                && u.fade_range == FADE_RANGE
                && u.bbox == crate::bbox::spec_dilate(
                    spec_boxes_union(v@),
                    clip((r * DILATE_FACTOR) / (SCALE as int)) as i64)
                && spec_wf(o)),
            res matches Some(o) ==> spec_wf(o),
    {
        let mut v = v;
        let ghost orig: Seq<Object> = v@;
        if v.len() == 0 {
            None
        } else if v.len() == 1 {
            let o: Object = v.remove(0);
            proof {
                lemma_wf_all_index(orig, 0);
            }
            Some(o)
        } else {
            let mut bb: BoundingBox = fold_boxes_union(&v);
            bb.dilate(crate::scalar::mul_scale(r, DILATE_FACTOR));
            let er: i64 = crate::scalar::mul_scale(r, R_MULTIPLIER);
            proof {
                vstd::arithmetic::div_mod::lemma_div_pos_is_pos(
                    (r as int) * (R_MULTIPLIER as int), SCALE as int);
                assert((r as int) * (R_MULTIPLIER as int) >= 0) by (nonlinear_arith)
                    requires r >= 0;
            }
            Some(Object::Union(Union {
                objs: v,
                r,
                exact_range: er,
                fade_range: FADE_RANGE,
                bbox: bb,
            }))
        }
    }
}

impl Intersection {
    /// Build an intersection of the solids in `v`, rounded with radius
    /// `r` if `r > 0`.  Degenerate cases mirror `Union::from_vec`; the
    /// cached box is the intersection of the children's boxes, with no
    /// dilation, since intersections only shrink.
    pub fn from_vec(v: Vec<Object>, r: i64) -> (res: Option<Object>)
        requires
            r >= 0,
            v@.len() <= MAX_TERMS,
            spec_wf_all(v@),
        ensures
            res is None <==> v@.len() == 0,
            v@.len() == 1 ==> res == Some(v@[0]),
            v@.len() >= 2 ==> (res matches Some(o) && o matches Object::Intersection(s)
                && s.objs@ == v@
                && s.r == r
                && s.exact_range as int == clip((r * R_MULTIPLIER) / (SCALE as int))
                && s.fade_range == FADE_RANGE
                && s.bbox == spec_boxes_intersection(v@)
                && spec_wf(o)),
            res matches Some(o) ==> spec_wf(o),
    {
        let mut v = v;
        let ghost orig: Seq<Object> = v@;
        if v.len() == 0 {
            None
        } else if v.len() == 1 {
            let o: Object = v.remove(0);
            proof {
                lemma_wf_all_index(orig, 0);
            }
            Some(o)
        } else {
            let bb: BoundingBox = fold_boxes_intersection(&v);
            let er: i64 = crate::scalar::mul_scale(r, R_MULTIPLIER);
            proof {
                vstd::arithmetic::div_mod::lemma_div_pos_is_pos(
                    (r as int) * (R_MULTIPLIER as int), SCALE as int);
                assert((r as int) * (R_MULTIPLIER as int) >= 0) by (nonlinear_arith)
                    requires r >= 0;
            }
            Some(Object::Intersection(Intersection {
                objs: v,
                r,
                exact_range: er,
                fade_range: FADE_RANGE,
                bbox: bb,
            }))
        }
    }

    /// Build the difference `v[0]` minus all the other solids, as the
    /// intersection of `v[0]` with the negation of each of the rest,
    /// rounded with radius `r` if `r > 0`.  Degenerate cases mirror
    /// `Union::from_vec`.
    pub fn difference_from_vec(v: Vec<Object>, r: i64) -> (res: Option<Object>)
        requires
            r >= 0,
            v@.len() <= MAX_TERMS,
            spec_wf_all(v@),
        ensures
            res is None <==> v@.len() == 0,
            v@.len() == 1 ==> res == Some(v@[0]),
            v@.len() >= 2 ==> (res matches Some(o) && o matches Object::Intersection(s)
                && s.objs@.len() == v@.len()
                && s.objs@[0] == v@[0]
                && (forall|i: int| 1 <= i < v@.len()
                    ==> (#[trigger] s.objs@[i] matches Object::Negation(n)
                        && n.object == v@[i]))
                && s.r == r
                && s.exact_range as int == clip((r * R_MULTIPLIER) / (SCALE as int))
                && s.fade_range == FADE_RANGE
                && s.bbox == spec_boxes_intersection(s.objs@)
                && spec_wf(o)),
            res matches Some(o) ==> spec_wf(o),
    {
        let mut v = v;
        let ghost orig: Seq<Object> = v@;
        if v.len() == 0 {
            None
        } else if v.len() == 1 {
            let o: Object = v.remove(0);
            proof {
                lemma_wf_all_index(orig, 0);
            }
            Some(o)
        } else {
            let first: Object = v.remove(0);
            let rest: Vec<Object> = v;
            proof {
                lemma_wf_all_index(orig, 0);
                assert(rest@ =~= orig.skip(1));
                assert forall|i: int| 0 <= i < rest@.len()
                    implies spec_wf(#[trigger] rest@[i]) by {
                    lemma_wf_all_index(orig, i + 1);
                }
            }
            let neg_rest: Vec<Object> = Negation::from_vec(rest);
            let mut w: Vec<Object> = Vec::new();
            w.push(first);
            let mut neg_rest = neg_rest;
            let ghost negs: Seq<Object> = neg_rest@;
            let n: usize = neg_rest.len();
            let mut i: usize = 0;
            while i < n
                invariant
                    0 <= i <= n,
                    n == negs.len(),
                    neg_rest@ == negs.skip(i as int),
                    w@.len() == i + 1,
                    w@[0] == orig[0],
                    forall|k: int| 1 <= k <= i ==> w@[k] == negs[k - 1],
                decreases n - i,
            {
                let x: Object = neg_rest.remove(0);
                proof {
                    assert(negs.skip(i as int).remove(0) =~= negs.skip(i as int + 1));
                    assert(negs.skip(i as int)[0] == negs[i as int]);
                }
                w.push(x);
                i = i + 1;
            }
            proof {
                assert(w@.len() == orig.len());
                assert(forall|k: int| 1 <= k < w@.len()
                    ==> #[trigger] w@[k] == negs[k - 1]);
                assert forall|k: int| 0 <= k < w@.len()
                    implies spec_wf(#[trigger] w@[k]) by {
                    if k == 0 {
                        lemma_wf_all_index(orig, 0);
                    } else {
                        assert(w@[k] == negs[k - 1]);
                    }
                }
                lemma_wf_all_build(w@);
            }
            Intersection::from_vec(w, r)
        }
    }
}

impl Negation {
    /// Wrap a solid so that its field changes sign.
    pub fn new(o: Object) -> (r: Negation)
        ensures
            r.object == o,
    {
        Negation { object: Box::new(o) }
    }

    /// Wrap each solid of `v` in its own negation; used by difference.
    pub fn from_vec(v: Vec<Object>) -> (r: Vec<Object>)
        requires
            forall|i: int| 0 <= i < v@.len() ==> spec_wf(#[trigger] v@[i]),
        ensures
            r@.len() == v@.len(),
            forall|i: int| 0 <= i < v@.len()
                ==> (#[trigger] r@[i] matches Object::Negation(n) && n.object == v@[i]),
            forall|i: int| 0 <= i < r@.len() ==> spec_wf(#[trigger] r@[i]),
    {
        let mut v = v;
        let ghost src: Seq<Object> = v@;
        let n: usize = v.len();
        let mut out: Vec<Object> = Vec::new();
        let mut i: usize = 0;
        while i < n
            invariant
                0 <= i <= n,
                n == src.len(),
                v@ == src.skip(i as int),
                out@.len() == i,
                forall|k: int| 0 <= k < i
                    ==> (#[trigger] out@[k] matches Object::Negation(m) && m.object == src[k]),
                forall|k: int| 0 <= k < src.len() ==> spec_wf(#[trigger] src[k]),
                forall|k: int| 0 <= k < i ==> spec_wf(#[trigger] out@[k]),
            decreases n - i,
        {
            let x: Object = v.remove(0);
            proof {
                assert(src.skip(i as int).remove(0) =~= src.skip(i as int + 1));
                assert(src.skip(i as int)[0] == src[i as int]);
            }
            let w: Negation = Negation::new(x);
            out.push(Object::Negation(w));
            i = i + 1;
        }
        out
    }
}

/// Pointwise well-formedness of a sequence gives `spec_wf_all`.
pub proof fn lemma_wf_all_build(s: Seq<Object>)
    requires
        forall|i: int| 0 <= i < s.len() ==> spec_wf(#[trigger] s[i]),
    ensures
        spec_wf_all(s),
    decreases s.len(),
{
    if s.len() > 0 {
        assert(forall|i: int| 0 <= i < s.drop_last().len()
            ==> #[trigger] s.drop_last()[i] == s[i]);
        lemma_wf_all_build(s.drop_last());
    }
}

/// The two smallest values of `vals` with their indices, found by a
/// left-to-right fold: `((idx0, v0), (idx1, v1))` with `v0 <= v1`.
pub open spec fn spec_two_min(vals: Seq<i64>) -> ((int, int), (int, int))
    decreases vals.len(),
{
    if vals.len() == 0 {
        ((0, i64::MAX as int), (0, i64::MAX as int))
    } else {
        let prev = spec_two_min(vals.drop_last());
        let t = vals.last() as int;
        let idx = vals.len() - 1;
        if t < prev.0.1 {
            ((idx as int, t), prev.0)
        } else if t < prev.1.1 {
            (prev.0, (idx as int, t))
        } else {
            prev
        }
    }
}

/// The two largest values of `vals` with their indices, dual to
/// [`spec_two_min`].
pub open spec fn spec_two_max(vals: Seq<i64>) -> ((int, int), (int, int))
    decreases vals.len(),
{
    if vals.len() == 0 {
        ((0, i64::MIN as int), (0, i64::MIN as int))
    } else {
        let prev = spec_two_max(vals.drop_last());
        let t = vals.last() as int;
        let idx = vals.len() - 1;
        if t > prev.0.1 {
            ((idx as int, t), prev.0)
        } else if t > prev.1.1 {
            (prev.0, (idx as int, t))
        } else {
            prev
        }
    }
}

/// Both selected indices stay inside the sequence (index 0 for an empty
/// one).
pub proof fn lemma_two_min_bounds(vals: Seq<i64>)
    ensures
        0 <= spec_two_min(vals).0.0,
        0 <= spec_two_min(vals).1.0,
        vals.len() > 0 ==> spec_two_min(vals).0.0 < vals.len(),
        vals.len() > 0 ==> spec_two_min(vals).1.0 < vals.len(),
        vals.len() == 0 ==> spec_two_min(vals).0.0 == 0 && spec_two_min(vals).1.0 == 0,
        spec_two_min(vals).0.1 <= spec_two_min(vals).1.1,
    decreases vals.len(),
{
    if vals.len() > 0 {
        lemma_two_min_bounds(vals.drop_last());
    }
}

/// Dual of [`lemma_two_min_bounds`].
pub proof fn lemma_two_max_bounds(vals: Seq<i64>)
    ensures
        0 <= spec_two_max(vals).0.0,
        0 <= spec_two_max(vals).1.0,
        vals.len() > 0 ==> spec_two_max(vals).0.0 < vals.len(),
        vals.len() > 0 ==> spec_two_max(vals).1.0 < vals.len(),
        vals.len() == 0 ==> spec_two_max(vals).0.0 == 0 && spec_two_max(vals).1.0 == 0,
        spec_two_max(vals).0.1 >= spec_two_max(vals).1.1,
    decreases vals.len(),
{
    if vals.len() > 0 {
        lemma_two_max_bounds(vals.drop_last());
    }
}

/// The finite-difference gradient estimate: the field is sampled a small
/// step along each axis on both sides of `p` and the difference vector is
/// normalized.
pub open spec fn spec_normal_from_object(o: Object, p: Point3) -> Vector3 {
    let xp = spec_approx_value(o,
        Point3 { x: clip(p.x + NORMAL_EPS) as i64, y: p.y, z: p.z }, ALWAYS_PRECISE);
    let xm = spec_approx_value(o,
        Point3 { x: clip(p.x - NORMAL_EPS) as i64, y: p.y, z: p.z }, ALWAYS_PRECISE);
    let yp = spec_approx_value(o,
        Point3 { x: p.x, y: clip(p.y + NORMAL_EPS) as i64, z: p.z }, ALWAYS_PRECISE);
    let ym = spec_approx_value(o,
        Point3 { x: p.x, y: clip(p.y - NORMAL_EPS) as i64, z: p.z }, ALWAYS_PRECISE);
    let zp = spec_approx_value(o,
        Point3 { x: p.x, y: p.y, z: clip(p.z + NORMAL_EPS) as i64 }, ALWAYS_PRECISE);
    let zm = spec_approx_value(o,
        Point3 { x: p.x, y: p.y, z: clip(p.z - NORMAL_EPS) as i64 }, ALWAYS_PRECISE);
    crate::geom::spec_normalize(Vector3 {
        x: clip(xp - xm) as i64,
        y: clip(yp - ym) as i64,
        z: clip(zp - zm) as i64,
    })
}

/// The normal fade decision shared by union and intersection: `diff` is
/// the gap between the two extremal child values.  Close surfaces take
/// the whole-object gradient; a middle band blends it with the extremal
/// child's own normal by `fader`; far-apart surfaces take the child's
/// normal directly.
pub open spec fn spec_fade_normal(
    o: Object,
    objs: Seq<Object>,
    i0: int,
    diff: int,
    exact_range: i64,
    fade_range: i64,
    p: Point3,
) -> Vector3
    decreases objs, 1int,
{
    let th = clip((exact_range * clip(SCALE - fade_range)) / (SCALE as int));
    if objs.len() == 0 {
        Vector3 { x: 0, y: 0, z: 0 }
    } else {
        let k = if 0 <= i0 < objs.len() { i0 } else { 0 };
        if diff < th {
            spec_normal_from_object(o, p)
        } else if diff < exact_range as int {
            let q = clip((diff * SCALE) / (exact_range as int));
            let num = clip(clip(q - SCALE) + fade_range);
            let fader = clip((num * SCALE) / (fade_range as int));
            let cn = spec_normal(objs[k], p);
            let fo = spec_normal_from_object(o, p);
            crate::geom::spec_normalize(Vector3 {
                x: clip(clip((cn.x * fader) / (SCALE as int))
                    + clip((fo.x * clip(SCALE - fader)) / (SCALE as int))) as i64,
                y: clip(clip((cn.y * fader) / (SCALE as int))
                    + clip((fo.y * clip(SCALE - fader)) / (SCALE as int))) as i64,
                z: clip(clip((cn.z * fader) / (SCALE as int))
                    + clip((fo.z * clip(SCALE - fader)) / (SCALE as int))) as i64,
            })
        } else {
            spec_normal(objs[k], p)
        }
    }
}

/// The outward surface normal estimate of a solid at `p`.  A union fades
/// between the gradient of the whole object and the normal of the child
/// with the smallest field value; an intersection does the same with the
/// largest; negation flips the child's normal.
pub open spec fn spec_normal(o: Object, p: Point3) -> Vector3
    decreases o, 2int,
{
    match o {
        Object::Constant(c) => c.normal,
        Object::Union(u) => {
            let vals = spec_child_values(u.objs@, p, ALWAYS_PRECISE);
            let tm = spec_two_min(vals);
            let diff = clip(tm.1.1 - tm.0.1);
            spec_fade_normal(o, u.objs@, tm.0.0, diff, u.exact_range, u.fade_range, p)
        },
        Object::Intersection(s) => {
            let vals = spec_child_values(s.objs@, p, ALWAYS_PRECISE);
            let tm = spec_two_max(vals);
            let diff = clip(tm.0.1 - tm.1.1);
            spec_fade_normal(o, s.objs@, tm.0.0, diff, s.exact_range, s.fade_range, p)
        },
        Object::Negation(n) => {
            let cn = spec_normal(*n.object, p);
            Vector3 {
                x: clip(-(cn.x as int)) as i64,
                y: clip(-(cn.y as int)) as i64,
                z: clip(-(cn.z as int)) as i64,
            }
        },
    }
}

/// Estimate the outward normal of `o` near `p` from finite differences
/// of the field; see [`spec_normal_from_object`].
pub fn normal_from_object(o: &Object, p: &Point3) -> (r: Vector3)
    requires
        spec_wf(*o),
    ensures
        r == spec_normal_from_object(*o, *p),
{
    let xp: i64 = o.approx_value(
        &Point3 { x: sat_add(p.x, NORMAL_EPS), y: p.y, z: p.z }, ALWAYS_PRECISE);
    let xm: i64 = o.approx_value(
        &Point3 { x: crate::scalar::sat_sub(p.x, NORMAL_EPS), y: p.y, z: p.z },
        ALWAYS_PRECISE);
    let yp: i64 = o.approx_value(
        &Point3 { x: p.x, y: sat_add(p.y, NORMAL_EPS), z: p.z }, ALWAYS_PRECISE);
    let ym: i64 = o.approx_value(
        &Point3 { x: p.x, y: crate::scalar::sat_sub(p.y, NORMAL_EPS), z: p.z },
        ALWAYS_PRECISE);
    let zp: i64 = o.approx_value(
        &Point3 { x: p.x, y: p.y, z: sat_add(p.z, NORMAL_EPS) }, ALWAYS_PRECISE);
    let zm: i64 = o.approx_value(
        &Point3 { x: p.x, y: p.y, z: crate::scalar::sat_sub(p.z, NORMAL_EPS) },
        ALWAYS_PRECISE);
    crate::geom::normalize(&Vector3 {
        x: crate::scalar::sat_sub(xp, xm),
        y: crate::scalar::sat_sub(yp, ym),
        z: crate::scalar::sat_sub(zp, zm),
    })
}

impl Object {
    /// The outward surface normal estimate at `p`; see [`spec_normal`].
    pub fn normal(&self, p: &Point3) -> (r: Vector3)
        requires
            spec_wf(*self),
        ensures
            r == spec_normal(*self, *p),
        decreases *self, 2int,
    {
        match self {
            Object::Constant(c) => c.normal,
            Object::Union(u) => {
                let vals: Vec<i64> = eval_children(&u.objs, p, ALWAYS_PRECISE);
                let (i0, v0, v1) = two_smallest(&vals);
                let diff: i64 = crate::scalar::sat_sub(v1, v0);
                proof {
                    lemma_two_min_bounds(vals@);
                    lemma_wf_all_index(u.objs@, i0 as int);
                    assert(decreases_to!(*self => u.objs@[i0 as int]));
                }
                fade_normal_union(self, &u.objs, i0, diff, u.exact_range, u.fade_range, p)
            },
            Object::Intersection(s) => {
                let vals: Vec<i64> = eval_children(&s.objs, p, ALWAYS_PRECISE);
                let (i0, v0, v1) = two_largest(&vals);
                let diff: i64 = crate::scalar::sat_sub(v0, v1);
                proof {
                    lemma_two_max_bounds(vals@);
                    lemma_wf_all_index(s.objs@, i0 as int);
                    assert(decreases_to!(*self => s.objs@[i0 as int]));
                }
                fade_normal_intersection(self, &s.objs, i0, diff, s.exact_range,
                    s.fade_range, p)
            },
            Object::Negation(n) => {
                let cn: Vector3 = n.object.normal(p);
                Vector3 {
                    x: sat_neg(cn.x),
                    y: sat_neg(cn.y),
                    z: sat_neg(cn.z),
                }
            },
        }
    }
}

/// The two smallest values of `vals` with the index of the smallest.
fn two_smallest(vals: &Vec<i64>) -> (r: (usize, i64, i64))
    ensures
        r.0 as int == spec_two_min(vals@).0.0,
        r.1 as int == spec_two_min(vals@).0.1,
        r.2 as int == spec_two_min(vals@).1.1,
        r.0 < vals@.len() || (vals@.len() == 0 && r.0 == 0),
{
    let n: usize = vals.len();
    let mut i0: usize = 0;
    let mut v0: i64 = i64::MAX;
    let mut i1: usize = 0;
    let mut v1: i64 = i64::MAX;
    let mut i: usize = 0;
    while i < n
        invariant
            0 <= i <= n,
            n == vals@.len(),
            i0 as int == spec_two_min(vals@.take(i as int)).0.0,
            v0 as int == spec_two_min(vals@.take(i as int)).0.1,
            i1 as int == spec_two_min(vals@.take(i as int)).1.0,
            v1 as int == spec_two_min(vals@.take(i as int)).1.1,
            i0 < i || i0 == 0,
            i1 < i || i1 == 0,
        decreases n - i,
    {
        let t: i64 = vals[i];
        proof {
            assert(vals@.take(i as int + 1).drop_last() =~= vals@.take(i as int));
            assert(vals@.take(i as int + 1).last() == vals@[i as int]);
        }
        if t < v0 {
            i1 = i0;
            v1 = v0;
            i0 = i;
            v0 = t;
        } else if t < v1 {
            i1 = i;
            v1 = t;
        }
        i = i + 1;
    }
    proof {
        assert(vals@.take(n as int) =~= vals@);
    }
    (i0, v0, v1)
}

/// The two largest values of `vals` with the index of the largest.
fn two_largest(vals: &Vec<i64>) -> (r: (usize, i64, i64))
    ensures
        r.0 as int == spec_two_max(vals@).0.0,
        r.1 as int == spec_two_max(vals@).0.1,
        r.2 as int == spec_two_max(vals@).1.1,
        r.0 < vals@.len() || (vals@.len() == 0 && r.0 == 0),
{
    let n: usize = vals.len();
    let mut i0: usize = 0;
    let mut v0: i64 = i64::MIN;
    let mut i1: usize = 0;
    let mut v1: i64 = i64::MIN;
    let mut i: usize = 0;
    while i < n
        invariant
            0 <= i <= n,
            n == vals@.len(),
            i0 as int == spec_two_max(vals@.take(i as int)).0.0,
            v0 as int == spec_two_max(vals@.take(i as int)).0.1,
            i1 as int == spec_two_max(vals@.take(i as int)).1.0,
            v1 as int == spec_two_max(vals@.take(i as int)).1.1,
            i0 < i || i0 == 0,
            i1 < i || i1 == 0,
        decreases n - i,
    {
        let t: i64 = vals[i];
        proof {
            assert(vals@.take(i as int + 1).drop_last() =~= vals@.take(i as int));
            assert(vals@.take(i as int + 1).last() == vals@[i as int]);
        }
        if t > v0 {
            i1 = i0;
            v1 = v0;
            i0 = i;
            v0 = t;
        } else if t > v1 {
            i1 = i;
            v1 = t;
        }
        i = i + 1;
    }
    proof {
        assert(vals@.take(n as int) =~= vals@);
    }
    (i0, v0, v1)
}

/// The union's fade step; `o` is the whole union and `i0` the index of
/// the child with the smallest value.
fn fade_normal_union(
    o: &Object,
    objs: &Vec<Object>,
    i0: usize,
    diff: i64,
    exact_range: i64,
    fade_range: i64,
    p: &Point3,
) -> (r: Vector3)
    requires
        spec_wf(*o),
        spec_wf(objs@[i0 as int]),
        objs@.len() > 0,
        i0 < objs@.len(),
        diff >= 0,
        exact_range >= 0,
        0 <= fade_range <= SCALE,
        decreases_to!(*o => objs@[i0 as int]),
    ensures
        r == spec_fade_normal(*o, objs@, i0 as int, diff as int, exact_range,
            fade_range, *p),
    decreases *o, 1int,
{
    let th: i64 = crate::scalar::mul_scale(exact_range,
        crate::scalar::sat_sub(SCALE, fade_range));
    if diff < th {
        normal_from_object(o, p)
    } else if diff < exact_range {
        proof {
            assert(fade_range >= 1) by {
                if fade_range == 0 {
                    vstd::arithmetic::div_mod::lemma_div_multiples_vanish(
                        exact_range as int, SCALE as int);
                    assert((exact_range as int) * (SCALE as int)
                        == (SCALE as int) * (exact_range as int)) by (nonlinear_arith);
                }
            }
        }
        let q: i64 = crate::scalar::div_scale(diff, exact_range);
        let num: i64 = sat_add(crate::scalar::sat_sub(q, SCALE), fade_range);
        let fader: i64 = crate::scalar::div_scale(num, fade_range);
        let cn: Vector3 = objs[i0].normal(p);
        let fo: Vector3 = normal_from_object(o, p);
        let b = Vector3 {
            x: sat_add(crate::scalar::mul_scale(cn.x, fader),
                crate::scalar::mul_scale(fo.x, crate::scalar::sat_sub(SCALE, fader))),
            y: sat_add(crate::scalar::mul_scale(cn.y, fader),
                crate::scalar::mul_scale(fo.y, crate::scalar::sat_sub(SCALE, fader))),
            z: sat_add(crate::scalar::mul_scale(cn.z, fader),
                crate::scalar::mul_scale(fo.z, crate::scalar::sat_sub(SCALE, fader))),
        };
        crate::geom::normalize(&b)
    } else {
        objs[i0].normal(p)
    }
}

/// The intersection's fade step; identical in structure to the union's.
fn fade_normal_intersection(
    o: &Object,
    objs: &Vec<Object>,
    i0: usize,
    diff: i64,
    exact_range: i64,
    fade_range: i64,
    p: &Point3,
) -> (r: Vector3)
    requires
        spec_wf(*o),
        spec_wf(objs@[i0 as int]),
        objs@.len() > 0,
        i0 < objs@.len(),
        diff >= 0,
        exact_range >= 0,
        0 <= fade_range <= SCALE,
        decreases_to!(*o => objs@[i0 as int]),
    ensures
        r == spec_fade_normal(*o, objs@, i0 as int, diff as int, exact_range,
            fade_range, *p),
    decreases *o, 1int,
{
    let th: i64 = crate::scalar::mul_scale(exact_range,
        crate::scalar::sat_sub(SCALE, fade_range));
    if diff < th {
        normal_from_object(o, p)
    } else if diff < exact_range {
        proof {
            assert(fade_range >= 1) by {
                if fade_range == 0 {
                    vstd::arithmetic::div_mod::lemma_div_multiples_vanish(
                        exact_range as int, SCALE as int);
                    assert((exact_range as int) * (SCALE as int)
                        == (SCALE as int) * (exact_range as int)) by (nonlinear_arith);
                }
            }
        }
        let q: i64 = crate::scalar::div_scale(diff, exact_range);
        let num: i64 = sat_add(crate::scalar::sat_sub(q, SCALE), fade_range);
        let fader: i64 = crate::scalar::div_scale(num, fade_range);
        let cn: Vector3 = objs[i0].normal(p);
        let fo: Vector3 = normal_from_object(o, p);
        let b = Vector3 {
            x: sat_add(crate::scalar::mul_scale(cn.x, fader),
                crate::scalar::mul_scale(fo.x, crate::scalar::sat_sub(SCALE, fader))),
            y: sat_add(crate::scalar::mul_scale(cn.y, fader),
                crate::scalar::mul_scale(fo.y, crate::scalar::sat_sub(SCALE, fader))),
            z: sat_add(crate::scalar::mul_scale(cn.z, fader),
                crate::scalar::mul_scale(fo.z, crate::scalar::sat_sub(SCALE, fader))),
        };
        crate::geom::normalize(&b)
    } else {
        objs[i0].normal(p)
    }
}

/// How a tree looks after a parameter broadcast: the structure, radii and
/// cached boxes are unchanged; every composite's `exact_range` becomes
/// `r * r_multiplier` and its `fade_range` becomes the broadcast one.
pub open spec fn spec_params_set(o: Object, n: Object, q: PrimitiveParameters) -> bool
    decreases o,
{
    match o {
        Object::Constant(_) => n == o,
        Object::Union(u) => (n matches Object::Union(w)
            && spec_params_set_all(u.objs@, w.objs@, q)
            && w.r == u.r
            && w.exact_range as int == clip((u.r * q.r_multiplier) / (SCALE as int))
            && w.fade_range == q.fade_range
            && w.bbox == u.bbox),
        Object::Intersection(s) => (n matches Object::Intersection(w)
            && spec_params_set_all(s.objs@, w.objs@, q)
            && w.r == s.r
            && w.exact_range as int == clip((s.r * q.r_multiplier) / (SCALE as int))
            && w.fade_range == q.fade_range
            && w.bbox == s.bbox),
        Object::Negation(m) => (n matches Object::Negation(w)
            && spec_params_set(*m.object, *w.object, q)),
    }
}

/// [`spec_params_set`] for every child, in order.
pub open spec fn spec_params_set_all(
    a: Seq<Object>,
    b: Seq<Object>,
    q: PrimitiveParameters,
) -> bool
    decreases a,
{
    if a.len() == 0 {
        b.len() == 0
    } else {
        b.len() == a.len()
            && spec_params_set(a.last(), b.last(), q)
            && spec_params_set_all(a.drop_last(), b.drop_last(), q)
    }
}

/// Rebuild a solid with new parameters; see [`spec_params_set`].
fn apply_parameters(o: Object, q: &PrimitiveParameters) -> (r: Object)
    requires
        spec_wf(o),
        q.r_multiplier >= 0,
        0 <= q.fade_range <= SCALE,
    ensures
        spec_params_set(o, r, *q),
        spec_wf(r),
    decreases o,
{
    match o {
        Object::Constant(c) => Object::Constant(c),
        Object::Union(u) => {
            let Union { objs, r, exact_range: _, fade_range: _, bbox } = u;
            let new_objs: Vec<Object> = apply_parameters_all(objs, q);
            let er: i64 = crate::scalar::mul_scale(r, q.r_multiplier);
            proof {
                vstd::arithmetic::div_mod::lemma_div_pos_is_pos(
                    (r as int) * (q.r_multiplier as int), SCALE as int);
                assert((r as int) * (q.r_multiplier as int) >= 0) by (nonlinear_arith)
                    requires r >= 0, q.r_multiplier >= 0;
            }
            Object::Union(Union {
                objs: new_objs,
                r,
                exact_range: er,
                fade_range: q.fade_range,
                bbox,
            })
        },
        Object::Intersection(s) => {
            let Intersection { objs, r, exact_range: _, fade_range: _, bbox } = s;
            let new_objs: Vec<Object> = apply_parameters_all(objs, q);
            let er: i64 = crate::scalar::mul_scale(r, q.r_multiplier);
            proof {
                vstd::arithmetic::div_mod::lemma_div_pos_is_pos(
                    (r as int) * (q.r_multiplier as int), SCALE as int);
                assert((r as int) * (q.r_multiplier as int) >= 0) by (nonlinear_arith)
                    requires r >= 0, q.r_multiplier >= 0;
            }
            Object::Intersection(Intersection {
                objs: new_objs,
                r,
                exact_range: er,
                fade_range: q.fade_range,
                bbox,
            })
        },
        Object::Negation(m) => {
            let inner: Box<Object> = m.object;
            let new_inner: Object = apply_parameters(*inner, q);
            Object::Negation(Negation { object: Box::new(new_inner) })
        },
    }
}

/// Rebuild every child with new parameters, in order.
#[verifier::loop_isolation(false)]
fn apply_parameters_all(objs: Vec<Object>, q: &PrimitiveParameters) -> (r: Vec<Object>)
    requires
        spec_wf_all(objs@),
        q.r_multiplier >= 0,
        0 <= q.fade_range <= SCALE,
    ensures
        spec_params_set_all(objs@, r@, *q),
        spec_wf_all(r@),
        r@.len() == objs@.len(),
    decreases objs@,
{
    let mut v = objs;
    let ghost src: Seq<Object> = v@;
    let n: usize = v.len();
    let mut out: Vec<Object> = Vec::new();
    let mut i: usize = 0;
    while i < n
        invariant
            0 <= i <= n,
            n == src.len(),
            v@ == src.skip(i as int),
            out@.len() == i,
            spec_wf_all(src),
            q.r_multiplier >= 0,
            0 <= q.fade_range <= SCALE,
            spec_params_set_all(src.take(i as int), out@, *q),
            spec_wf_all(out@),
        decreases n - i,
    {
        let x: Object = v.remove(0);
        proof {
            assert(src.skip(i as int).remove(0) =~= src.skip(i as int + 1));
            assert(src.skip(i as int)[0] == src[i as int]);
            lemma_wf_all_index(src, i as int);
            assert(x == src[i as int]);
            assert(decreases_to!(src => src[i as int]));
        }
        let y: Object = apply_parameters(x, q);
        proof {
            assert(src.take(i as int + 1).drop_last() =~= src.take(i as int));
            assert(src.take(i as int + 1).last() == src[i as int]);
            assert(out@.push(y).drop_last() =~= out@);
        }
        out.push(y);
        i = i + 1;
    }
    proof {
        assert(src.take(n as int) =~= src);
    }
    out
}

impl Object {
    /// Broadcast new parameters to this solid and all its children,
    /// updating each composite's cached `exact_range` and `fade_range`;
    /// see [`spec_params_set`].  Structure, radii and boxes are unchanged.
    pub fn set_parameters(&mut self, q: &PrimitiveParameters)
        requires
            spec_wf(*old(self)),
            q.r_multiplier >= 0,
            0 <= q.fade_range <= SCALE,
        ensures
            spec_params_set(*old(self), *final(self), *q),
            spec_wf(*final(self)),
    {
        let mut tmp: Object = Object::Constant(Constant {
            value: 0,
            normal: Vector3 { x: 0, y: 0, z: 0 },
        });
        core::mem::swap(self, &mut tmp);
        let out: Object = apply_parameters(tmp, q);
        *self = out;
    }

    /// A deep copy of this solid: the returned tree is structurally
    /// identical to the original (see [`spec_same`]).  This is the cloning
    /// capability composites need, for example to reuse one operand of a
    /// difference elsewhere.
    pub fn duplicate(&self) -> (r: Object)
        ensures
            spec_same(*self, r),
        decreases *self,
    {
        match self {
            Object::Constant(c) => Object::Constant(*c),
            Object::Union(u) => {
                let new_objs: Vec<Object> = duplicate_all(&u.objs);
                Object::Union(Union {
                    objs: new_objs,
                    r: u.r,
                    exact_range: u.exact_range,
                    fade_range: u.fade_range,
                    bbox: u.bbox,
                })
            },
            Object::Intersection(s) => {
                let new_objs: Vec<Object> = duplicate_all(&s.objs);
                Object::Intersection(Intersection {
                    objs: new_objs,
                    r: s.r,
                    exact_range: s.exact_range,
                    fade_range: s.fade_range,
                    bbox: s.bbox,
                })
            },
            Object::Negation(n) => {
                let inner: Object = n.object.duplicate();
                Object::Negation(Negation { object: Box::new(inner) })
            },
        }
    }
}

/// Structural equality of two solids: the same tree shape with equal
/// fields everywhere.  (Two distinct `Vec` allocations with equal
/// contents count as the same tree.)
pub open spec fn spec_same(a: Object, b: Object) -> bool
    decreases a,
{
    match a {
        Object::Constant(_) => b == a,
        Object::Union(u) => (b matches Object::Union(w)
            && spec_same_all(u.objs@, w.objs@)
            && w.r == u.r
            && w.exact_range == u.exact_range
            && w.fade_range == u.fade_range
            && w.bbox == u.bbox),
        Object::Intersection(s) => (b matches Object::Intersection(w)
            && spec_same_all(s.objs@, w.objs@)
            && w.r == s.r
            && w.exact_range == s.exact_range
            && w.fade_range == s.fade_range
            && w.bbox == s.bbox),
        Object::Negation(m) => (b matches Object::Negation(w)
            && spec_same(*m.object, *w.object)),
    }
}

/// [`spec_same`] for every child, in order.
pub open spec fn spec_same_all(a: Seq<Object>, b: Seq<Object>) -> bool
    decreases a,
{
    if a.len() == 0 {
        b.len() == 0
    } else {
        b.len() == a.len()
            && spec_same(a.last(), b.last())
            && spec_same_all(a.drop_last(), b.drop_last())
    }
}

/// Deep-copy every child, in order.
fn duplicate_all(objs: &Vec<Object>) -> (r: Vec<Object>)
    ensures
        spec_same_all(objs@, r@),
        r@.len() == objs@.len(),
    decreases objs@,
{
    let n: usize = objs.len();
    let mut out: Vec<Object> = Vec::new();
    let mut i: usize = 0;
    while i < n
        invariant
            0 <= i <= n,
            n == objs@.len(),
            out@.len() == i,
            spec_same_all(objs@.take(i as int), out@),
        decreases n - i,
    {
        proof {
            assert(decreases_to!(objs@ => objs@[i as int]));
            assert(objs@.take(i as int + 1).drop_last() =~= objs@.take(i as int));
            assert(objs@.take(i as int + 1).last() == objs@[i as int]);
        }
        let y: Object = objs[i].duplicate();
        proof {
            assert(out@.push(y).drop_last() =~= out@);
        }
        out.push(y);
        i = i + 1;
    }
    proof {
        assert(objs@.take(n as int) =~= objs@);
    }
    out
}

/// Negating a solid twice restores its field value exactly, for every
/// field value other than the bottom saturation sentinel (whose negation
/// cannot be represented and saturates).
pub proof fn lemma_negation_involution(outer: Negation, inner: Negation, p: Point3, slack: i64)
    requires
        *outer.object == Object::Negation(inner),
        spec_approx_value(*inner.object, p, slack) != i64::MIN as int,
    ensures
        spec_approx_value(Object::Negation(outer), p, slack)
            == spec_approx_value(*inner.object, p, slack),
{
    let v = spec_approx_value(*inner.object, p, slack);
    lemma_approx_value_range(*inner.object, p, slack);
    assert(spec_approx_value(*outer.object, p, slack) == clip(-v));
    assert(spec_approx_value(Object::Negation(outer), p, slack) == clip(-clip(-v)));
}

/// The folded union box is a conservative superset: it contains every
/// point of every child's box.  Together with the dilation headroom
/// (see [`crate::bbox::lemma_dilate_grows`]), this is the invariant a
/// union's cached box establishes at construction.
pub proof fn lemma_boxes_union_covers_children(s: Seq<Object>, i: int, p: Point3)
    requires
        0 <= i < s.len(),
        crate::bbox::spec_contains(spec_bbox(s[i]), p),
    ensures
        crate::bbox::spec_contains(spec_boxes_union(s), p),
    decreases s.len(),
{
    if i == s.len() - 1 {
        crate::bbox::lemma_union_contains(
            spec_boxes_union(s.drop_last()), spec_bbox(s.last()), p);
    } else {
        lemma_boxes_union_covers_children(s.drop_last(), i, p);
        crate::bbox::lemma_union_contains(
            spec_boxes_union(s.drop_last()), spec_bbox(s.last()), p);
    }
}

/// With a zero rounding radius and a zero exact range, a union within
/// slack of its box is exactly the literal minimum of its children's
/// field values: no smoothing, the smaller (more inside) value wins.
pub proof fn lemma_sharp_union_is_min(u: Union, p: Point3, slack: i64)
    requires
        u.r == 0,
        u.exact_range == 0,
        u.objs@.len() > 0,
        spec_distance(u.bbox, p) <= slack as int,
    ensures
        forall|i: int| 0 <= i < u.objs@.len()
            ==> spec_approx_value(Object::Union(u), p, slack)
                <= spec_approx_value(#[trigger] u.objs@[i], p, slack),
        exists|i: int| 0 <= i < u.objs@.len()
            && spec_approx_value(Object::Union(u), p, slack)
                == spec_approx_value(u.objs@[i], p, slack),
{
    let cs = clip(slack + 0) as i64;
    let vals = spec_child_values(u.objs@, p, cs);
    lemma_child_values_len(u.objs@, p, cs);
    crate::blend::lemma_rvmin_far_apart(vals, 0, 0);
    assert forall|i: int| 0 <= i < u.objs@.len()
        implies spec_approx_value(Object::Union(u), p, slack)
            <= spec_approx_value(#[trigger] u.objs@[i], p, slack) by {
        lemma_child_values_index(u.objs@, p, cs, i);
        lemma_approx_value_range(u.objs@[i], p, cs);
    }
    let k = choose|k: int| 0 <= k < vals.len()
        && vals[k] as int == crate::blend::spec_rvmin(vals, 0, 0);
    lemma_child_values_index(u.objs@, p, cs, k);
    lemma_approx_value_range(u.objs@[k], p, cs);
    assert(spec_approx_value(Object::Union(u), p, slack)
        == spec_approx_value(u.objs@[k], p, slack));
}

/// Dual of [`lemma_sharp_union_is_min`]: a sharp intersection is the
/// literal maximum of its children's field values.
pub proof fn lemma_sharp_intersection_is_max(s: Intersection, p: Point3, slack: i64)
    requires
        s.r == 0,
        s.exact_range == 0,
        s.objs@.len() > 0,
        spec_distance(s.bbox, p) <= slack as int,
    ensures
        forall|i: int| 0 <= i < s.objs@.len()
            ==> spec_approx_value(Object::Intersection(s), p, slack)
                >= spec_approx_value(#[trigger] s.objs@[i], p, slack),
        exists|i: int| 0 <= i < s.objs@.len()
            && spec_approx_value(Object::Intersection(s), p, slack)
                == spec_approx_value(s.objs@[i], p, slack),
{
    let cs = clip(slack + 0) as i64;
    let vals = spec_child_values(s.objs@, p, cs);
    lemma_child_values_len(s.objs@, p, cs);
    crate::blend::lemma_rvmax_far_apart(vals, 0, 0);
    assert forall|i: int| 0 <= i < s.objs@.len()
        implies spec_approx_value(Object::Intersection(s), p, slack)
            >= spec_approx_value(#[trigger] s.objs@[i], p, slack) by {
        lemma_child_values_index(s.objs@, p, cs, i);
        lemma_approx_value_range(s.objs@[i], p, cs);
    }
    let k = choose|k: int| 0 <= k < vals.len()
        && vals[k] as int == crate::blend::spec_rvmax(vals, 0, 0);
    lemma_child_values_index(s.objs@, p, cs, k);
    lemma_approx_value_range(s.objs@[k], p, cs);
    assert(spec_approx_value(Object::Intersection(s), p, slack)
        == spec_approx_value(s.objs@[k], p, slack));
}

/// At any rounding radius, a union evaluated within slack of its box is
/// conservative with respect to its children: it never exceeds any
/// child's field value (the smaller, more-inside value wins), and it
/// dips at most `r` below the closest child.
pub proof fn lemma_union_value_conservative(u: Union, p: Point3, slack: i64)
    requires
        u.r >= 0,
        u.objs@.len() > 0,
        spec_distance(u.bbox, p) <= slack as int,
    ensures
        forall|i: int| 0 <= i < u.objs@.len()
            ==> spec_approx_value(Object::Union(u), p, slack)
                <= spec_approx_value(#[trigger] u.objs@[i], p, clip(slack + u.r) as i64),
        exists|i: int| 0 <= i < u.objs@.len()
            && spec_approx_value(Object::Union(u), p, slack)
                >= clip(spec_approx_value(u.objs@[i], p, clip(slack + u.r) as i64) - u.r),
{
    let cs = clip(slack + u.r) as i64;
    let vals = spec_child_values(u.objs@, p, cs);
    lemma_child_values_len(u.objs@, p, cs);
    crate::blend::lemma_rvmin_conservative(vals, u.r, u.exact_range);
    let m = crate::blend::spec_min_state(vals, u.exact_range as int).0;
    assert forall|i: int| 0 <= i < u.objs@.len()
        implies spec_approx_value(Object::Union(u), p, slack)
            <= spec_approx_value(#[trigger] u.objs@[i], p, cs) by {
        crate::blend::lemma_min_state_le(vals, u.exact_range as int, i);
        lemma_child_values_index(u.objs@, p, cs, i);
        lemma_approx_value_range(u.objs@[i], p, cs);
    }
    crate::blend::lemma_min_state_exists(vals, u.exact_range as int);
    let k = choose|k: int| 0 <= k < vals.len() && vals[k] as int == m;
    lemma_child_values_index(u.objs@, p, cs, k);
    lemma_approx_value_range(u.objs@[k], p, cs);
    assert(spec_approx_value(Object::Union(u), p, slack)
        >= clip(spec_approx_value(u.objs@[k], p, cs) - u.r));
}

/// Dual of [`lemma_union_value_conservative`]: an intersection never
/// falls below any child's field value, and rises at most `r` above the
/// closest child.
pub proof fn lemma_intersection_value_conservative(s: Intersection, p: Point3, slack: i64)
    requires
        s.r >= 0,
        s.objs@.len() > 0,
        spec_distance(s.bbox, p) <= slack as int,
    ensures
        forall|i: int| 0 <= i < s.objs@.len()
            ==> spec_approx_value(Object::Intersection(s), p, slack)
                >= spec_approx_value(#[trigger] s.objs@[i], p, clip(slack + s.r) as i64),
        exists|i: int| 0 <= i < s.objs@.len()
            && spec_approx_value(Object::Intersection(s), p, slack)
                <= clip(spec_approx_value(s.objs@[i], p, clip(slack + s.r) as i64) + s.r),
{
    let cs = clip(slack + s.r) as i64;
    let vals = spec_child_values(s.objs@, p, cs);
    lemma_child_values_len(s.objs@, p, cs);
    crate::blend::lemma_rvmax_conservative(vals, s.r, s.exact_range);
    let m = crate::blend::spec_max_state(vals, s.exact_range as int).0;
    assert forall|i: int| 0 <= i < s.objs@.len()
        implies spec_approx_value(Object::Intersection(s), p, slack)
            >= spec_approx_value(#[trigger] s.objs@[i], p, cs) by {
        crate::blend::lemma_max_state_ge(vals, s.exact_range as int, i);
        lemma_child_values_index(s.objs@, p, cs, i);
        lemma_approx_value_range(s.objs@[i], p, cs);
    }
    crate::blend::lemma_max_state_exists(vals, s.exact_range as int);
    let k = choose|k: int| 0 <= k < vals.len() && vals[k] as int == m;
    lemma_child_values_index(s.objs@, p, cs, k);
    lemma_approx_value_range(s.objs@[k], p, cs);
    assert(spec_approx_value(Object::Intersection(s), p, slack)
        <= clip(spec_approx_value(s.objs@[k], p, cs) + s.r));
}

/// The children's value sequence has one entry per child.
proof fn lemma_child_values_len(s: Seq<Object>, p: Point3, slack: i64)
    ensures
        spec_child_values(s, p, slack).len() == s.len(),
    decreases s,
{
    if s.len() > 0 {
        lemma_child_values_len(s.drop_last(), p, slack);
    }
}

/// Each entry of the children's value sequence is that child's field
/// value (saturated into the scalar range).
proof fn lemma_child_values_index(s: Seq<Object>, p: Point3, slack: i64, i: int)
    requires
        0 <= i < s.len(),
    ensures
        spec_child_values(s, p, slack).len() == s.len(),
        spec_child_values(s, p, slack)[i] as int
            == clip(spec_approx_value(s[i], p, slack)),
    decreases s,
{
    lemma_child_values_len(s, p, slack);
    if i < s.len() - 1 {
        lemma_child_values_index(s.drop_last(), p, slack, i);
    }
}

/// Every field value a solid can return is a representable scalar.
pub proof fn lemma_approx_value_range(o: Object, p: Point3, slack: i64)
    ensures
        i64::MIN as int <= spec_approx_value(o, p, slack) <= i64::MAX as int,
    decreases o,
{
    match o {
        Object::Constant(_) => {},
        Object::Union(u) => {
            crate::blend::lemma_rvmin_range(
                spec_child_values(u.objs@, p, clip(slack + u.r) as i64),
                u.r, u.exact_range);
        },
        Object::Intersection(s) => {
            crate::blend::lemma_rvmax_range(
                spec_child_values(s.objs@, p, clip(slack + s.r) as i64),
                s.r, s.exact_range);
        },
        Object::Negation(_) => {},
    }
}

/// Evaluate every child at `p` under `slack`, in order.
fn eval_children(objs: &Vec<Object>, p: &Point3, slack: i64) -> (r: Vec<i64>)
    requires
        spec_wf_all(objs@),
    ensures
        r@ == spec_child_values(objs@, *p, slack),
        r@.len() == objs@.len(),
    decreases objs@,
{
    let n: usize = objs.len();
    let mut vals: Vec<i64> = Vec::new();
    let mut i: usize = 0;
    while i < n
        invariant
            0 <= i <= n,
            n == objs@.len(),
            spec_wf_all(objs@),
            vals@ == spec_child_values(objs@.take(i as int), *p, slack),
            vals@.len() == i,
        decreases n - i,
    {
        proof {
            lemma_wf_all_index(objs@, i as int);
            assert(objs@.take(i as int + 1).drop_last() =~= objs@.take(i as int));
            assert(objs@.take(i as int + 1).last() == objs@[i as int]);
            assert(decreases_to!(objs@ => objs@[i as int]));
        }
        let v: i64 = objs[i].approx_value(p, slack);
        vals.push(v);
        i = i + 1;
    }
    proof {
        assert(objs@.take(n as int) =~= objs@);
    }
    vals
}

} // verus!
