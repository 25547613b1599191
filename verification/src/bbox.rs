//! Axis-aligned 3D bounding boxes.
//!
//! A box is a pair of diagonally opposite corners.  Boxes can be united,
//! intersected, dilated, transformed and grown around points, and they
//! answer containment and signed-distance queries.  Two sentinel boxes
//! exist: the everywhere box (identity of intersection) and the nowhere box
//! (identity of union), built from the infinite sentinel scalars.

use vstd::prelude::*;

use crate::geom::Point3;
use crate::geom::Transform;
use crate::geom::Vector3;
use crate::geom::spec_transform_point;
use crate::scalar::INFINITY;
use crate::scalar::NEG_INFINITY;
use crate::scalar::clip;
use crate::scalar::max_val;
use crate::scalar::min_val;
use crate::scalar::sat_add;
use crate::scalar::sat_sub;
use crate::scalar::smax;
use crate::scalar::smin;

verus! {

/// 3D bounding box, defined by two diagonally opposing corner points.
#[derive(Clone, Copy, Debug, PartialEq, Eq, Structural)]
pub struct BoundingBox {
    /// X-Y-Z-minimum corner of the box.
    pub min: Point3,
    /// X-Y-Z-maximum corner of the box.
    pub max: Point3,
}

/// Whether `p` lies inside `b`, all three axes inclusive.
pub open spec fn spec_contains(b: BoundingBox, p: Point3) -> bool {
    &&& b.min.x <= p.x <= b.max.x
    &&& b.min.y <= p.y <= b.max.y
    &&& b.min.z <= p.z <= b.max.z
}

/// The smallest box containing both `a` and `b`.
pub open spec fn spec_union(a: BoundingBox, b: BoundingBox) -> BoundingBox {
    BoundingBox {
        min: Point3 {
            x: smin(a.min.x as int, b.min.x as int) as i64,
            y: smin(a.min.y as int, b.min.y as int) as i64,
            z: smin(a.min.z as int, b.min.z as int) as i64,
        },
        max: Point3 {
            x: smax(a.max.x as int, b.max.x as int) as i64,
            y: smax(a.max.y as int, b.max.y as int) as i64,
            z: smax(a.max.z as int, b.max.z as int) as i64,
        },
    }
}

/// The common part of `a` and `b`; `min` may exceed `max` on some axis when
/// the boxes do not overlap.
pub open spec fn spec_intersection(a: BoundingBox, b: BoundingBox) -> BoundingBox {
    BoundingBox {
        min: Point3 {
            x: smax(a.min.x as int, b.min.x as int) as i64,
            y: smax(a.min.y as int, b.min.y as int) as i64,
            z: smax(a.min.z as int, b.min.z as int) as i64,
        },
        max: Point3 {
            x: smin(a.max.x as int, b.max.x as int) as i64,
            y: smin(a.max.y as int, b.max.y as int) as i64,
            z: smin(a.max.z as int, b.max.z as int) as i64,
        },
    }
}

/// The box grown (or shrunk, for negative `d`) by `d` on every face.
pub open spec fn spec_dilate(b: BoundingBox, d: i64) -> BoundingBox {
    BoundingBox {
        min: Point3 {
            x: clip(b.min.x - d) as i64,
            y: clip(b.min.y - d) as i64,
            z: clip(b.min.z - d) as i64,
        },
        max: Point3 {
            x: clip(b.max.x + d) as i64,
            y: clip(b.max.y + d) as i64,
            z: clip(b.max.z + d) as i64,
        },
    }
}

/// The box grown just enough to contain `p`.
pub open spec fn spec_insert(b: BoundingBox, p: Point3) -> BoundingBox {
    BoundingBox {
        min: Point3 {
            x: smin(b.min.x as int, p.x as int) as i64,
            y: smin(b.min.y as int, p.y as int) as i64,
            z: smin(b.min.z as int, p.z as int) as i64,
        },
        max: Point3 {
            x: smax(b.max.x as int, p.x as int) as i64,
            y: smax(b.max.y as int, p.y as int) as i64,
            z: smax(b.max.z as int, p.z as int) as i64,
        },
    }
}

/// Signed distance bound from `p` to the surface of `b`: the largest of
/// the six per-face overshoots.  Positive outside, negative inside; an
/// underestimate of the Euclidean distance outside and of the penetration
/// depth inside, which makes it safe for pruning.
pub open spec fn spec_distance(b: BoundingBox, p: Point3) -> int {
    let xval = smax(clip(p.x - b.max.x), clip(b.min.x - p.x));
    let yval = smax(clip(p.y - b.max.y), clip(b.min.y - p.y));
    let zval = smax(clip(p.z - b.max.z), clip(b.min.z - p.z));
    smax(xval, smax(yval, zval))
}

/// The componentwise minimum of two points.
fn point_min(a: &Point3, b: &Point3) -> (r: Point3)
    ensures
        r.x as int == smin(a.x as int, b.x as int),
        r.y as int == smin(a.y as int, b.y as int),
        r.z as int == smin(a.z as int, b.z as int),
{
    Point3 { x: min_val(a.x, b.x), y: min_val(a.y, b.y), z: min_val(a.z, b.z) }
}

/// The componentwise maximum of two points.
fn point_max(a: &Point3, b: &Point3) -> (r: Point3)
    ensures
        r.x as int == smax(a.x as int, b.x as int),
        r.y as int == smax(a.y as int, b.y as int),
        r.z as int == smax(a.z as int, b.z as int),
{
    Point3 { x: max_val(a.x, b.x), y: max_val(a.y, b.y), z: max_val(a.z, b.z) }
}

/// The eight corners of `b`, transformed by `m` and re-enclosed in an
/// axis-aligned box.
pub open spec fn spec_transform_box(b: BoundingBox, m: Transform) -> BoundingBox {
    let a = b.min;
    let z = b.max;
    let c0 = spec_transform_point(m, Point3 { x: a.x, y: a.y, z: a.z });
    let c1 = spec_transform_point(m, Point3 { x: a.x, y: a.y, z: z.z });
    let c2 = spec_transform_point(m, Point3 { x: a.x, y: z.y, z: a.z });
    let c3 = spec_transform_point(m, Point3 { x: a.x, y: z.y, z: z.z });
    let c4 = spec_transform_point(m, Point3 { x: z.x, y: a.y, z: a.z });
    let c5 = spec_transform_point(m, Point3 { x: z.x, y: a.y, z: z.z });
    let c6 = spec_transform_point(m, Point3 { x: z.x, y: z.y, z: a.z });
    let c7 = spec_transform_point(m, Point3 { x: z.x, y: z.y, z: z.z });
    BoundingBox {
        min: Point3 {
            x: smin(c0.x as int, smin(c1.x as int, smin(c2.x as int, smin(c3.x as int,
                smin(c4.x as int, smin(c5.x as int, smin(c6.x as int, c7.x as int))))))) as i64,
            y: smin(c0.y as int, smin(c1.y as int, smin(c2.y as int, smin(c3.y as int,
                smin(c4.y as int, smin(c5.y as int, smin(c6.y as int, c7.y as int))))))) as i64,
            z: smin(c0.z as int, smin(c1.z as int, smin(c2.z as int, smin(c3.z as int,
                smin(c4.z as int, smin(c5.z as int, smin(c6.z as int, c7.z as int))))))) as i64,
        },
        max: Point3 {
            x: smax(c0.x as int, smax(c1.x as int, smax(c2.x as int, smax(c3.x as int,
                smax(c4.x as int, smax(c5.x as int, smax(c6.x as int, c7.x as int))))))) as i64,
            y: smax(c0.y as int, smax(c1.y as int, smax(c2.y as int, smax(c3.y as int,
                smax(c4.y as int, smax(c5.y as int, smax(c6.y as int, c7.y as int))))))) as i64,
            z: smax(c0.z as int, smax(c1.z as int, smax(c2.z as int, smax(c3.z as int,
                smax(c4.z as int, smax(c5.z as int, smax(c6.z as int, c7.z as int))))))) as i64,
        },
    }
}

impl BoundingBox {
    /// The everywhere box: every point is inside it.
    pub fn infinity() -> (r: BoundingBox)
        ensures
            r.min.x == NEG_INFINITY && r.min.y == NEG_INFINITY && r.min.z == NEG_INFINITY,
            r.max.x == INFINITY && r.max.y == INFINITY && r.max.z == INFINITY,
            forall|p: Point3| spec_contains(r, p),
    {
        BoundingBox {
            min: Point3 { x: NEG_INFINITY, y: NEG_INFINITY, z: NEG_INFINITY },
            max: Point3 { x: INFINITY, y: INFINITY, z: INFINITY },
        }
    }

    /// The nowhere box: no point is inside it, and it is the identity of
    /// `union`.
    pub fn neg_infinity() -> (r: BoundingBox)
        ensures
            r.min.x == INFINITY && r.min.y == INFINITY && r.min.z == INFINITY,
            r.max.x == NEG_INFINITY && r.max.y == NEG_INFINITY && r.max.z == NEG_INFINITY,
            forall|p: Point3| !spec_contains(r, p),
    {
        BoundingBox {
            min: Point3 { x: INFINITY, y: INFINITY, z: INFINITY },
            max: Point3 { x: NEG_INFINITY, y: NEG_INFINITY, z: NEG_INFINITY },
        }
    }

    /// Normalize two arbitrary corner points into a box: componentwise
    /// minimum and maximum.
    pub fn new(a: &Point3, b: &Point3) -> (r: BoundingBox)
        ensures
            r.min.x as int == smin(a.x as int, b.x as int),
            r.min.y as int == smin(a.y as int, b.y as int),
            r.min.z as int == smin(a.z as int, b.z as int),
            r.max.x as int == smax(a.x as int, b.x as int),
            r.max.y as int == smax(a.y as int, b.y as int),
            r.max.z as int == smax(a.z as int, b.z as int),
            r.min.x <= r.max.x && r.min.y <= r.max.y && r.min.z <= r.max.z,
    {
        BoundingBox { min: point_min(a, b), max: point_max(a, b) }
    }

    /// The smallest box containing `self` and `other`.
    pub fn union(&self, other: &BoundingBox) -> (r: BoundingBox)
        ensures
            r == spec_union(*self, *other),
    {
        BoundingBox {
            min: point_min(&self.min, &other.min),
            max: point_max(&self.max, &other.max),
        }
    }

    /// The common part of `self` and `other`; possibly an empty box with
    /// `min > max` on some axis, which `distance` and `contains` still
    /// handle correctly.
    pub fn intersection(&self, other: &BoundingBox) -> (r: BoundingBox)
        ensures
            r == spec_intersection(*self, *other),
    {
        BoundingBox {
            min: point_max(&self.min, &other.min),
            max: point_min(&self.max, &other.max),
        }
    }

    /// The axis-aligned box enclosing the image of `self` under `m`:
    /// all eight corners are mapped and re-enclosed, which is conservative
    /// (never tight under rotation).
    pub fn transform(&self, m: &Transform) -> (r: BoundingBox)
        ensures
            r == spec_transform_box(*self, *m),
    {
        let a = &self.min;
        let z = &self.max;
        let c0 = m.transform_point(&Point3 { x: a.x, y: a.y, z: a.z });
        let c1 = m.transform_point(&Point3 { x: a.x, y: a.y, z: z.z });
        let c2 = m.transform_point(&Point3 { x: a.x, y: z.y, z: a.z });
        let c3 = m.transform_point(&Point3 { x: a.x, y: z.y, z: z.z });
        let c4 = m.transform_point(&Point3 { x: z.x, y: a.y, z: a.z });
        let c5 = m.transform_point(&Point3 { x: z.x, y: a.y, z: z.z });
        let c6 = m.transform_point(&Point3 { x: z.x, y: z.y, z: a.z });
        let c7 = m.transform_point(&Point3 { x: z.x, y: z.y, z: z.z });
        let lo = point_min(&c0, &point_min(&c1, &point_min(&c2, &point_min(&c3,
            &point_min(&c4, &point_min(&c5, &point_min(&c6, &c7)))))));
        let hi = point_max(&c0, &point_max(&c1, &point_max(&c2, &point_max(&c3,
            &point_max(&c4, &point_max(&c5, &point_max(&c6, &c7)))))));
        BoundingBox { min: lo, max: hi }
    }

    /// Grow (or shrink, for negative `d`) the box by `d` on every face.
    pub fn dilate(&mut self, d: i64)
        ensures
            *final(self) == spec_dilate(*old(self), d),
    {
        self.min.x = sat_sub(self.min.x, d);
        self.min.y = sat_sub(self.min.y, d);
        self.min.z = sat_sub(self.min.z, d);
        self.max.x = sat_add(self.max.x, d);
        self.max.y = sat_add(self.max.y, d);
        self.max.z = sat_add(self.max.z, d);
    }

    /// Expand the box, if needed, to contain `p`.
    pub fn insert(&mut self, p: &Point3)
        ensures
            *final(self) == spec_insert(*old(self), *p),
            spec_contains(*final(self), *p),
    {
        self.min.x = min_val(self.min.x, p.x);
        self.min.y = min_val(self.min.y, p.y);
        self.min.z = min_val(self.min.z, p.z);
        self.max.x = max_val(self.max.x, p.x);
        self.max.y = max_val(self.max.y, p.y);
        self.max.z = max_val(self.max.z, p.z);
    }

    /// The extents of the box, `max - min` per axis, saturated.
    pub fn dim(&self) -> (r: Vector3)
        ensures
            r.x as int == clip(self.max.x - self.min.x),
            r.y as int == clip(self.max.y - self.min.y),
            r.z as int == clip(self.max.z - self.min.z),
    {
        Vector3 {
            x: sat_sub(self.max.x, self.min.x),
            y: sat_sub(self.max.y, self.min.y),
            z: sat_sub(self.max.z, self.min.z),
        }
    }

    /// A conservative signed distance from `p` to the box surface; see
    /// [`spec_distance`].
    pub fn distance(&self, p: &Point3) -> (r: i64)
        ensures
            r as int == spec_distance(*self, *p),
            r <= 0 <==> spec_contains(*self, *p),
    {
        let xval = max_val(sat_sub(p.x, self.max.x), sat_sub(self.min.x, p.x));
        let yval = max_val(sat_sub(p.y, self.max.y), sat_sub(self.min.y, p.y));
        let zval = max_val(sat_sub(p.z, self.max.z), sat_sub(self.min.z, p.z));
        max_val(xval, max_val(yval, zval))
    }

    /// Whether `p` lies within the box, boundaries included.
    pub fn contains(&self, p: &Point3) -> (r: bool)
        ensures
            r == spec_contains(*self, *p),
    {
        p.x >= self.min.x && p.x <= self.max.x
            && p.y >= self.min.y && p.y <= self.max.y
            && p.z >= self.min.z && p.z <= self.max.z
    }

    /// Tolerance comparison for tests and callers that accumulate rounding:
    /// both corners of `other` within `epsilon` of `self`'s, per axis.
    pub fn abs_diff_eq(&self, other: &BoundingBox, epsilon: i64) -> (r: bool)
        requires
            epsilon >= 0,
        ensures
            r <==> {
                &&& -(epsilon as int) <= self.min.x - other.min.x <= epsilon as int
                &&& -(epsilon as int) <= self.min.y - other.min.y <= epsilon as int
                &&& -(epsilon as int) <= self.min.z - other.min.z <= epsilon as int
                &&& -(epsilon as int) <= self.max.x - other.max.x <= epsilon as int
                &&& -(epsilon as int) <= self.max.y - other.max.y <= epsilon as int
                &&& -(epsilon as int) <= self.max.z - other.max.z <= epsilon as int
            },
    {
        let d0: i128 = self.min.x as i128 - other.min.x as i128;
        let d1: i128 = self.min.y as i128 - other.min.y as i128;
        let d2: i128 = self.min.z as i128 - other.min.z as i128;
        let d3: i128 = self.max.x as i128 - other.max.x as i128;
        let d4: i128 = self.max.y as i128 - other.max.y as i128;
        let d5: i128 = self.max.z as i128 - other.max.z as i128;
        let e: i128 = epsilon as i128;
        -e <= d0 && d0 <= e && -e <= d1 && d1 <= e && -e <= d2 && d2 <= e
            && -e <= d3 && d3 <= e && -e <= d4 && d4 <= e && -e <= d5 && d5 <= e
    }
}

/// A point inside either box is inside the union of the boxes.
pub proof fn lemma_union_contains(a: BoundingBox, b: BoundingBox, p: Point3)
    ensures
        spec_contains(a, p) || spec_contains(b, p) ==> spec_contains(spec_union(a, b), p),
{
}

/// A point is inside the intersection of two boxes exactly when it is
/// inside both.
pub proof fn lemma_intersection_contains(a: BoundingBox, b: BoundingBox, p: Point3)
    ensures
        spec_contains(spec_intersection(a, b), p) <==> spec_contains(a, p) && spec_contains(b, p),
{
}

/// Dilating by a non-negative amount never loses a point.
pub proof fn lemma_dilate_grows(b: BoundingBox, d: i64, p: Point3)
    requires
        d >= 0,
        spec_contains(b, p),
    ensures
        spec_contains(spec_dilate(b, d), p),
{
}

} // verus!
