//! Points, vectors and affine transforms over fixed-point scalars.
//!
//! The kernel only needs the small slice of linear algebra that is written
//! out here: componentwise arithmetic, an affine map applied to a point and
//! the normalization of a gradient vector.

use vstd::prelude::*;

use crate::scalar::SCALE;
use crate::scalar::clip;
use crate::scalar::isqrt;
use crate::scalar::lemma_i64_mul_fits;
use crate::scalar::spec_isqrt;
use crate::scalar::wide_floor_div;

verus! {

/// A location in space, one fixed-point scalar per axis.
#[derive(Clone, Copy, Debug, PartialEq, Eq, Structural)]
pub struct Point3 {
    /// X coordinate.
    pub x: i64,
    /// Y coordinate.
    pub y: i64,
    /// Z coordinate.
    pub z: i64,
}

/// A direction or displacement, one fixed-point scalar per axis.
#[derive(Clone, Copy, Debug, PartialEq, Eq, Structural)]
pub struct Vector3 {
    /// X component.
    pub x: i64,
    /// Y component.
    pub y: i64,
    /// Z component.
    pub z: i64,
}

impl Point3 {
    /// Pack three coordinates into a point.
    pub fn new(x: i64, y: i64, z: i64) -> (r: Point3)
        ensures
            r.x == x && r.y == y && r.z == z,
    {
        Point3 { x, y, z }
    }
}

impl Vector3 {
    /// Pack three components into a vector.
    pub fn new(x: i64, y: i64, z: i64) -> (r: Vector3)
        ensures
            r.x == x && r.y == y && r.z == z,
    {
        Vector3 { x, y, z }
    }
}

/// An affine map: a 3x3 linear part (rows `r0`, `r1`, `r2`, fixed-point
/// entries) followed by a translation `t`.  This is the top 3x4 block of the
/// homogeneous 4x4 matrices that a general linear-algebra library would
/// supply; the kernel never uses a perspective bottom row.
#[derive(Clone, Copy, Debug, PartialEq, Eq, Structural)]
pub struct Transform {
    /// First row of the linear part.
    pub r0: Vector3,
    /// Second row of the linear part.
    pub r1: Vector3,
    /// Third row of the linear part.
    pub r2: Vector3,
    /// Translation applied after the linear part.
    pub t: Vector3,
}

/// Bound on the intermediate products of a transform row, wide enough for
/// any scalar scaled by `SCALE`.
pub open spec fn wide_limit() -> int {
    (i64::MAX as int) * (SCALE as int)
}

/// Saturate a row product into the wide intermediate range.
pub open spec fn clip_wide(x: int) -> int {
    if x > wide_limit() {
        wide_limit()
    } else if x < -wide_limit() {
        -wide_limit()
    } else {
        x
    }
}

/// One output coordinate of an affine map: the fixed-point dot product of a
/// row with the point, plus the translation, saturated.
pub open spec fn spec_apply_row(row: Vector3, p: Point3, t: i64) -> int {
    clip(
        (clip_wide(row.x * p.x) + clip_wide(row.y * p.y) + clip_wide(row.z * p.z))
            / (SCALE as int) + t,
    )
}

/// Where an affine map sends a point.
pub open spec fn spec_transform_point(m: Transform, p: Point3) -> Point3 {
    Point3 {
        x: spec_apply_row(m.r0, p, m.t.x) as i64,
        y: spec_apply_row(m.r1, p, m.t.y) as i64,
        z: spec_apply_row(m.r2, p, m.t.z) as i64,
    }
}

fn apply_row(row: &Vector3, p: &Point3, t: i64) -> (r: i64)
    ensures
        r as int == spec_apply_row(*row, *p, t),
{
    proof {
        lemma_i64_mul_fits(row.x as int, p.x as int);
        lemma_i64_mul_fits(row.y as int, p.y as int);
        lemma_i64_mul_fits(row.z as int, p.z as int);
    }
    let w: i128 = (i64::MAX as i128) * (SCALE as i128);
    let px: i128 = (row.x as i128) * (p.x as i128);
    let py: i128 = (row.y as i128) * (p.y as i128);
    let pz: i128 = (row.z as i128) * (p.z as i128);
    let cx: i128 = if px > w { w } else if px < -w { -w } else { px };
    let cy: i128 = if py > w { w } else if py < -w { -w } else { py };
    let cz: i128 = if pz > w { w } else if pz < -w { -w } else { pz };
    let q: i128 = wide_floor_div(cx + cy + cz, SCALE as i128);
    let s: i128 = q + (t as i128);
    if s > i64::MAX as i128 {
        i64::MAX
    } else if s < i64::MIN as i128 {
        i64::MIN
    } else {
        s as i64
    }
}

impl Transform {
    /// Apply the map to a point.
    pub fn transform_point(&self, p: &Point3) -> (r: Point3)
        ensures
            r == spec_transform_point(*self, *p),
    {
        Point3 {
            x: apply_row(&self.r0, p, self.t.x),
            y: apply_row(&self.r1, p, self.t.y),
            z: apply_row(&self.r2, p, self.t.z),
        }
    }
}

/// Halve a component (floor), used to pull huge gradients into a range
/// whose squares can be summed.
pub open spec fn spec_half(c: int) -> int {
    c / 2
}

/// Whether a gradient is too large to square directly.
pub open spec fn spec_needs_shrink(v: Vector3) -> bool {
    v.x > 0x4000_0000_0000_0000 || v.x < -0x4000_0000_0000_0000
        || v.y > 0x4000_0000_0000_0000 || v.y < -0x4000_0000_0000_0000
        || v.z > 0x4000_0000_0000_0000 || v.z < -0x4000_0000_0000_0000
}

/// The squared length of a (possibly pre-halved) vector.
pub open spec fn spec_norm_sq(x: int, y: int, z: int) -> int {
    x * x + y * y + z * z
}

/// The normalized direction of `v`: each component scaled by
/// `SCALE / |v|`, or the zero vector if `v` is zero.
pub open spec fn spec_normalize(v: Vector3) -> Vector3 {
    let x: int = if spec_needs_shrink(v) { spec_half(v.x as int) } else { v.x as int };
    let y: int = if spec_needs_shrink(v) { spec_half(v.y as int) } else { v.y as int };
    let z: int = if spec_needs_shrink(v) { spec_half(v.z as int) } else { v.z as int };
    let n: int = spec_isqrt(spec_norm_sq(x, y, z));
    if n == 0 {
        Vector3 { x: 0, y: 0, z: 0 }
    } else {
        Vector3 {
            x: clip((x * SCALE) / n) as i64,
            y: clip((y * SCALE) / n) as i64,
            z: clip((z * SCALE) / n) as i64,
        }
    }
}

fn scale_by_norm(c: i128, n: u128) -> (r: i64)
    requires
        n > 0,
        n <= 0x8000_0000_0000_0000,
        -0x8000_0000_0000_0000 <= c <= 0x7fff_ffff_ffff_ffff,
    ensures
        r as int == clip((c * SCALE) / (n as int)),
{
    proof {
        lemma_i64_mul_fits(c as int, SCALE as int);
    }
    let q: i128 = wide_floor_div(c * (SCALE as i128), n as i128);
    if q > i64::MAX as i128 {
        i64::MAX
    } else if q < i64::MIN as i128 {
        i64::MIN
    } else {
        q as i64
    }
}

/// Scale a vector to unit length (in fixed-point units); the zero vector
/// stays zero.
pub fn normalize(v: &Vector3) -> (r: Vector3)
    ensures
        r == spec_normalize(*v),
{
    let shrink = v.x > 0x4000_0000_0000_0000 || v.x < -0x4000_0000_0000_0000
        || v.y > 0x4000_0000_0000_0000 || v.y < -0x4000_0000_0000_0000
        || v.z > 0x4000_0000_0000_0000 || v.z < -0x4000_0000_0000_0000;
    let x: i128 = if shrink {
        wide_floor_div(v.x as i128, 2)
    } else {
        v.x as i128
    };
    let y: i128 = if shrink {
        wide_floor_div(v.y as i128, 2)
    } else {
        v.y as i128
    };
    let z: i128 = if shrink {
        wide_floor_div(v.z as i128, 2)
    } else {
        v.z as i128
    };
    let ax: u128 = if x >= 0 { x as u128 } else { (-x) as u128 };
    let ay: u128 = if y >= 0 { y as u128 } else { (-y) as u128 };
    let az: u128 = if z >= 0 { z as u128 } else { (-z) as u128 };
    proof {
        assert(ax * ax <= 0x4000_0000_0000_0000 * 0x4000_0000_0000_0000int)
            by (nonlinear_arith)
            requires ax <= 0x4000_0000_0000_0000u128;
        assert(ay * ay <= 0x4000_0000_0000_0000 * 0x4000_0000_0000_0000int)
            by (nonlinear_arith)
            requires ay <= 0x4000_0000_0000_0000u128;
        assert(az * az <= 0x4000_0000_0000_0000 * 0x4000_0000_0000_0000int)
            by (nonlinear_arith)
            requires az <= 0x4000_0000_0000_0000u128;
        assert((ax * ax) as int == (x * x) as int) by (nonlinear_arith)
            requires ax as int == if x >= 0 { x as int } else { -(x as int) };
        assert((ay * ay) as int == (y * y) as int) by (nonlinear_arith)
            requires ay as int == if y >= 0 { y as int } else { -(y as int) };
        assert((az * az) as int == (z * z) as int) by (nonlinear_arith)
            requires az as int == if z >= 0 { z as int } else { -(z as int) };
    }
    let sq: u128 = ax * ax + ay * ay + az * az;
    let n: u128 = isqrt(sq);
    if n == 0 {
        proof {
            crate::scalar::lemma_isqrt_bounds(sq as int);
            assert(x == 0 && y == 0 && z == 0) by (nonlinear_arith)
                requires
                    (x * x + y * y + z * z) as int == sq as int,
                    sq < 1,
            ;
        }
        Vector3 { x: 0, y: 0, z: 0 }
    } else {
        proof {
            crate::scalar::lemma_isqrt_bounds(sq as int);
            assert(n * n <= sq);
            assert(n <= 0x8000_0000_0000_0000u128) by (nonlinear_arith)
                requires
                    n * n <= sq,
                    sq <= 3 * (0x4000_0000_0000_0000 * 0x4000_0000_0000_0000int),
            ;
        }
        Vector3 {
            x: scale_by_norm(x, n),
            y: scale_by_norm(y, n),
            z: scale_by_norm(z, n),
        }
    }
}

} // verus!
