//! An implicit-surface solid-modeling kernel over fixed-point scalars.
//!
//! Solids are scalar fields: a field value is negative inside the solid,
//! zero on its surface and positive outside.  Composite solids combine the
//! fields of their children with smooth minimum / maximum blends, pruned by
//! conservative axis-aligned bounding boxes.  All arithmetic is carried out
//! on `i64` fixed-point scalars with [`scalar::SCALE`] units per 1.0, so the
//! whole evaluation pipeline is exact integer arithmetic and is verified.
//!
//! The modules, from the bottom up:
//! - [`scalar`]: saturating fixed-point arithmetic and an integer square
//!   root; the extreme `i64` values serve as infinity sentinels.
//! - [`geom`]: points, vectors, affine transforms and normalization.
//! - [`bbox`]: axis-aligned bounding boxes with union, intersection,
//!   dilation, transform, containment and a conservative signed distance.
//! - [`blend`]: the smooth minimum / maximum with its single-pass
//!   proximity heuristic and fixed-point exponential and logarithm.
//! - [`csg`]: the object tree — constant leaves, smooth unions and
//!   intersections, negation — with field evaluation, normal estimation
//!   and parameter broadcast.
//! - [`tables`]: the shared-memory table layouts of a wireless
//!   coprocessor, with verified bit-field accessors.

pub mod bbox;
pub mod blend;
pub mod csg;
pub mod geom;
pub mod scalar;
pub mod tables;
