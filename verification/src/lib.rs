//! An offline CPU ray tracer kernel over exact integer geometry.
//!
//! Scene coordinates are integers (a caller-chosen fixed-point lattice);
//! parametric distances along rays are exact rationals represented as
//! integer numerator/denominator pairs.  Shading works in fixed point
//! with `SCALE` as the unit.  Every geometric decision (slab test,
//! box-triangle separating axes, ray-triangle intersection, KD-tree
//! traversal, closest-hit selection, shadow occlusion) is exact, so the
//! contracts below pin each result completely.

use vstd::prelude::*;

pub mod aabb;
pub mod kdtree;
pub mod mat4;
pub mod material;
pub mod num;
pub mod scene;
pub mod triangle;
pub mod tracer;
pub mod vec4;

verus! {

/// Fixed-point unit: the integer that stands for the real number one
/// in normals, colors and matrix entries.
pub const SCALE: i64 = 1000;

/// Bound on the magnitude of every scene coordinate (vertices, lights,
/// camera).  Chosen so that all intermediate products of the exact
/// intersection arithmetic fit in `i128`.
pub const COORD_MAX: i64 = 262144;

/// Bound on the magnitude of KD-tree box corners (scene bound plus the
/// accumulated epsilon expansions of the build).
pub const BOX_MAX: i64 = 524288;

/// Bound on the magnitude of ray origins (transformed camera points and
/// offset shadow-ray starts).
pub const ORIGIN_MAX: i64 = 524288;

/// Bound on the magnitude of ray direction components.
pub const DIR_MAX: i64 = 16777216;

} // verus!
