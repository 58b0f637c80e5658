//! Row-major 4x4 matrices over fixed-point entries (`SCALE` is one).

use vstd::prelude::*;

use crate::num::{lemma_tdiv_bound, tdiv, tdiv128};
use crate::vec4::{lemma_dot_bound, spec_dot, vec_in_range, Vec4};
use crate::SCALE;

verus! {

/// Magnitude bound accepted for matrix entries: twice the fixed-point
/// unit, enough for rotations and mild scaling.
pub const MAT_MAX: i64 = 2000;

#[derive(Clone, Copy, PartialEq, Eq, Structural, Debug)]
pub struct Mat4 {
    pub r0: Vec4,
    pub r1: Vec4,
    pub r2: Vec4,
    pub r3: Vec4,
}

/// Every entry within `[-b, b]`.
pub open spec fn mat_in_range(m: Mat4, b: int) -> bool {
    &&& vec_in_range(m.r0, b)
    &&& vec_in_range(m.r1, b)
    &&& vec_in_range(m.r2, b)
    &&& vec_in_range(m.r3, b)
}

impl Mat4 {
    /// The identity transform: `SCALE` on the diagonal.
    pub fn identity() -> (m: Mat4)
        ensures
            m.r0 == (Vec4 { x: SCALE, y: 0, z: 0, w: 0 }),
            m.r1 == (Vec4 { x: 0, y: SCALE, z: 0, w: 0 }),
            m.r2 == (Vec4 { x: 0, y: 0, z: SCALE, w: 0 }),
            m.r3 == (Vec4 { x: 0, y: 0, z: 0, w: SCALE }),
            mat_in_range(m, MAT_MAX as int),
    {
        Mat4 {
            r0: Vec4 { x: SCALE, y: 0, z: 0, w: 0 },
            r1: Vec4 { x: 0, y: SCALE, z: 0, w: 0 },
            r2: Vec4 { x: 0, y: 0, z: SCALE, w: 0 },
            r3: Vec4 { x: 0, y: 0, z: 0, w: SCALE },
        }
    }

    /// Column `c` of the matrix as a vector.
    pub fn column(&self, c: usize) -> (r: Vec4)
        requires
            c < 4,
        ensures
            c == 0 ==> r == (Vec4 { x: self.r0.x, y: self.r1.x, z: self.r2.x, w: self.r3.x }),
            c == 1 ==> r == (Vec4 { x: self.r0.y, y: self.r1.y, z: self.r2.y, w: self.r3.y }),
            c == 2 ==> r == (Vec4 { x: self.r0.z, y: self.r1.z, z: self.r2.z, w: self.r3.z }),
            c == 3 ==> r == (Vec4 { x: self.r0.w, y: self.r1.w, z: self.r2.w, w: self.r3.w }),
    {
        let x: i64 = self.r0.elem(c);
        let y: i64 = self.r1.elem(c);
        let z: i64 = self.r2.elem(c);
        let w: i64 = self.r3.elem(c);
        Vec4 { x, y, z, w }
    }

    /// Applies the transform to a point: each row's dot product with
    /// the vector, scaled back down by the fixed-point unit.
    pub fn transform_point(&self, v: Vec4) -> (r: Vec4)
        requires
            mat_in_range(*self, MAT_MAX as int),
            vec_in_range(v, 0x10000 as int),
        ensures
            r == spec_transform_point(*self, v),
            vec_in_range(r, 0x80000 as int),
    {
        proof {
            lemma_dot_bound(self.r0, v, MAT_MAX as int, 0x10000);
            lemma_dot_bound(self.r1, v, MAT_MAX as int, 0x10000);
            lemma_dot_bound(self.r2, v, MAT_MAX as int, 0x10000);
            lemma_dot_bound(self.r3, v, MAT_MAX as int, 0x10000);
            lemma_tdiv_bound(spec_dot(self.r0, v), SCALE as int, 0x80000);
            lemma_tdiv_bound(spec_dot(self.r1, v), SCALE as int, 0x80000);
            lemma_tdiv_bound(spec_dot(self.r2, v), SCALE as int, 0x80000);
            lemma_tdiv_bound(spec_dot(self.r3, v), SCALE as int, 0x80000);
        }
        let x: i128 = tdiv128(self.r0.dot(v) as i128, SCALE as i128);
        let y: i128 = tdiv128(self.r1.dot(v) as i128, SCALE as i128);
        let z: i128 = tdiv128(self.r2.dot(v) as i128, SCALE as i128);
        let w: i128 = tdiv128(self.r3.dot(v) as i128, SCALE as i128);
        Vec4 { x: x as i64, y: y as i64, z: z as i64, w: w as i64 }
    }

    /// Applies the transform to a direction: each row's dot product
    /// with the vector, without rescaling (directions are scale-free).
    pub fn rotate_dir(&self, v: Vec4) -> (r: Vec4)
        requires
            mat_in_range(*self, MAT_MAX as int),
            vec_in_range(v, 0x800 as int),
        ensures
            r.x as int == spec_dot(self.r0, v),
            r.y as int == spec_dot(self.r1, v),
            r.z as int == spec_dot(self.r2, v),
            r.w as int == spec_dot(self.r3, v),
            r == spec_rotate_dir(*self, v),
            vec_in_range(r, crate::DIR_MAX as int),
    {
        proof {
            lemma_dot_bound(self.r0, v, MAT_MAX as int, 0x800);
            lemma_dot_bound(self.r1, v, MAT_MAX as int, 0x800);
            lemma_dot_bound(self.r2, v, MAT_MAX as int, 0x800);
            lemma_dot_bound(self.r3, v, MAT_MAX as int, 0x800);
        }
        Vec4 { x: self.r0.dot(v), y: self.r1.dot(v), z: self.r2.dot(v), w: self.r3.dot(v) }
    }
}

/// The value `transform_point` returns.
pub open spec fn spec_transform_point(m: Mat4, v: Vec4) -> Vec4 {
    Vec4 {
        x: tdiv(spec_dot(m.r0, v), SCALE as int) as i64,
        y: tdiv(spec_dot(m.r1, v), SCALE as int) as i64,
        z: tdiv(spec_dot(m.r2, v), SCALE as int) as i64,
        w: tdiv(spec_dot(m.r3, v), SCALE as int) as i64,
    }
}

} // verus!

verus! {

/// The value `rotate_dir` returns.
pub open spec fn spec_rotate_dir(m: Mat4, v: Vec4) -> Vec4 {
    Vec4 {
        x: spec_dot(m.r0, v) as i64,
        y: spec_dot(m.r1, v) as i64,
        z: spec_dot(m.r2, v) as i64,
        w: spec_dot(m.r3, v) as i64,
    }
}

} // verus!
