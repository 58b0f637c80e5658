//! Homogeneous 4-component vectors over integer coordinates, with
//! fixed-point normalization (unit length is `SCALE`).

use vstd::prelude::*;

use crate::num::{is_isqrt, lemma_abs_mul_le, lemma_sq_nonneg, lemma_tdiv_bound, spec_isqrt, tdiv};
use crate::num::{isqrt, tdiv128};
use crate::SCALE;

verus! {

/// Magnitude bound accepted by the componentwise vector operations.
pub const VEC_MAX: i64 = 0x40000000;

/// Larger magnitude bound accepted by `length` and `normalize` (face
/// normals are cross products of coordinate differences).
pub const LEN_MAX: i64 = 0x20000000000;

#[derive(Clone, Copy, PartialEq, Eq, Structural, Debug)]
pub struct Vec4 {
    pub x: i64,
    pub y: i64,
    pub z: i64,
    pub w: i64,
}

/// A vertex position together with its accumulated shading normal.
#[derive(Clone, Copy, PartialEq, Eq, Structural, Debug)]
pub struct NVec4 {
    pub v: Vec4,
    pub n: Vec4,
}

/// Every component within `[-b, b]`.
pub open spec fn vec_in_range(v: Vec4, b: int) -> bool {
    &&& -b <= v.x as int <= b
    &&& -b <= v.y as int <= b
    &&& -b <= v.z as int <= b
    &&& -b <= v.w as int <= b
}

/// The four-component dot product.
pub open spec fn spec_dot(a: Vec4, b: Vec4) -> int {
    (a.x as int) * (b.x as int) + (a.y as int) * (b.y as int) + (a.z as int) * (b.z as int) + (
    a.w as int) * (b.w as int)
}

/// The x component of the three-dimensional cross product.
pub open spec fn spec_cross_x(a: Vec4, b: Vec4) -> int {
    (a.y as int) * (b.z as int) - (a.z as int) * (b.y as int)
}

/// The y component of the three-dimensional cross product.
pub open spec fn spec_cross_y(a: Vec4, b: Vec4) -> int {
    (a.z as int) * (b.x as int) - (a.x as int) * (b.z as int)
}

/// The z component of the three-dimensional cross product.
pub open spec fn spec_cross_z(a: Vec4, b: Vec4) -> int {
    (a.x as int) * (b.y as int) - (a.y as int) * (b.x as int)
}

/// The componentwise sum, as a spec value.
pub open spec fn spec_plus(a: Vec4, b: Vec4) -> Vec4 {
    Vec4 {
        x: (a.x + b.x) as i64,
        y: (a.y + b.y) as i64,
        z: (a.z + b.z) as i64,
        w: (a.w + b.w) as i64,
    }
}

/// The componentwise difference, as a spec value.
pub open spec fn spec_minus(a: Vec4, b: Vec4) -> Vec4 {
    Vec4 {
        x: (a.x - b.x) as i64,
        y: (a.y - b.y) as i64,
        z: (a.z - b.z) as i64,
        w: (a.w - b.w) as i64,
    }
}

/// The componentwise negation, as a spec value.
pub open spec fn spec_neg(a: Vec4) -> Vec4 {
    Vec4 { x: (-a.x) as i64, y: (-a.y) as i64, z: (-a.z) as i64, w: (-a.w) as i64 }
}

/// The fixed-point normalization of `v`, as a spec value.
pub open spec fn spec_normalize(v: Vec4) -> Vec4 {
    Vec4 {
        x: spec_norm(v.x as int, spec_len(v)) as i64,
        y: spec_norm(v.y as int, spec_len(v)) as i64,
        z: spec_norm(v.z as int, spec_len(v)) as i64,
        w: spec_norm(v.w as int, spec_len(v)) as i64,
    }
}

/// Componentwise bounds on two vectors bound their dot product.
pub proof fn lemma_dot_bound(a: Vec4, b: Vec4, ba: int, bb: int)
    requires
        vec_in_range(a, ba),
        vec_in_range(b, bb),
        0 <= ba,
        0 <= bb,
    ensures
        -(4 * (ba * bb)) <= spec_dot(a, b) <= 4 * (ba * bb),
{
    lemma_abs_mul_le(a.x as int, b.x as int, ba, bb);
    lemma_abs_mul_le(a.y as int, b.y as int, ba, bb);
    lemma_abs_mul_le(a.z as int, b.z as int, ba, bb);
    lemma_abs_mul_le(a.w as int, b.w as int, ba, bb);
}

/// The sum of the four squared components.
pub open spec fn spec_sumsq(v: Vec4) -> int {
    (v.x as int) * (v.x as int) + (v.y as int) * (v.y as int) + (v.z as int) * (v.z as int) + (
    v.w as int) * (v.w as int)
}

/// The integer length of `v`: the square root of the sum of the four
/// squared components, rounded down.
pub open spec fn spec_len(v: Vec4) -> int {
    spec_isqrt(spec_sumsq(v))
}

/// A fixed-point normalized component: `c * SCALE / |v|`, toward zero.
pub open spec fn spec_norm(c: int, len: int) -> int {
    tdiv(c * (SCALE as int), len)
}

impl Vec4 {
    pub fn new(x: i64, y: i64, z: i64, w: i64) -> (r: Vec4)
        ensures
            r == (Vec4 { x, y, z, w }),
    {
        Vec4 { x, y, z, w }
    }

    /// Component `c` of the vector, x through w in order.
    pub fn elem(&self, c: usize) -> (r: i64)
        requires
            c < 4,
        ensures
            c == 0 ==> r == self.x,
            c == 1 ==> r == self.y,
            c == 2 ==> r == self.z,
            c == 3 ==> r == self.w,
    {
        match c {
            0 => self.x,
            1 => self.y,
            2 => self.z,
            _ => self.w,
        }
    }

    /// Replaces component `c` of the vector.
    pub fn set_elem(&mut self, c: usize, val: i64)
        requires
            c < 4,
        ensures
            c == 0 ==> *final(self) == (Vec4 { x: val, ..*old(self) }),
            c == 1 ==> *final(self) == (Vec4 { y: val, ..*old(self) }),
            c == 2 ==> *final(self) == (Vec4 { z: val, ..*old(self) }),
            c == 3 ==> *final(self) == (Vec4 { w: val, ..*old(self) }),
    {
        match c {
            0 => {
                self.x = val;
            },
            1 => {
                self.y = val;
            },
            2 => {
                self.z = val;
            },
            _ => {
                self.w = val;
            },
        }
    }

    /// Componentwise sum.
    pub fn plus(&self, other: Vec4) -> (r: Vec4)
        requires
            vec_in_range(*self, VEC_MAX as int),
            vec_in_range(other, VEC_MAX as int),
        ensures
            r.x as int == self.x as int + other.x as int,
            r.y as int == self.y as int + other.y as int,
            r.z as int == self.z as int + other.z as int,
            r.w as int == self.w as int + other.w as int,
    {
        Vec4 {
            x: self.x + other.x,
            y: self.y + other.y,
            z: self.z + other.z,
            w: self.w + other.w,
        }
    }

    /// Componentwise difference.
    pub fn minus(&self, other: Vec4) -> (r: Vec4)
        requires
            vec_in_range(*self, VEC_MAX as int),
            vec_in_range(other, VEC_MAX as int),
        ensures
            r.x as int == self.x as int - other.x as int,
            r.y as int == self.y as int - other.y as int,
            r.z as int == self.z as int - other.z as int,
            r.w as int == self.w as int - other.w as int,
    {
        Vec4 {
            x: self.x - other.x,
            y: self.y - other.y,
            z: self.z - other.z,
            w: self.w - other.w,
        }
    }

    /// Componentwise product with a scalar.
    pub fn scale(&self, k: i64) -> (r: Vec4)
        requires
            vec_in_range(*self, VEC_MAX as int),
            -VEC_MAX <= k <= VEC_MAX,
        ensures
            r.x as int == self.x as int * k as int,
            r.y as int == self.y as int * k as int,
            r.z as int == self.z as int * k as int,
            r.w as int == self.w as int * k as int,
    {
        proof {
            lemma_abs_mul_le(self.x as int, k as int, VEC_MAX as int, VEC_MAX as int);
            lemma_abs_mul_le(self.y as int, k as int, VEC_MAX as int, VEC_MAX as int);
            lemma_abs_mul_le(self.z as int, k as int, VEC_MAX as int, VEC_MAX as int);
            lemma_abs_mul_le(self.w as int, k as int, VEC_MAX as int, VEC_MAX as int);
        }
        Vec4 { x: self.x * k, y: self.y * k, z: self.z * k, w: self.w * k }
    }

    /// Term-by-term product of two vectors.
    pub fn cmul(&self, other: Vec4) -> (r: Vec4)
        requires
            vec_in_range(*self, VEC_MAX as int),
            vec_in_range(other, VEC_MAX as int),
        ensures
            r.x as int == self.x as int * other.x as int,
            r.y as int == self.y as int * other.y as int,
            r.z as int == self.z as int * other.z as int,
            r.w as int == self.w as int * other.w as int,
    {
        proof {
            lemma_abs_mul_le(self.x as int, other.x as int, VEC_MAX as int, VEC_MAX as int);
            lemma_abs_mul_le(self.y as int, other.y as int, VEC_MAX as int, VEC_MAX as int);
            lemma_abs_mul_le(self.z as int, other.z as int, VEC_MAX as int, VEC_MAX as int);
            lemma_abs_mul_le(self.w as int, other.w as int, VEC_MAX as int, VEC_MAX as int);
        }
        Vec4 {
            x: self.x * other.x,
            y: self.y * other.y,
            z: self.z * other.z,
            w: self.w * other.w,
        }
    }

    /// The four-component dot product.
    pub fn dot(&self, other: Vec4) -> (r: i64)
        requires
            vec_in_range(*self, VEC_MAX as int),
            vec_in_range(other, VEC_MAX as int),
        ensures
            r as int == spec_dot(*self, other),
    {
        proof {
            lemma_abs_mul_le(self.x as int, other.x as int, VEC_MAX as int, VEC_MAX as int);
            lemma_abs_mul_le(self.y as int, other.y as int, VEC_MAX as int, VEC_MAX as int);
            lemma_abs_mul_le(self.z as int, other.z as int, VEC_MAX as int, VEC_MAX as int);
            lemma_abs_mul_le(self.w as int, other.w as int, VEC_MAX as int, VEC_MAX as int);
        }
        self.x * other.x + self.y * other.y + self.z * other.z + self.w * other.w
    }

    /// The three-dimensional cross product, with `w` set to zero.
    pub fn cross(&self, other: Vec4) -> (r: Vec4)
        requires
            vec_in_range(*self, VEC_MAX as int),
            vec_in_range(other, VEC_MAX as int),
        ensures
            r.x as int == spec_cross_x(*self, other),
            r.y as int == spec_cross_y(*self, other),
            r.z as int == spec_cross_z(*self, other),
            r.w == 0i64,
    {
        proof {
            lemma_abs_mul_le(self.y as int, other.z as int, VEC_MAX as int, VEC_MAX as int);
            lemma_abs_mul_le(self.z as int, other.y as int, VEC_MAX as int, VEC_MAX as int);
            lemma_abs_mul_le(self.z as int, other.x as int, VEC_MAX as int, VEC_MAX as int);
            lemma_abs_mul_le(self.x as int, other.z as int, VEC_MAX as int, VEC_MAX as int);
            lemma_abs_mul_le(self.x as int, other.y as int, VEC_MAX as int, VEC_MAX as int);
            lemma_abs_mul_le(self.y as int, other.x as int, VEC_MAX as int, VEC_MAX as int);
        }
        Vec4 {
            x: self.y * other.z - self.z * other.y,
            y: self.z * other.x - self.x * other.z,
            z: self.x * other.y - self.y * other.x,
            w: 0,
        }
    }

    /// The rounded-down Euclidean length over all four components.
    pub fn length(&self) -> (r: i64)
        requires
            vec_in_range(*self, LEN_MAX as int),
        ensures
            r as int == spec_len(*self),
            is_isqrt(r as int, spec_sumsq(*self)),
            0 <= r <= 0x40000000000,
    {
        proof {
            lemma_abs_mul_le(self.x as int, self.x as int, LEN_MAX as int, LEN_MAX as int);
            lemma_abs_mul_le(self.y as int, self.y as int, LEN_MAX as int, LEN_MAX as int);
            lemma_abs_mul_le(self.z as int, self.z as int, LEN_MAX as int, LEN_MAX as int);
            lemma_abs_mul_le(self.w as int, self.w as int, LEN_MAX as int, LEN_MAX as int);
            lemma_sq_nonneg(self.x as int);
            lemma_sq_nonneg(self.y as int);
            lemma_sq_nonneg(self.z as int);
            lemma_sq_nonneg(self.w as int);
        }
        let xs: i128 = (self.x as i128) * (self.x as i128);
        let ys: i128 = (self.y as i128) * (self.y as i128);
        let zs: i128 = (self.z as i128) * (self.z as i128);
        let ws: i128 = (self.w as i128) * (self.w as i128);
        let sum: u128 = (xs + ys + zs + ws) as u128;
        let r: u64 = isqrt(sum);
        proof {
            assert(is_isqrt(r as int, sum as int));
            assert((0x40000000000int + 1) * (0x40000000000int + 1) > sum as int) by (nonlinear_arith)
                requires
                    sum as int <= 4 * (0x20000000000int * 0x20000000000int),
            ;
            if r as int > 0x40000000000int {
                crate::num::lemma_sq_mono(0x40000000000int + 1, r as int);
                assert(false);
            }
        }
        r as i64
    }

    /// Fixed-point normalization: each component becomes
    /// `c * SCALE / |v|`, so a unit vector has magnitude `SCALE`.
    /// The zero vector is excluded: its direction is undefined.
    pub fn normalize(&self) -> (r: Vec4)
        requires
            vec_in_range(*self, LEN_MAX as int),
            !(self.x == 0 && self.y == 0 && self.z == 0 && self.w == 0),
        ensures
            r.x as int == spec_norm(self.x as int, spec_len(*self)),
            r.y as int == spec_norm(self.y as int, spec_len(*self)),
            r.z as int == spec_norm(self.z as int, spec_len(*self)),
            r.w as int == spec_norm(self.w as int, spec_len(*self)),
            r == spec_normalize(*self),
            vec_in_range(r, SCALE as int),
            spec_len(*self) > 0,
    {
        let len: i64 = self.length();
        proof {
            let n = spec_sumsq(*self);
            assert(n >= 1) by (nonlinear_arith)
                requires
                    !(self.x as int == 0 && self.y as int == 0 && self.z as int == 0
                        && self.w as int == 0),
                    n == (self.x as int) * (self.x as int) + (self.y as int) * (self.y as int) + (
                    self.z as int) * (self.z as int) + (self.w as int) * (self.w as int),
            ;
            assert(is_isqrt(len as int, n));
            if len == 0 {
                assert(n < (0 + 1) * (0 + 1));
                assert(false);
            }
            lemma_sq_nonneg(self.x as int);
            lemma_sq_nonneg(self.y as int);
            lemma_sq_nonneg(self.z as int);
            lemma_sq_nonneg(self.w as int);
            lemma_component_le_len(self.x as int, n, len as int);
            lemma_component_le_len(self.y as int, n, len as int);
            lemma_component_le_len(self.z as int, n, len as int);
            lemma_component_le_len(self.w as int, n, len as int);
            lemma_abs_mul_le(self.x as int, SCALE as int, len as int, SCALE as int);
            lemma_abs_mul_le(self.y as int, SCALE as int, len as int, SCALE as int);
            lemma_abs_mul_le(self.z as int, SCALE as int, len as int, SCALE as int);
            lemma_abs_mul_le(self.w as int, SCALE as int, len as int, SCALE as int);
            lemma_tdiv_bound((self.x as int) * (SCALE as int), len as int, SCALE as int);
            lemma_tdiv_bound((self.y as int) * (SCALE as int), len as int, SCALE as int);
            lemma_tdiv_bound((self.z as int) * (SCALE as int), len as int, SCALE as int);
            lemma_tdiv_bound((self.w as int) * (SCALE as int), len as int, SCALE as int);
        }
        let nx: i128 = tdiv128((self.x as i128) * (SCALE as i128), len as i128);
        let ny: i128 = tdiv128((self.y as i128) * (SCALE as i128), len as i128);
        let nz: i128 = tdiv128((self.z as i128) * (SCALE as i128), len as i128);
        let nw: i128 = tdiv128((self.w as i128) * (SCALE as i128), len as i128);
        Vec4 { x: nx as i64, y: ny as i64, z: nz as i64, w: nw as i64 }
    }
}

/// If `c * c` is below `n` and `len` is the integer square root of `n`,
/// then `|c| <= len`.
proof fn lemma_component_le_len(c: int, n: int, len: int)
    by (nonlinear_arith)
    requires
        c * c <= n,
        is_isqrt(len, n),
    ensures
        -len <= c <= len,
{
}

} // verus!
