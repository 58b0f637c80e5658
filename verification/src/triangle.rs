//! Triangles: face normal, interpolated shading normal, midpoint, and
//! bounding box.

use vstd::prelude::*;

use crate::aabb::AABB;
use crate::material::Material;
use crate::num::{lemma_abs_mul_le, lemma_tdiv_bound, tdiv};
use crate::num::tdiv128;
use crate::vec4::{lemma_dot_bound, spec_cross_x, spec_cross_y, spec_cross_z, spec_dot, spec_len,
    spec_norm, spec_plus, vec_in_range, NVec4, Vec4};
use crate::{COORD_MAX, ORIGIN_MAX, SCALE};

verus! {

#[derive(Clone, Copy)]
pub struct Triangle {
    pub p0: NVec4,
    pub p1: NVec4,
    pub p2: NVec4,
    pub mat: Option<Material>,
}

/// The smallest of three values.
pub open spec fn min3(a: int, b: int, c: int) -> int {
    if a <= b && a <= c {
        a
    } else if b <= c {
        b
    } else {
        c
    }
}

/// The largest of three values.
pub open spec fn max3(a: int, b: int, c: int) -> int {
    if a >= b && a >= c {
        a
    } else if b >= c {
        b
    } else {
        c
    }
}

/// The triangle's positions lie within `[-b, b]` componentwise.
pub open spec fn tri_in_range(t: Triangle, b: int) -> bool {
    &&& vec_in_range(t.p0.v, b)
    &&& vec_in_range(t.p1.v, b)
    &&& vec_in_range(t.p2.v, b)
}

/// The triangle's vertex normals are fixed-point unit-scale vectors.
pub open spec fn tri_normals_in_range(t: Triangle, b: int) -> bool {
    &&& vec_in_range(t.p0.n, b)
    &&& vec_in_range(t.p1.n, b)
    &&& vec_in_range(t.p2.n, b)
}

/// Scene-ready triangle: positions within `COORD_MAX` and vertex
/// normals at fixed-point unit scale.
pub open spec fn tri_ok(t: Triangle) -> bool {
    &&& tri_in_range(t, COORD_MAX as int)
    &&& tri_normals_in_range(t, SCALE as int)
}

/// First edge vector, `p1 - p0`, as a spec value.
pub open spec fn tri_e1(t: Triangle) -> Vec4 {
    Vec4 {
        x: (t.p1.v.x - t.p0.v.x) as i64,
        y: (t.p1.v.y - t.p0.v.y) as i64,
        z: (t.p1.v.z - t.p0.v.z) as i64,
        w: (t.p1.v.w - t.p0.v.w) as i64,
    }
}

/// Second edge vector, `p2 - p0`, as a spec value.
pub open spec fn tri_e2(t: Triangle) -> Vec4 {
    Vec4 {
        x: (t.p2.v.x - t.p0.v.x) as i64,
        y: (t.p2.v.y - t.p0.v.y) as i64,
        z: (t.p2.v.z - t.p0.v.z) as i64,
        w: (t.p2.v.w - t.p0.v.w) as i64,
    }
}

/// The unnormalized face normal: the cross product of the two edges.
pub open spec fn tri_normal_x(t: Triangle) -> int {
    spec_cross_x(tri_e1(t), tri_e2(t))
}

/// The y component of the unnormalized face normal.
pub open spec fn tri_normal_y(t: Triangle) -> int {
    spec_cross_y(tri_e1(t), tri_e2(t))
}

/// The z component of the unnormalized face normal.
pub open spec fn tri_normal_z(t: Triangle) -> int {
    spec_cross_z(tri_e1(t), tri_e2(t))
}

/// The triangle is not collinear: its face normal is nonzero.
pub open spec fn tri_nondegenerate(t: Triangle) -> bool {
    !(tri_normal_x(t) == 0 && tri_normal_y(t) == 0 && tri_normal_z(t) == 0)
}

impl Triangle {
    /// The fixed-point unit face normal: the normalized cross product
    /// of the two edge vectors.  Collinear triangles are excluded:
    /// their normal is undefined.
    pub fn normal(&self) -> (r: Vec4)
        requires
            tri_in_range(*self, COORD_MAX as int),
            tri_nondegenerate(*self),
        ensures
            ({
                let c = Vec4 {
                    x: tri_normal_x(*self) as i64,
                    y: tri_normal_y(*self) as i64,
                    z: tri_normal_z(*self) as i64,
                    w: 0i64,
                };
                &&& r.x as int == spec_norm(tri_normal_x(*self), spec_len(c))
                &&& r.y as int == spec_norm(tri_normal_y(*self), spec_len(c))
                &&& r.z as int == spec_norm(tri_normal_z(*self), spec_len(c))
                &&& r.w == 0i64
                &&& vec_in_range(r, SCALE as int)
            }),
    {
        let a: Vec4 = self.p1.v.minus(self.p0.v);
        let b: Vec4 = self.p2.v.minus(self.p0.v);
        let c: Vec4 = a.cross(b);
        proof {
            lemma_abs_mul_le(a.y as int, b.z as int, 0x80000, 0x80000);
            lemma_abs_mul_le(a.z as int, b.y as int, 0x80000, 0x80000);
            lemma_abs_mul_le(a.z as int, b.x as int, 0x80000, 0x80000);
            lemma_abs_mul_le(a.x as int, b.z as int, 0x80000, 0x80000);
            lemma_abs_mul_le(a.x as int, b.y as int, 0x80000, 0x80000);
            lemma_abs_mul_le(a.y as int, b.x as int, 0x80000, 0x80000);
        }
        c.normalize()
    }

    /// The shading normal at `p`: the barycentric interpolation of the
    /// three vertex normals, normalized.  Where the interpolation is
    /// degenerate (a collapsed denominator, an oversized coordinate, or
    /// a zero interpolated vector) the flat face normal stands in.
    pub fn normal_interp(&self, p: &Vec4) -> (r: Vec4)
        requires
            tri_in_range(*self, COORD_MAX as int),
            tri_normals_in_range(*self, SCALE as int),
            tri_nondegenerate(*self),
            vec_in_range(*p, 2 * ORIGIN_MAX as int),
        ensures
            r == spec_normal_interp(*self, *p),
            vec_in_range(r, SCALE as int),
    {
        let v0: Vec4 = self.p1.v.minus(self.p0.v);
        let v1: Vec4 = self.p2.v.minus(self.p0.v);
        let v2: Vec4 = p.minus(self.p0.v);

        let d00: i64 = v0.dot(v0);
        let d01: i64 = v0.dot(v1);
        let d11: i64 = v1.dot(v1);
        let d20: i64 = v2.dot(v0);
        let d21: i64 = v2.dot(v1);

        proof {
            lemma_dot_bound(v0, v0, 0x100000, 0x100000);
            lemma_dot_bound(v0, v1, 0x100000, 0x100000);
            lemma_dot_bound(v1, v1, 0x100000, 0x100000);
            lemma_dot_bound(v2, v0, 0x200000, 0x100000);
            lemma_dot_bound(v2, v1, 0x200000, 0x100000);
            lemma_abs_mul_le(d00 as int, d11 as int, 0x40000000000, 0x40000000000);
            lemma_abs_mul_le(d01 as int, d01 as int, 0x40000000000, 0x40000000000);
            lemma_abs_mul_le(d11 as int, d20 as int, 0x40000000000, 0x80000000000);
            lemma_abs_mul_le(d01 as int, d21 as int, 0x40000000000, 0x80000000000);
            lemma_abs_mul_le(d00 as int, d21 as int, 0x40000000000, 0x80000000000);
            lemma_abs_mul_le(d01 as int, d20 as int, 0x40000000000, 0x80000000000);
        }
        let denom: i128 = (d00 as i128) * (d11 as i128) - (d01 as i128) * (d01 as i128);
        let vn: i128 = (d11 as i128) * (d20 as i128) - (d01 as i128) * (d21 as i128);
        let wn: i128 = (d00 as i128) * (d21 as i128) - (d01 as i128) * (d20 as i128);

        if denom <= 0 {
            let f: Vec4 = self.normal();
            proof {
                lemma_flat_normal_in_range(*self);
                assert(f == spec_flat_normal(*self));
            }
            return f;
        }
        let un: i128 = denom - vn - wn;
        proof {
            lemma_abs_mul_le(self.p0.n.x as int, un as int, SCALE as int, 0x2000000000000000000000000);
            lemma_abs_mul_le(self.p0.n.y as int, un as int, SCALE as int, 0x2000000000000000000000000);
            lemma_abs_mul_le(self.p0.n.z as int, un as int, SCALE as int, 0x2000000000000000000000000);
            lemma_abs_mul_le(self.p1.n.x as int, vn as int, SCALE as int, 0x2000000000000000000000000);
            lemma_abs_mul_le(self.p1.n.y as int, vn as int, SCALE as int, 0x2000000000000000000000000);
            lemma_abs_mul_le(self.p1.n.z as int, vn as int, SCALE as int, 0x2000000000000000000000000);
            lemma_abs_mul_le(self.p2.n.x as int, wn as int, SCALE as int, 0x2000000000000000000000000);
            lemma_abs_mul_le(self.p2.n.y as int, wn as int, SCALE as int, 0x2000000000000000000000000);
            lemma_abs_mul_le(self.p2.n.z as int, wn as int, SCALE as int, 0x2000000000000000000000000);
        }
        let ix: i128 = tdiv128(
            (self.p0.n.x as i128) * un + (self.p1.n.x as i128) * vn + (self.p2.n.x as i128) * wn,
            denom,
        );
        let iy: i128 = tdiv128(
            (self.p0.n.y as i128) * un + (self.p1.n.y as i128) * vn + (self.p2.n.y as i128) * wn,
            denom,
        );
        let iz: i128 = tdiv128(
            (self.p0.n.z as i128) * un + (self.p1.n.z as i128) * vn + (self.p2.n.z as i128) * wn,
            denom,
        );
        let big: i128 = (4 * SCALE) as i128;
        if ix < -big || ix > big || iy < -big || iy > big || iz < -big || iz > big {
            let f: Vec4 = self.normal();
            proof {
                lemma_flat_normal_in_range(*self);
                assert(f == spec_flat_normal(*self));
            }
            return f;
        }
        if ix == 0 && iy == 0 && iz == 0 {
            let f: Vec4 = self.normal();
            proof {
                lemma_flat_normal_in_range(*self);
                assert(f == spec_flat_normal(*self));
            }
            return f;
        }
        let iv = Vec4 { x: ix as i64, y: iy as i64, z: iz as i64, w: 0 };
        let r: Vec4 = iv.normalize();
        proof {
            crate::num::lemma_tdiv_zero(spec_len(iv));
            assert(v0 == tri_e1(*self) && v1 == tri_e2(*self));
            assert(r == spec_normal_interp(*self, *p));
        }
        r
    }

    /// The normalized sum of the three vertex normals.
    pub fn normal3p(&self) -> (r: Vec4)
        requires
            tri_normals_in_range(*self, SCALE as int),
            ({
                let s = spec_plus(spec_plus(self.p0.n, self.p1.n), self.p2.n);
                !(s.x == 0 && s.y == 0 && s.z == 0 && s.w == 0)
            }),
        ensures
            ({
                let s = spec_plus(spec_plus(self.p0.n, self.p1.n), self.p2.n);
                &&& r.x as int == spec_norm(s.x as int, spec_len(s))
                &&& r.y as int == spec_norm(s.y as int, spec_len(s))
                &&& r.z as int == spec_norm(s.z as int, spec_len(s))
                &&& r.w as int == spec_norm(s.w as int, spec_len(s))
            }),
    {
        let s: Vec4 = self.p0.n.plus(self.p1.n).plus(self.p2.n);
        s.normalize()
    }

    /// The componentwise average of the three vertices, rounded toward
    /// zero.
    pub fn midpoint(&self) -> (r: Vec4)
        requires
            tri_in_range(*self, COORD_MAX as int),
        ensures
            r == spec_midpoint(*self),
            vec_in_range(r, COORD_MAX as int),
    {
        proof {
            lemma_tdiv_bound(
                self.p0.v.x as int + self.p1.v.x as int + self.p2.v.x as int,
                3,
                COORD_MAX as int,
            );
            lemma_tdiv_bound(
                self.p0.v.y as int + self.p1.v.y as int + self.p2.v.y as int,
                3,
                COORD_MAX as int,
            );
            lemma_tdiv_bound(
                self.p0.v.z as int + self.p1.v.z as int + self.p2.v.z as int,
                3,
                COORD_MAX as int,
            );
            lemma_tdiv_bound(
                self.p0.v.w as int + self.p1.v.w as int + self.p2.v.w as int,
                3,
                COORD_MAX as int,
            );
        }
        let x: i128 = tdiv128(
            (self.p0.v.x as i128) + (self.p1.v.x as i128) + (self.p2.v.x as i128),
            3,
        );
        let y: i128 = tdiv128(
            (self.p0.v.y as i128) + (self.p1.v.y as i128) + (self.p2.v.y as i128),
            3,
        );
        let z: i128 = tdiv128(
            (self.p0.v.z as i128) + (self.p1.v.z as i128) + (self.p2.v.z as i128),
            3,
        );
        let w: i128 = tdiv128(
            (self.p0.v.w as i128) + (self.p1.v.w as i128) + (self.p2.v.w as i128),
            3,
        );
        Vec4 { x: x as i64, y: y as i64, z: z as i64, w: w as i64 }
    }

    /// The triangle's axis-aligned bounding box: per axis the least and
    /// greatest vertex coordinate.
    pub fn aabb(&self) -> (r: AABB)
        requires
            tri_in_range(*self, COORD_MAX as int),
        ensures
            r.min.x as int == min3(self.p0.v.x as int, self.p1.v.x as int, self.p2.v.x as int),
            r.min.y as int == min3(self.p0.v.y as int, self.p1.v.y as int, self.p2.v.y as int),
            r.min.z as int == min3(self.p0.v.z as int, self.p1.v.z as int, self.p2.v.z as int),
            r.max.x as int == max3(self.p0.v.x as int, self.p1.v.x as int, self.p2.v.x as int),
            r.max.y as int == max3(self.p0.v.y as int, self.p1.v.y as int, self.p2.v.y as int),
            r.max.z as int == max3(self.p0.v.z as int, self.p1.v.z as int, self.p2.v.z as int),
            r.min.w == 0i64 && r.max.w == 0i64,
            vec_in_range(r.min, COORD_MAX as int),
            vec_in_range(r.max, COORD_MAX as int),
    {
        let min = Vec4 {
            x: min3_i64(self.p0.v.x, self.p1.v.x, self.p2.v.x),
            y: min3_i64(self.p0.v.y, self.p1.v.y, self.p2.v.y),
            z: min3_i64(self.p0.v.z, self.p1.v.z, self.p2.v.z),
            w: 0,
        };
        let max = Vec4 {
            x: max3_i64(self.p0.v.x, self.p1.v.x, self.p2.v.x),
            y: max3_i64(self.p0.v.y, self.p1.v.y, self.p2.v.y),
            z: max3_i64(self.p0.v.z, self.p1.v.z, self.p2.v.z),
            w: 0,
        };
        AABB { min, max }
    }
}

/// Decides whether the triangle is collinear (its face normal is the
/// zero vector).
pub fn tri_degenerate(t: &Triangle) -> (r: bool)
    requires
        tri_in_range(*t, COORD_MAX as int),
    ensures
        r == !tri_nondegenerate(*t),
{
    let e1x: i64 = t.p1.v.x - t.p0.v.x;
    let e1y: i64 = t.p1.v.y - t.p0.v.y;
    let e1z: i64 = t.p1.v.z - t.p0.v.z;
    let e2x: i64 = t.p2.v.x - t.p0.v.x;
    let e2y: i64 = t.p2.v.y - t.p0.v.y;
    let e2z: i64 = t.p2.v.z - t.p0.v.z;
    proof {
        lemma_flat_normal_in_range(*t);
        lemma_abs_mul_le(e1y as int, e2z as int, 0x80000, 0x80000);
        lemma_abs_mul_le(e1z as int, e2y as int, 0x80000, 0x80000);
        lemma_abs_mul_le(e1z as int, e2x as int, 0x80000, 0x80000);
        lemma_abs_mul_le(e1x as int, e2z as int, 0x80000, 0x80000);
        lemma_abs_mul_le(e1x as int, e2y as int, 0x80000, 0x80000);
        lemma_abs_mul_le(e1y as int, e2x as int, 0x80000, 0x80000);
    }
    let nx: i128 = (e1y as i128) * (e2z as i128) - (e1z as i128) * (e2y as i128);
    let ny: i128 = (e1z as i128) * (e2x as i128) - (e1x as i128) * (e2z as i128);
    let nz: i128 = (e1x as i128) * (e2y as i128) - (e1y as i128) * (e2x as i128);
    nx == 0 && ny == 0 && nz == 0
}

/// The unnormalized face normal's components fit comfortably in a
/// machine word for a triangle with bounded coordinates.
pub proof fn lemma_flat_normal_in_range(t: Triangle)
    requires
        tri_in_range(t, COORD_MAX as int),
    ensures
        -0x10000000000 <= tri_normal_x(t) <= 0x10000000000,
        -0x10000000000 <= tri_normal_y(t) <= 0x10000000000,
        -0x10000000000 <= tri_normal_z(t) <= 0x10000000000,
{
    let a = tri_e1(t);
    let b = tri_e2(t);
    lemma_abs_mul_le(a.y as int, b.z as int, 0x80000, 0x80000);
    lemma_abs_mul_le(a.z as int, b.y as int, 0x80000, 0x80000);
    lemma_abs_mul_le(a.z as int, b.x as int, 0x80000, 0x80000);
    lemma_abs_mul_le(a.x as int, b.z as int, 0x80000, 0x80000);
    lemma_abs_mul_le(a.x as int, b.y as int, 0x80000, 0x80000);
    lemma_abs_mul_le(a.y as int, b.x as int, 0x80000, 0x80000);
}

/// The interpolated shading normal of `t` at `p` (the value
/// `normal_interp` returns), written out over the fixed-point scalar
/// operations.
pub open spec fn spec_normal_interp(t: Triangle, p: Vec4) -> Vec4 {
    let v0 = tri_e1(t);
    let v1 = tri_e2(t);
    let d00 = spec_dot(v0, v0);
    let d01 = spec_dot(v0, v1);
    let d11 = spec_dot(v1, v1);
    let d20 = (p.x as int - t.p0.v.x as int) * (v0.x as int) + (p.y as int - t.p0.v.y as int) * (
    v0.y as int) + (p.z as int - t.p0.v.z as int) * (v0.z as int) + (p.w as int
        - t.p0.v.w as int) * (v0.w as int);
    let d21 = (p.x as int - t.p0.v.x as int) * (v1.x as int) + (p.y as int - t.p0.v.y as int) * (
    v1.y as int) + (p.z as int - t.p0.v.z as int) * (v1.z as int) + (p.w as int
        - t.p0.v.w as int) * (v1.w as int);
    let denom = d00 * d11 - d01 * d01;
    let vn = d11 * d20 - d01 * d21;
    let wn = d00 * d21 - d01 * d20;
    let un = denom - vn - wn;
    if denom <= 0 {
        spec_flat_normal(t)
    } else {
        let ix = tdiv(
            (t.p0.n.x as int) * un + (t.p1.n.x as int) * vn + (t.p2.n.x as int) * wn,
            denom,
        );
        let iy = tdiv(
            (t.p0.n.y as int) * un + (t.p1.n.y as int) * vn + (t.p2.n.y as int) * wn,
            denom,
        );
        let iz = tdiv(
            (t.p0.n.z as int) * un + (t.p1.n.z as int) * vn + (t.p2.n.z as int) * wn,
            denom,
        );
        if ix < -(4 * SCALE as int) || ix > 4 * SCALE as int || iy < -(4 * SCALE as int) || iy > 4
            * SCALE as int || iz < -(4 * SCALE as int) || iz > 4 * SCALE as int {
            spec_flat_normal(t)
        } else if ix == 0 && iy == 0 && iz == 0 {
            spec_flat_normal(t)
        } else {
            let iv = Vec4 { x: ix as i64, y: iy as i64, z: iz as i64, w: 0i64 };
            Vec4 {
                x: spec_norm(iv.x as int, spec_len(iv)) as i64,
                y: spec_norm(iv.y as int, spec_len(iv)) as i64,
                z: spec_norm(iv.z as int, spec_len(iv)) as i64,
                w: 0i64,
            }
        }
    }
}

/// The normalized flat face normal of `t` (the value `normal` returns).
pub open spec fn spec_flat_normal(t: Triangle) -> Vec4 {
    let c = Vec4 {
        x: tri_normal_x(t) as i64,
        y: tri_normal_y(t) as i64,
        z: tri_normal_z(t) as i64,
        w: 0i64,
    };
    Vec4 {
        x: spec_norm(c.x as int, spec_len(c)) as i64,
        y: spec_norm(c.y as int, spec_len(c)) as i64,
        z: spec_norm(c.z as int, spec_len(c)) as i64,
        w: 0i64,
    }
}

/// The midpoint value `midpoint` returns.
pub open spec fn spec_midpoint(t: Triangle) -> Vec4 {
    Vec4 {
        x: tdiv(t.p0.v.x as int + t.p1.v.x as int + t.p2.v.x as int, 3) as i64,
        y: tdiv(t.p0.v.y as int + t.p1.v.y as int + t.p2.v.y as int, 3) as i64,
        z: tdiv(t.p0.v.z as int + t.p1.v.z as int + t.p2.v.z as int, 3) as i64,
        w: tdiv(t.p0.v.w as int + t.p1.v.w as int + t.p2.v.w as int, 3) as i64,
    }
}

/// The smallest of three machine integers.
pub fn min3_i64(a: i64, b: i64, c: i64) -> (r: i64)
    ensures
        r as int == min3(a as int, b as int, c as int),
{
    if a <= b && a <= c {
        a
    } else if b <= c {
        b
    } else {
        c
    }
}

/// The largest of three machine integers.
pub fn max3_i64(a: i64, b: i64, c: i64) -> (r: i64)
    ensures
        r as int == max3(a as int, b as int, c as int),
{
    if a >= b && a >= c {
        a
    } else if b >= c {
        b
    } else {
        c
    }
}

} // verus!
