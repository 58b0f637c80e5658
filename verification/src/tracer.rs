//! Rays, lights, exact ray-triangle intersection, shading, and the
//! deterministic tiled renderer.

use vstd::prelude::*;

use crate::kdtree::{kd_wf, lemma_ray_leaf_in_range, spec_ray_leaf, KDNode};
use crate::mat4::{mat_in_range, spec_rotate_dir, spec_transform_point, Mat4, MAT_MAX};
use crate::material::{color_in_range, material_ok, material_wf, spec_default_material, Material};
use crate::num::{lemma_abs_mul_le, lemma_diff_mul, lemma_gather3, lemma_mul3, lemma_tdiv_bound,
    lemma_weighted3_mul, rat_le, rat_lt, rat_lt_exec, tdiv, tdiv128, RAT_DEN_MAX, RAT_NUM_MAX};
use crate::scene::{obj_wf, Obj};
use crate::triangle::{spec_normal_interp, tri_degenerate, tri_e1, tri_e2, tri_in_range,
    tri_nondegenerate, tri_ok, Triangle};
use crate::vec4::{spec_cross_x, spec_cross_y, spec_cross_z, spec_dot, spec_minus, spec_neg,
    spec_normalize, spec_plus, vec_in_range, Vec4};
use crate::{COORD_MAX, DIR_MAX, ORIGIN_MAX, SCALE};

verus! {

/// A ray: an origin point and a direction vector.  The direction need
/// not be normalized; parametric distances are exact rationals, so all
/// comparisons along one ray are scale-free.
pub struct Ray {
    pub origin: Vec4,
    pub dir: Vec4,
}

/// An ideal point light: a position and an unattenuated color.
#[derive(Clone, Copy)]
pub struct Light {
    pub pos: Vec4,
    pub col: Vec4,
}

} // verus!

verus! {

/// A ray-triangle intersection: the (rounded) hit point, the exact
/// parametric distance along the ray as a positive rational
/// `t_num / t_den`, and the triangle hit, by value.
#[derive(Clone, Copy)]
pub struct Intersection {
    pub p: Vec4,
    pub t_num: i128,
    pub t_den: i128,
    pub triangle: Triangle,
}

/// The intersection's rational distance is positive and small enough
/// for exact comparison against any other.
pub open spec fn isect_wf(h: Intersection) -> bool {
    &&& 0 < h.t_num <= RAT_NUM_MAX
    &&& 0 < h.t_den <= RAT_DEN_MAX
}

/// The rounded hit point is usable downstream: its spatial coordinates
/// are scene coordinates (the exact point lies in the triangle's
/// bounding box) and its homogeneous coordinate is no larger than a ray
/// origin's.
pub open spec fn hit_point_wf(p: Vec4) -> bool {
    &&& -(COORD_MAX as int + 2) <= p.x as int <= COORD_MAX as int + 2
    &&& -(COORD_MAX as int + 2) <= p.y as int <= COORD_MAX as int + 2
    &&& -(COORD_MAX as int + 2) <= p.z as int <= COORD_MAX as int + 2
    &&& -(ORIGIN_MAX as int) <= p.w as int <= ORIGIN_MAX as int
}

/// `dir x e2` of the Moller-Trumbore test.
pub open spec fn mt_pvec(r: Ray, t: Triangle) -> (int, int, int) {
    (
        spec_cross_x(r.dir, tri_e2(t)),
        spec_cross_y(r.dir, tri_e2(t)),
        spec_cross_z(r.dir, tri_e2(t)),
    )
}

/// The determinant `e1 . (dir x e2)`.
pub open spec fn mt_det(r: Ray, t: Triangle) -> int {
    let (px, py, pz) = mt_pvec(r, t);
    (tri_e1(t).x as int) * px + (tri_e1(t).y as int) * py + (tri_e1(t).z as int) * pz
}

/// `origin - p0`, the vector from the base vertex to the ray origin.
pub open spec fn mt_tvec(r: Ray, t: Triangle) -> Vec4 {
    Vec4 {
        x: (r.origin.x - t.p0.v.x) as i64,
        y: (r.origin.y - t.p0.v.y) as i64,
        z: (r.origin.z - t.p0.v.z) as i64,
        w: 0i64,
    }
}

/// Numerator of the first barycentric coordinate (before sign fixing).
pub open spec fn mt_u_raw(r: Ray, t: Triangle) -> int {
    let (px, py, pz) = mt_pvec(r, t);
    (mt_tvec(r, t).x as int) * px + (mt_tvec(r, t).y as int) * py + (mt_tvec(r, t).z as int) * pz
}

/// `tvec x e1` of the Moller-Trumbore test.
pub open spec fn mt_qvec(r: Ray, t: Triangle) -> (int, int, int) {
    (
        spec_cross_x(mt_tvec(r, t), tri_e1(t)),
        spec_cross_y(mt_tvec(r, t), tri_e1(t)),
        spec_cross_z(mt_tvec(r, t), tri_e1(t)),
    )
}

/// Numerator of the second barycentric coordinate (before sign fixing).
pub open spec fn mt_v_raw(r: Ray, t: Triangle) -> int {
    let (qx, qy, qz) = mt_qvec(r, t);
    (r.dir.x as int) * qx + (r.dir.y as int) * qy + (r.dir.z as int) * qz
}

/// Numerator of the parametric distance (before sign fixing).
pub open spec fn mt_t_raw(r: Ray, t: Triangle) -> int {
    let (qx, qy, qz) = mt_qvec(r, t);
    (tri_e2(t).x as int) * qx + (tri_e2(t).y as int) * qy + (tri_e2(t).z as int) * qz
}

/// The sign of the determinant, used to normalize all quotients to a
/// positive denominator.
pub open spec fn mt_sign(r: Ray, t: Triangle) -> int {
    if mt_det(r, t) > 0 {
        1
    } else {
        -1
    }
}

/// `|det|`: the common positive denominator of `u`, `v` and `t`.
pub open spec fn mt_ad(r: Ray, t: Triangle) -> int {
    mt_sign(r, t) * mt_det(r, t)
}

/// Sign-normalized numerator of `u`.
pub open spec fn mt_un(r: Ray, t: Triangle) -> int {
    mt_sign(r, t) * mt_u_raw(r, t)
}

/// Sign-normalized numerator of `v`.
pub open spec fn mt_vn(r: Ray, t: Triangle) -> int {
    mt_sign(r, t) * mt_v_raw(r, t)
}

/// Sign-normalized numerator of `t`.
pub open spec fn mt_tn(r: Ray, t: Triangle) -> int {
    mt_sign(r, t) * mt_t_raw(r, t)
}

/// The x coordinate of the hit point `origin + dir * (t_num / t_den)`,
/// rounded toward zero after the exact multiplication.
pub open spec fn mt_px(r: Ray, t: Triangle) -> int {
    r.origin.x + tdiv((r.dir.x as int) * mt_tn(r, t), mt_ad(r, t))
}

/// The y coordinate of the rounded hit point.
pub open spec fn mt_py(r: Ray, t: Triangle) -> int {
    r.origin.y + tdiv((r.dir.y as int) * mt_tn(r, t), mt_ad(r, t))
}

/// The z coordinate of the rounded hit point.
pub open spec fn mt_pz(r: Ray, t: Triangle) -> int {
    r.origin.z + tdiv((r.dir.z as int) * mt_tn(r, t), mt_ad(r, t))
}

/// The w coordinate of the rounded hit point.
pub open spec fn mt_pw(r: Ray, t: Triangle) -> int {
    r.origin.w + tdiv((r.dir.w as int) * mt_tn(r, t), mt_ad(r, t))
}

/// The rounded hit point as a vector.
pub open spec fn spec_mt_point(r: Ray, t: Triangle) -> Vec4 {
    Vec4 {
        x: mt_px(r, t) as i64,
        y: mt_py(r, t) as i64,
        z: mt_pz(r, t) as i64,
        w: mt_pw(r, t) as i64,
    }
}

/// The Moller-Trumbore acceptance condition: a nonzero determinant,
/// barycentric coordinates `u` in `[0, 1]` and `v >= 0` with
/// `u + v <= 1`, a strictly positive parametric distance, and a hit
/// point whose rounded coordinates are in range.  The range clauses
/// never reject a genuine hit of the rays this library builds: the
/// exact hit point lies in the triangle's bounding box, so the spatial
/// clauses hold, and every renderer and shadow ray has a direction with
/// zero `w`, so the `w` clause reduces to the ray origin's own bound.
pub open spec fn spec_mt_hit(r: Ray, t: Triangle) -> bool {
    &&& mt_det(r, t) != 0
    &&& 0 <= mt_un(r, t) <= mt_ad(r, t)
    &&& mt_vn(r, t) >= 0
    &&& mt_un(r, t) + mt_vn(r, t) <= mt_ad(r, t)
    &&& mt_tn(r, t) > 0
    &&& -(COORD_MAX as int + 2) <= mt_px(r, t) <= COORD_MAX as int + 2
    &&& -(COORD_MAX as int + 2) <= mt_py(r, t) <= COORD_MAX as int + 2
    &&& -(COORD_MAX as int + 2) <= mt_pz(r, t) <= COORD_MAX as int + 2
    &&& -(ORIGIN_MAX as int) <= mt_pw(r, t) <= ORIGIN_MAX as int
}

/// What `intersects` returns.
pub open spec fn spec_intersects(r: Ray, t: Triangle) -> Option<Intersection> {
    if spec_mt_hit(r, t) {
        Some(
            Intersection {
                p: spec_mt_point(r, t),
                t_num: mt_tn(r, t) as i128,
                t_den: mt_ad(r, t) as i128,
                triangle: t,
            },
        )
    } else {
        None
    }
}

/// The exact Moller-Trumbore ray-triangle intersection test.  With
/// exact integer arithmetic a zero determinant (rather than an epsilon
/// window) rejects parallel rays; hits at or behind the ray origin are
/// rejected.
pub fn intersects(r: &Ray, t: &Triangle) -> (res: Option<Intersection>)
    requires
        tri_in_range(*t, COORD_MAX as int),
        vec_in_range(r.origin, ORIGIN_MAX as int),
        vec_in_range(r.dir, DIR_MAX as int),
    ensures
        res == spec_intersects(*r, *t),
        res is Some ==> isect_wf(res->Some_0),
{
    let e1x: i64 = t.p1.v.x - t.p0.v.x;
    let e1y: i64 = t.p1.v.y - t.p0.v.y;
    let e1z: i64 = t.p1.v.z - t.p0.v.z;
    let e2x: i64 = t.p2.v.x - t.p0.v.x;
    let e2y: i64 = t.p2.v.y - t.p0.v.y;
    let e2z: i64 = t.p2.v.z - t.p0.v.z;
    proof {
        lemma_abs_mul_le(r.dir.y as int, e2z as int, DIR_MAX as int, 0x80000);
        lemma_abs_mul_le(r.dir.z as int, e2y as int, DIR_MAX as int, 0x80000);
        lemma_abs_mul_le(r.dir.z as int, e2x as int, DIR_MAX as int, 0x80000);
        lemma_abs_mul_le(r.dir.x as int, e2z as int, DIR_MAX as int, 0x80000);
        lemma_abs_mul_le(r.dir.x as int, e2y as int, DIR_MAX as int, 0x80000);
        lemma_abs_mul_le(r.dir.y as int, e2x as int, DIR_MAX as int, 0x80000);
    }
    let pvx: i128 = (r.dir.y as i128) * (e2z as i128) - (r.dir.z as i128) * (e2y as i128);
    let pvy: i128 = (r.dir.z as i128) * (e2x as i128) - (r.dir.x as i128) * (e2z as i128);
    let pvz: i128 = (r.dir.x as i128) * (e2y as i128) - (r.dir.y as i128) * (e2x as i128);
    proof {
        lemma_abs_mul_le(e1x as int, pvx as int, 0x80000, 0x100000000000);
        lemma_abs_mul_le(e1y as int, pvy as int, 0x80000, 0x100000000000);
        lemma_abs_mul_le(e1z as int, pvz as int, 0x80000, 0x100000000000);
    }
    let det: i128 = (e1x as i128) * pvx + (e1y as i128) * pvy + (e1z as i128) * pvz;
    if det == 0 {
        return None;
    }
    let tvx: i64 = r.origin.x - t.p0.v.x;
    let tvy: i64 = r.origin.y - t.p0.v.y;
    let tvz: i64 = r.origin.z - t.p0.v.z;
    proof {
        lemma_abs_mul_le(tvx as int, pvx as int, 0x100000, 0x100000000000);
        lemma_abs_mul_le(tvy as int, pvy as int, 0x100000, 0x100000000000);
        lemma_abs_mul_le(tvz as int, pvz as int, 0x100000, 0x100000000000);
        lemma_abs_mul_le(tvy as int, e1z as int, 0x100000, 0x80000);
        lemma_abs_mul_le(tvz as int, e1y as int, 0x100000, 0x80000);
        lemma_abs_mul_le(tvz as int, e1x as int, 0x100000, 0x80000);
        lemma_abs_mul_le(tvx as int, e1z as int, 0x100000, 0x80000);
        lemma_abs_mul_le(tvx as int, e1y as int, 0x100000, 0x80000);
        lemma_abs_mul_le(tvy as int, e1x as int, 0x100000, 0x80000);
    }
    let u_raw: i128 = (tvx as i128) * pvx + (tvy as i128) * pvy + (tvz as i128) * pvz;
    let qvx: i128 = (tvy as i128) * (e1z as i128) - (tvz as i128) * (e1y as i128);
    let qvy: i128 = (tvz as i128) * (e1x as i128) - (tvx as i128) * (e1z as i128);
    let qvz: i128 = (tvx as i128) * (e1y as i128) - (tvy as i128) * (e1x as i128);
    proof {
        lemma_abs_mul_le(r.dir.x as int, qvx as int, DIR_MAX as int, 0x10000000000);
        lemma_abs_mul_le(r.dir.y as int, qvy as int, DIR_MAX as int, 0x10000000000);
        lemma_abs_mul_le(r.dir.z as int, qvz as int, DIR_MAX as int, 0x10000000000);
        lemma_abs_mul_le(e2x as int, qvx as int, 0x80000, 0x10000000000);
        lemma_abs_mul_le(e2y as int, qvy as int, 0x80000, 0x10000000000);
        lemma_abs_mul_le(e2z as int, qvz as int, 0x80000, 0x10000000000);
    }
    let v_raw: i128 = (r.dir.x as i128) * qvx + (r.dir.y as i128) * qvy + (r.dir.z as i128) * qvz;
    let t_raw: i128 = (e2x as i128) * qvx + (e2y as i128) * qvy + (e2z as i128) * qvz;
    let sign: i128 = if det > 0 {
        1
    } else {
        -1
    };
    let ad: i128 = sign * det;
    let un: i128 = sign * u_raw;
    let vn: i128 = sign * v_raw;
    let tn: i128 = sign * t_raw;
    if un < 0 || un > ad {
        return None;
    }
    if vn < 0 || un + vn > ad {
        return None;
    }
    if tn <= 0 {
        return None;
    }
    proof {
        lemma_abs_mul_le(r.dir.x as int, tn as int, DIR_MAX as int, 0x4000000000000000);
        lemma_abs_mul_le(r.dir.y as int, tn as int, DIR_MAX as int, 0x4000000000000000);
        lemma_abs_mul_le(r.dir.z as int, tn as int, DIR_MAX as int, 0x4000000000000000);
        lemma_abs_mul_le(r.dir.w as int, tn as int, DIR_MAX as int, 0x4000000000000000);
    }
    let px: i128 = (r.origin.x as i128) + tdiv128((r.dir.x as i128) * tn, ad);
    let py: i128 = (r.origin.y as i128) + tdiv128((r.dir.y as i128) * tn, ad);
    let pz: i128 = (r.origin.z as i128) + tdiv128((r.dir.z as i128) * tn, ad);
    let pw: i128 = (r.origin.w as i128) + tdiv128((r.dir.w as i128) * tn, ad);
    let lim: i128 = (COORD_MAX as i128) + 2;
    let limw: i128 = ORIGIN_MAX as i128;
    if px < -lim || px > lim || py < -lim || py > lim || pz < -lim || pz > lim || pw < -limw || pw
        > limw {
        return None;
    }
    let p = Vec4 { x: px as i64, y: py as i64, z: pz as i64, w: pw as i64 };
    proof {
        assert(0 < tn <= RAT_NUM_MAX);
        assert(0 < ad <= RAT_DEN_MAX);
    }
    Some(Intersection { p, t_num: tn, t_den: ad, triangle: *t })
}

} // verus!

verus! {

/// What the closest-hit scan returns on the candidate list `s`: the
/// first hit of globally minimal parametric distance; a later hit
/// replaces an earlier one only when strictly closer.
pub open spec fn spec_closest(r: Ray, s: Seq<Triangle>) -> Option<Intersection>
    decreases s.len(),
{
    if s.len() == 0 {
        None::<Intersection>
    } else {
        let best = spec_closest(r, s.drop_last());
        let new = spec_intersects(r, s.last());
        match best {
            None => new,
            Some(b) => match new {
                None => Some(b),
                Some(h) => if rat_lt(
                    h.t_num as int,
                    h.t_den as int,
                    b.t_num as int,
                    b.t_den as int,
                ) {
                    Some(h)
                } else {
                    Some(b)
                },
            },
        }
    }
}

/// A hit returned by `spec_intersects` has a positive, bounded
/// rational distance whenever the scene and ray are in range.
pub proof fn lemma_intersects_wf(r: Ray, t: Triangle)
    requires
        tri_in_range(t, COORD_MAX as int),
        vec_in_range(r.origin, ORIGIN_MAX as int),
        vec_in_range(r.dir, DIR_MAX as int),
    ensures
        spec_intersects(r, t) is Some ==> isect_wf(spec_intersects(r, t)->Some_0),
{
    if spec_mt_hit(r, t) {
        let e1 = tri_e1(t);
        let e2 = tri_e2(t);
        let tv = mt_tvec(r, t);
        lemma_abs_mul_le(r.dir.y as int, e2.z as int, DIR_MAX as int, 0x80000);
        lemma_abs_mul_le(r.dir.z as int, e2.y as int, DIR_MAX as int, 0x80000);
        lemma_abs_mul_le(r.dir.z as int, e2.x as int, DIR_MAX as int, 0x80000);
        lemma_abs_mul_le(r.dir.x as int, e2.z as int, DIR_MAX as int, 0x80000);
        lemma_abs_mul_le(r.dir.x as int, e2.y as int, DIR_MAX as int, 0x80000);
        lemma_abs_mul_le(r.dir.y as int, e2.x as int, DIR_MAX as int, 0x80000);
        let (pvx, pvy, pvz) = mt_pvec(r, t);
        lemma_abs_mul_le(e1.x as int, pvx, 0x80000, 0x100000000000);
        lemma_abs_mul_le(e1.y as int, pvy, 0x80000, 0x100000000000);
        lemma_abs_mul_le(e1.z as int, pvz, 0x80000, 0x100000000000);
        lemma_abs_mul_le(tv.y as int, e1.z as int, 0x100000, 0x80000);
        lemma_abs_mul_le(tv.z as int, e1.y as int, 0x100000, 0x80000);
        lemma_abs_mul_le(tv.z as int, e1.x as int, 0x100000, 0x80000);
        lemma_abs_mul_le(tv.x as int, e1.z as int, 0x100000, 0x80000);
        lemma_abs_mul_le(tv.x as int, e1.y as int, 0x100000, 0x80000);
        lemma_abs_mul_le(tv.y as int, e1.x as int, 0x100000, 0x80000);
        let (qvx, qvy, qvz) = mt_qvec(r, t);
        lemma_abs_mul_le(e2.x as int, qvx, 0x80000, 0x10000000000);
        lemma_abs_mul_le(e2.y as int, qvy, 0x80000, 0x10000000000);
        lemma_abs_mul_le(e2.z as int, qvz, 0x80000, 0x10000000000);
        assert(-0x1800000000000000 <= mt_t_raw(r, t) <= 0x1800000000000000);
        assert(-0x18000000000000000 <= mt_det(r, t) <= 0x18000000000000000);
        assert(mt_tn(r, t) == 1 * mt_t_raw(r, t) || mt_tn(r, t) == (-1) * mt_t_raw(r, t));
        assert(mt_ad(r, t) == 1 * mt_det(r, t) || mt_ad(r, t) == (-1) * mt_det(r, t));
        assert(1 * mt_t_raw(r, t) == mt_t_raw(r, t) && (-1) * mt_t_raw(r, t) == -mt_t_raw(r, t))
            by (nonlinear_arith);
        assert(1 * mt_det(r, t) == mt_det(r, t) && (-1) * mt_det(r, t) == -mt_det(r, t))
            by (nonlinear_arith);
        assert(0 < mt_tn(r, t) <= RAT_NUM_MAX as int);
        assert(0 < mt_ad(r, t) <= RAT_DEN_MAX as int);
    }
}

/// Closest-hit selection is total and minimal: when some candidate is
/// hit at all, the scan returns a hit; that hit is one of the
/// candidates' hits; and its distance is no greater than the distance
/// of any candidate's hit.
pub proof fn lemma_closest_hit_minimal(r: Ray, s: Seq<Triangle>, i: int)
    requires
        vec_in_range(r.origin, ORIGIN_MAX as int),
        vec_in_range(r.dir, DIR_MAX as int),
        forall|j: int| 0 <= j < s.len() ==> tri_in_range(#[trigger] s[j], COORD_MAX as int),
        0 <= i < s.len(),
        spec_intersects(r, s[i]) is Some,
    ensures
        spec_closest(r, s) is Some,
        isect_wf(spec_closest(r, s)->Some_0),
        rat_le(
            spec_closest(r, s)->Some_0.t_num as int,
            spec_closest(r, s)->Some_0.t_den as int,
            spec_intersects(r, s[i])->Some_0.t_num as int,
            spec_intersects(r, s[i])->Some_0.t_den as int,
        ),
        exists|j: int|
            0 <= j < s.len() && spec_closest(r, s) == #[trigger] spec_intersects(r, s[j]),
    decreases s.len(),
{
    let best = spec_closest(r, s.drop_last());
    let new = spec_intersects(r, s.last());
    lemma_intersects_wf(r, s.last());
    lemma_intersects_wf(r, s[i]);
    if i == s.len() - 1 {
        // The hit named is the last candidate's.
        if best is Some {
            lemma_closest_best_wf(r, s.drop_last());
            let b = best->Some_0;
            let h = new->Some_0;
            if rat_lt(h.t_num as int, h.t_den as int, b.t_num as int, b.t_den as int) {
                assert(spec_closest(r, s) == new);
                assert(exists|j: int|
                    0 <= j < s.len() && spec_closest(r, s) == #[trigger] spec_intersects(
                        r,
                        s[j],
                    )) by {
                    assert(spec_closest(r, s) == spec_intersects(r, s[i]));
                }
            } else {
                let (j0, _) = lemma_closest_best_wf(r, s.drop_last());
                assert(spec_closest(r, s) == best);
                assert(exists|j: int|
                    0 <= j < s.len() && spec_closest(r, s) == #[trigger] spec_intersects(
                        r,
                        s[j],
                    )) by {
                    assert(s.drop_last()[j0] == s[j0]);
                    assert(spec_closest(r, s) == spec_intersects(r, s[j0]));
                }
            }
        } else {
            assert(spec_closest(r, s) == new);
            assert(exists|j: int|
                0 <= j < s.len() && spec_closest(r, s) == #[trigger] spec_intersects(r, s[j])) by {
                assert(spec_closest(r, s) == spec_intersects(r, s[i]));
            }
        }
    } else {
        // The hit named lies in the prefix; recurse there.
        assert(s.drop_last()[i] == s[i]);
        lemma_closest_hit_minimal(r, s.drop_last(), i);
        let b = best->Some_0;
        let hi = spec_intersects(r, s[i])->Some_0;
        let (j0, _) = lemma_closest_best_wf(r, s.drop_last());
        if new is Some {
            let h = new->Some_0;
            if rat_lt(h.t_num as int, h.t_den as int, b.t_num as int, b.t_den as int) {
                assert(spec_closest(r, s) == new);
                crate::num::lemma_rat_lt_le_trans(
                    h.t_num as int,
                    h.t_den as int,
                    b.t_num as int,
                    b.t_den as int,
                    hi.t_num as int,
                    hi.t_den as int,
                );
                assert(exists|j: int|
                    0 <= j < s.len() && spec_closest(r, s) == #[trigger] spec_intersects(
                        r,
                        s[j],
                    )) by {
                    assert(s.last() == s[s.len() - 1]);
                    assert(spec_closest(r, s) == spec_intersects(r, s[s.len() - 1]));
                }
            } else {
                assert(spec_closest(r, s) == best);
                assert(exists|j: int|
                    0 <= j < s.len() && spec_closest(r, s) == #[trigger] spec_intersects(
                        r,
                        s[j],
                    )) by {
                    assert(s.drop_last()[j0] == s[j0]);
                    assert(spec_closest(r, s) == spec_intersects(r, s[j0]));
                }
            }
        } else {
            assert(spec_closest(r, s) == best);
            assert(exists|j: int|
                0 <= j < s.len() && spec_closest(r, s) == #[trigger] spec_intersects(r, s[j])) by {
                assert(s.drop_last()[j0] == s[j0]);
                assert(spec_closest(r, s) == spec_intersects(r, s[j0]));
            }
        }
    }
}

/// When the scan returns a hit it is well formed and is one of the
/// candidates' hits.
pub proof fn lemma_closest_best_wf(r: Ray, s: Seq<Triangle>) -> (jw: (int, int))
    requires
        vec_in_range(r.origin, ORIGIN_MAX as int),
        vec_in_range(r.dir, DIR_MAX as int),
        forall|j: int| 0 <= j < s.len() ==> tri_in_range(#[trigger] s[j], COORD_MAX as int),
        spec_closest(r, s) is Some,
    ensures
        isect_wf(spec_closest(r, s)->Some_0),
        0 <= jw.0 < s.len(),
        spec_closest(r, s) == spec_intersects(r, s[jw.0]),
        spec_closest(r, s)->Some_0.triangle == s[jw.0],
        hit_point_wf(spec_closest(r, s)->Some_0.p),
    decreases s.len(),
{
    let best = spec_closest(r, s.drop_last());
    let new = spec_intersects(r, s.last());
    lemma_intersects_wf(r, s.last());
    if best is Some {
        let (j0, _) = lemma_closest_best_wf(r, s.drop_last());
        assert(s.drop_last()[j0] == s[j0]);
        let b = best->Some_0;
        if new is Some {
            let h = new->Some_0;
            if rat_lt(h.t_num as int, h.t_den as int, b.t_num as int, b.t_den as int) {
                assert(s.last() == s[s.len() - 1]);
                (s.len() - 1, 0)
            } else {
                (j0, 0)
            }
        } else {
            (j0, 0)
        }
    } else {
        assert(s.last() == s[s.len() - 1]);
        (s.len() - 1, 0)
    }
}

/// Scans the candidate list for the closest intersection: the hit with
/// the least positive parametric distance, earliest first on ties.
pub fn closest_hit(r: &Ray, candidates: &Vec<Triangle>) -> (res: Option<Intersection>)
    requires
        vec_in_range(r.origin, ORIGIN_MAX as int),
        vec_in_range(r.dir, DIR_MAX as int),
        forall|j: int|
            0 <= j < candidates@.len() ==> tri_in_range(
                #[trigger] candidates@[j],
                COORD_MAX as int,
            ),
    ensures
        res == spec_closest(*r, candidates@),
        res is Some ==> isect_wf(res->Some_0),
{
    let mut best: Option<Intersection> = None;
    let mut i: usize = 0;
    proof {
        assert(candidates@.take(0) =~= Seq::<Triangle>::empty());
    }
    while i < candidates.len()
        invariant
            0 <= i <= candidates@.len(),
            vec_in_range(r.origin, ORIGIN_MAX as int),
            vec_in_range(r.dir, DIR_MAX as int),
            forall|j: int|
                0 <= j < candidates@.len() ==> tri_in_range(
                    #[trigger] candidates@[j],
                    COORD_MAX as int,
                ),
            best == spec_closest(*r, candidates@.take(i as int)),
            best is Some ==> isect_wf(best->Some_0),
        decreases candidates@.len() - i,
    {
        let new: Option<Intersection> = intersects(r, &candidates[i]);
        proof {
            assert(candidates@.take(i as int + 1).drop_last() =~= candidates@.take(i as int));
            assert(candidates@.take(i as int + 1).last() == candidates@[i as int]);
        }
        best = match (best, new) {
            (None, _) => new,
            (Some(b), None) => Some(b),
            (Some(b), Some(h)) => {
                if rat_lt_exec(h.t_num, h.t_den, b.t_num, b.t_den) {
                    Some(h)
                } else {
                    Some(b)
                }
            },
        };
        i = i + 1;
    }
    proof {
        assert(candidates@.take(candidates@.len() as int) =~= candidates@);
    }
    best
}

} // verus!

verus! {

/// The most lights one scene may carry: with each light contributing
/// at most 68 fixed-point units per channel, the accumulated color of
/// this many lights stays well within the vector sums' `VEC_MAX`
/// overflow budget.
pub const MAX_LIGHTS: usize = 4096;

/// The zero color.
pub open spec fn spec_zero4() -> Vec4 {
    Vec4 { x: 0i64, y: 0i64, z: 0i64, w: 0i64 }
}

/// The constant ambient light intensity: full white.
pub open spec fn spec_ambient_light() -> Vec4 {
    Vec4 { x: SCALE, y: SCALE, z: SCALE, w: SCALE }
}

/// The fixed sky color returned when a ray hits nothing.
pub open spec fn spec_sky() -> Vec4 {
    Vec4 { x: 520i64, y: 800i64, z: 920i64, w: SCALE }
}

/// Fixed-point componentwise color product: `a * b / SCALE`.
pub open spec fn spec_cmul_fx(a: Vec4, b: Vec4) -> Vec4 {
    Vec4 {
        x: tdiv((a.x as int) * (b.x as int), SCALE as int) as i64,
        y: tdiv((a.y as int) * (b.y as int), SCALE as int) as i64,
        z: tdiv((a.z as int) * (b.z as int), SCALE as int) as i64,
        w: tdiv((a.w as int) * (b.w as int), SCALE as int) as i64,
    }
}

/// Fixed-point scaling of a color by a scalar: `a * k / SCALE`.
pub open spec fn spec_scale_fx(a: Vec4, k: int) -> Vec4 {
    Vec4 {
        x: tdiv((a.x as int) * k, SCALE as int) as i64,
        y: tdiv((a.y as int) * k, SCALE as int) as i64,
        z: tdiv((a.z as int) * k, SCALE as int) as i64,
        w: tdiv((a.w as int) * k, SCALE as int) as i64,
    }
}

/// Fixed-point power: `SCALE` is one, each step multiplies by the base
/// and rescales.
pub open spec fn spec_powfx(base: int, e: nat) -> int
    decreases e,
{
    if e == 0 {
        SCALE as int
    } else {
        tdiv(base * spec_powfx(base, (e - 1) as nat), SCALE as int)
    }
}

/// The cosine-like fixed-point product of two unit-scale vectors:
/// their dot product scaled back down once.
pub open spec fn spec_dot_unit(a: Vec4, b: Vec4) -> int {
    tdiv(spec_dot(a, b), SCALE as int)
}

/// A light is usable: its position is a scene coordinate and its color
/// is a fixed-point color.
pub open spec fn light_wf(l: Light) -> bool {
    &&& vec_in_range(l.pos, COORD_MAX as int)
    &&& color_in_range(l.col, SCALE as int)
}

/// The surface point nudged one coordinate unit along the sign of each
/// component of the shading normal, to start shadow rays off the
/// surface.
pub open spec fn spec_offset(p: Vec4, n: Vec4) -> Vec4 {
    Vec4 {
        x: (p.x + (if n.x > 0 { 1int } else if n.x < 0 { -1int } else { 0int })) as i64,
        y: (p.y + (if n.y > 0 { 1int } else if n.y < 0 { -1int } else { 0int })) as i64,
        z: (p.z + (if n.z > 0 { 1int } else if n.z < 0 { -1int } else { 0int })) as i64,
        w: (p.w + (if n.w > 0 { 1int } else if n.w < 0 { -1int } else { 0int })) as i64,
    }
}

/// An occluder blocks the light: a hit strictly between the shadow
/// ray's origin and the light (`0 < t < 1`).
pub open spec fn blocked_at(h: Option<Intersection>) -> bool {
    h is Some && (h->Some_0.t_num as int) < (h->Some_0.t_den as int)
}

/// Some candidate of the index blocks the shadow ray.
pub open spec fn spec_shadow_blocked(head: KDNode, sray: Ray) -> bool {
    exists|i: int|
        0 <= i < spec_ray_leaf(head, sray).len() && #[trigger] blocked_at(
            spec_intersects(sray, spec_ray_leaf(head, sray)[i]),
        )
}

/// One light's contribution: the diffuse term when the light is
/// visible, plus the specular term when the half-vector faces the
/// surface; `None` marks a degenerate configuration (a light or a
/// half-vector collapsing onto the surface point), which blackens the
/// pixel.  A normal facing away from the light is flipped first, so
/// single-sided surfaces receive light from either side.
pub open spec fn spec_light_step(
    head: KDNode,
    p: Vec4,
    nn: Vec4,
    vv: Vec4,
    light: Light,
    ns: u32,
    kdv: Vec4,
    ksv: Vec4,
) -> Option<Vec4> {
    let lvec = spec_minus(light.pos, p);
    if lvec == spec_zero4() {
        None
    } else {
        let ll = spec_normalize(lvec);
        let lamb0 = spec_dot_unit(nn, ll);
        let ln = if lamb0 <= 0 {
            spec_neg(nn)
        } else {
            nn
        };
        let lamb = if lamb0 <= 0 {
            spec_dot_unit(spec_neg(nn), ll)
        } else {
            lamb0
        };
        let sorigin = spec_offset(p, ln);
        let sdir = spec_minus(light.pos, sorigin);
        if spec_shadow_blocked(head, Ray { origin: sorigin, dir: sdir }) {
            Some(spec_zero4())
        } else {
            let diffuse = spec_scale_fx(spec_cmul_fx(light.col, kdv), lamb);
            let hv = spec_plus(ll, vv);
            if hv == spec_zero4() {
                None
            } else {
                let hh = spec_normalize(hv);
                let sd = spec_dot_unit(ln, hh);
                if sd <= 0 {
                    Some(diffuse)
                } else {
                    let sdc = if sd > SCALE as int {
                        SCALE as int
                    } else {
                        sd
                    };
                    Some(
                        spec_plus(
                            diffuse,
                            spec_cmul_fx(light.col, spec_scale_fx(ksv, spec_powfx(sdc, ns as nat))),
                        ),
                    )
                }
            }
        }
    }
}

/// Folds the lights from index `i` on into the accumulated color;
/// `None` propagates a degenerate configuration.
pub open spec fn spec_accum(
    head: KDNode,
    p: Vec4,
    nn: Vec4,
    vv: Vec4,
    lights: Seq<Light>,
    ns: u32,
    kdv: Vec4,
    ksv: Vec4,
    col: Vec4,
    i: int,
) -> Option<Vec4>
    decreases lights.len() - i,
{
    if i < 0 || i >= lights.len() {
        Some(col)
    } else {
        match spec_light_step(head, p, nn, vv, lights[i], ns, kdv, ksv) {
            None => None,
            Some(inc) => spec_accum(
                head,
                p,
                nn,
                vv,
                lights,
                ns,
                kdv,
                ksv,
                spec_plus(col, inc),
                i + 1,
            ),
        }
    }
}

/// Whether, at a surface point whose view direction is undefined,
/// every light is harmless: each light from `i` on is occluded, so its
/// contribution is dropped before the undefined half-vector is ever
/// formed.  A light at the surface point itself, or any visible light,
/// poisons the result.
pub open spec fn spec_all_blocked(
    head: KDNode,
    p: Vec4,
    nn: Vec4,
    lights: Seq<Light>,
    i: int,
) -> bool
    decreases lights.len() - i,
{
    if i < 0 || i >= lights.len() {
        true
    } else {
        let light = lights[i];
        let lvec = spec_minus(light.pos, p);
        if lvec == spec_zero4() {
            false
        } else {
            let ll = spec_normalize(lvec);
            let lamb0 = spec_dot_unit(nn, ll);
            let ln = if lamb0 <= 0 {
                spec_neg(nn)
            } else {
                nn
            };
            let sorigin = spec_offset(p, ln);
            let sdir = spec_minus(light.pos, sorigin);
            &&& spec_shadow_blocked(head, Ray { origin: sorigin, dir: sdir })
            &&& spec_all_blocked(head, p, nn, lights, i + 1)
        }
    }
}

/// The material a triangle shades with: its own when it names one and
/// it is a fixed-point color set, the default otherwise.
pub open spec fn spec_brdf_mat(t: Triangle) -> Material {
    let mat0 = if t.mat is Some {
        t.mat->Some_0
    } else {
        spec_default_material()
    };
    if material_wf(mat0) {
        mat0
    } else {
        spec_default_material()
    }
}

/// The Blinn-Phong shade at surface point `p` of triangle `t`: the
/// ambient term plus each light's contribution.  Degenerate geometry
/// (a collinear triangle, the camera or a light or a half-vector at
/// the surface point) blackens the pixel as soon as an undefined value
/// would enter the color; contributions dropped before that point
/// (occluded lights, an empty light list) leave the ambient term
/// intact.  A material outside the fixed-point color range, or a
/// triangle naming none, shades as the default material.
pub open spec fn spec_brdf(p: Vec4, t: Triangle, cam: Vec4, lights: Seq<Light>, head: KDNode) -> Vec4 {
    let mat = spec_brdf_mat(t);
    let ambient = spec_cmul_fx(spec_ambient_light(), mat.ka);
    if !tri_nondegenerate(t) {
        // A collinear triangle has no normal: any light at all reaches
        // an undefined value, and the pixel blackens; with no lights
        // the ambient term alone is well defined and kept.
        if lights.len() == 0 {
            ambient
        } else {
            spec_zero4()
        }
    } else {
        let nn = spec_normal_interp(t, p);
        let vvec = spec_minus(cam, p);
        if vvec == spec_zero4() {
            // The view direction is undefined: occluded lights are
            // dropped before it is used, so the ambient term survives
            // exactly when every light is occluded.
            if spec_all_blocked(head, p, nn, lights, 0) {
                ambient
            } else {
                spec_zero4()
            }
        } else {
            let vv = spec_normalize(vvec);
            match spec_accum(head, p, nn, vv, lights, mat.ns, mat.kd, mat.ks, ambient, 0) {
                None => spec_zero4(),
                Some(c) => c,
            }
        }
    }
}

/// Fixed-point componentwise color product.
pub fn cmul_fx(a: Vec4, b: Vec4) -> (r: Vec4)
    requires
        vec_in_range(a, SCALE as int),
        vec_in_range(b, 4 * SCALE as int),
    ensures
        r == spec_cmul_fx(a, b),
        vec_in_range(r, 4 * SCALE as int),
{
    proof {
        assert((SCALE as int) * (4 * SCALE as int) == (4 * SCALE as int) * (SCALE as int))
            by (nonlinear_arith);
        lemma_abs_mul_le(a.x as int, b.x as int, SCALE as int, 4 * SCALE as int);
        lemma_abs_mul_le(a.y as int, b.y as int, SCALE as int, 4 * SCALE as int);
        lemma_abs_mul_le(a.z as int, b.z as int, SCALE as int, 4 * SCALE as int);
        lemma_abs_mul_le(a.w as int, b.w as int, SCALE as int, 4 * SCALE as int);
        lemma_tdiv_bound((a.x as int) * (b.x as int), SCALE as int, 4 * SCALE as int);
        lemma_tdiv_bound((a.y as int) * (b.y as int), SCALE as int, 4 * SCALE as int);
        lemma_tdiv_bound((a.z as int) * (b.z as int), SCALE as int, 4 * SCALE as int);
        lemma_tdiv_bound((a.w as int) * (b.w as int), SCALE as int, 4 * SCALE as int);
    }
    let x: i128 = tdiv128((a.x as i128) * (b.x as i128), SCALE as i128);
    let y: i128 = tdiv128((a.y as i128) * (b.y as i128), SCALE as i128);
    let z: i128 = tdiv128((a.z as i128) * (b.z as i128), SCALE as i128);
    let w: i128 = tdiv128((a.w as i128) * (b.w as i128), SCALE as i128);
    Vec4 { x: x as i64, y: y as i64, z: z as i64, w: w as i64 }
}

/// Fixed-point scaling of a color by a scalar.
pub fn scale_fx(a: Vec4, k: i64) -> (r: Vec4)
    requires
        vec_in_range(a, 4 * SCALE as int),
        -16 * SCALE as int <= k as int <= 16 * SCALE as int,
    ensures
        r == spec_scale_fx(a, k as int),
        vec_in_range(r, 64 * SCALE as int),
        (vec_in_range(a, SCALE as int) && 0 <= k <= SCALE) ==> vec_in_range(r, SCALE as int),
{
    proof {
        assert((4 * SCALE as int) * (16 * SCALE as int) == (64 * SCALE as int) * (SCALE as int))
            by (nonlinear_arith);
        lemma_abs_mul_le(a.x as int, k as int, 4 * SCALE as int, 16 * SCALE as int);
        lemma_abs_mul_le(a.y as int, k as int, 4 * SCALE as int, 16 * SCALE as int);
        lemma_abs_mul_le(a.z as int, k as int, 4 * SCALE as int, 16 * SCALE as int);
        lemma_abs_mul_le(a.w as int, k as int, 4 * SCALE as int, 16 * SCALE as int);
        lemma_tdiv_bound((a.x as int) * (k as int), SCALE as int, 64 * SCALE as int);
        lemma_tdiv_bound((a.y as int) * (k as int), SCALE as int, 64 * SCALE as int);
        lemma_tdiv_bound((a.z as int) * (k as int), SCALE as int, 64 * SCALE as int);
        lemma_tdiv_bound((a.w as int) * (k as int), SCALE as int, 64 * SCALE as int);
        if vec_in_range(a, SCALE as int) && 0 <= k <= SCALE {
            assert((SCALE as int) * (SCALE as int) == (SCALE as int) * (SCALE as int));
            lemma_abs_mul_le(a.x as int, k as int, SCALE as int, SCALE as int);
            lemma_abs_mul_le(a.y as int, k as int, SCALE as int, SCALE as int);
            lemma_abs_mul_le(a.z as int, k as int, SCALE as int, SCALE as int);
            lemma_abs_mul_le(a.w as int, k as int, SCALE as int, SCALE as int);
            lemma_tdiv_bound((a.x as int) * (k as int), SCALE as int, SCALE as int);
            lemma_tdiv_bound((a.y as int) * (k as int), SCALE as int, SCALE as int);
            lemma_tdiv_bound((a.z as int) * (k as int), SCALE as int, SCALE as int);
            lemma_tdiv_bound((a.w as int) * (k as int), SCALE as int, SCALE as int);
        }
    }
    let x: i128 = tdiv128((a.x as i128) * (k as i128), SCALE as i128);
    let y: i128 = tdiv128((a.y as i128) * (k as i128), SCALE as i128);
    let z: i128 = tdiv128((a.z as i128) * (k as i128), SCALE as i128);
    let w: i128 = tdiv128((a.w as i128) * (k as i128), SCALE as i128);
    Vec4 { x: x as i64, y: y as i64, z: z as i64, w: w as i64 }
}

/// The cosine-like fixed-point product of two unit-scale vectors.
pub fn dot_unit(a: Vec4, b: Vec4) -> (r: i64)
    requires
        vec_in_range(a, 2 * SCALE as int),
        vec_in_range(b, 2 * SCALE as int),
    ensures
        r as int == spec_dot_unit(a, b),
        -16 * SCALE as int <= r as int <= 16 * SCALE as int,
{
    proof {
        assert(4 * ((2 * SCALE as int) * (2 * SCALE as int)) == (16 * SCALE as int) * (
        SCALE as int)) by (nonlinear_arith);
        crate::vec4::lemma_dot_bound(a, b, 2 * SCALE as int, 2 * SCALE as int);
        lemma_tdiv_bound(spec_dot(a, b), SCALE as int, 16 * SCALE as int);
    }
    let d: i64 = a.dot(b);
    let r: i128 = tdiv128(d as i128, SCALE as i128);
    r as i64
}

/// Fixed-point power by repeated multiplication.
pub fn powfx(base: i64, e: u32) -> (r: i64)
    requires
        0 <= base <= SCALE,
        e <= 10000,
    ensures
        r as int == spec_powfx(base as int, e as nat),
        0 <= r <= SCALE,
{
    let mut acc: i64 = SCALE;
    let mut i: u32 = 0;
    while i < e
        invariant
            0 <= i <= e,
            0 <= base <= SCALE,
            acc as int == spec_powfx(base as int, i as nat),
            0 <= acc <= SCALE,
        decreases e - i,
    {
        proof {
            assert(0 <= (base as int) * (acc as int) <= (SCALE as int) * (SCALE as int))
                by (nonlinear_arith)
                requires
                    0 <= base <= SCALE,
                    0 <= acc <= SCALE,
            ;
            lemma_tdiv_bound((base as int) * (acc as int), SCALE as int, SCALE as int);
            vstd::arithmetic::div_mod::lemma_div_pos_is_pos(
                (base as int) * (acc as int),
                SCALE as int,
            );
        }
        let next: i128 = tdiv128((base as i128) * (acc as i128), SCALE as i128);
        acc = next as i64;
        i = i + 1;
    }
    acc
}

/// The surface point nudged one unit along the shading normal's signs;
/// shading normals carry no homogeneous part, so the `w` coordinate is
/// left alone.
pub fn offset_point(p: Vec4, n: Vec4) -> (r: Vec4)
    requires
        hit_point_wf(p),
        n.w == 0,
    ensures
        r == spec_offset(p, n),
        vec_in_range(r, ORIGIN_MAX as int),
{
    let ox: i64 = if n.x > 0 {
        1
    } else if n.x < 0 {
        -1
    } else {
        0
    };
    let oy: i64 = if n.y > 0 {
        1
    } else if n.y < 0 {
        -1
    } else {
        0
    };
    let oz: i64 = if n.z > 0 {
        1
    } else if n.z < 0 {
        -1
    } else {
        0
    };
    let ow: i64 = if n.w > 0 {
        1
    } else if n.w < 0 {
        -1
    } else {
        0
    };
    Vec4 { x: p.x + ox, y: p.y + oy, z: p.z + oz, w: p.w + ow }
}

/// Decides whether any candidate of the index blocks the shadow ray.
pub fn shadow_blocked(head: &KDNode, sray: &Ray) -> (blocked: bool)
    requires
        kd_wf(*head),
        vec_in_range(sray.origin, ORIGIN_MAX as int),
        vec_in_range(sray.dir, DIR_MAX as int),
    ensures
        blocked == spec_shadow_blocked(*head, *sray),
{
    let cands: Vec<Triangle> = head.ray_leaf(sray);
    proof {
        lemma_ray_leaf_in_range(*head, *sray);
    }
    let mut j: usize = 0;
    while j < cands.len()
        invariant
            0 <= j <= cands@.len(),
            cands@ == spec_ray_leaf(*head, *sray),
            vec_in_range(sray.origin, ORIGIN_MAX as int),
            vec_in_range(sray.dir, DIR_MAX as int),
            forall|k: int| 0 <= k < cands@.len() ==> tri_ok(#[trigger] cands@[k]),
            forall|k: int|
                0 <= k < j ==> !#[trigger] blocked_at(spec_intersects(*sray, cands@[k])),
        decreases cands@.len() - j,
    {
        let h: Option<Intersection> = intersects(sray, &cands[j]);
        match h {
            Some(hit) => {
                if hit.t_num < hit.t_den {
                    proof {
                        assert(blocked_at(spec_intersects(*sray, cands@[j as int])));
                    }
                    return true;
                }
            },
            None => {},
        }
        j = j + 1;
    }
    false
}

/// The Blinn-Phong shade at `p` (see `spec_brdf`): ambient plus, for
/// each unoccluded light, a diffuse term and a specular term.
#[verifier::rlimit(100)]
pub fn brdf(p: &Vec4, t: &Triangle, cam: &Vec4, lights: &Vec<Light>, object: &Obj) -> (out: Vec4)
    requires
        obj_wf(*object),
        hit_point_wf(*p),
        vec_in_range(*cam, COORD_MAX as int),
        tri_ok(*t),
        lights@.len() <= MAX_LIGHTS,
        forall|i: int| 0 <= i < lights@.len() ==> light_wf(#[trigger] lights@[i]),
    ensures
        out == spec_brdf(*p, *t, *cam, lights@, object.head),
{
    let mat0: Material = match t.mat {
        Some(m) => m,
        None => Material::default(),
    };
    let mat: Material = if material_ok(&mat0) {
        mat0
    } else {
        Material::default()
    };
    let zero = Vec4 { x: 0, y: 0, z: 0, w: 0 };
    let ambient: Vec4 = cmul_fx(Vec4 { x: SCALE, y: SCALE, z: SCALE, w: SCALE }, mat.ka);
    proof {
        assert(mat == spec_brdf_mat(*t));
        assert(zero == spec_zero4());
        assert(ambient == spec_cmul_fx(spec_ambient_light(), mat.ka));
    }
    if tri_degenerate(t) {
        // The normal is undefined: the first light reached blackens the
        // pixel; with no lights the ambient term alone is returned.
        if lights.len() == 0 {
            return ambient;
        } else {
            return zero;
        }
    }
    let nn: Vec4 = t.normal_interp(p);
    let vvec: Vec4 = cam.minus(*p);
    proof {
        assert(vvec == spec_minus(*cam, *p));
        assert(nn == spec_normal_interp(*t, *p));
    }
    if vvec.x == 0 && vvec.y == 0 && vvec.z == 0 && vvec.w == 0 {
        proof {
            assert(spec_minus(*cam, *p) == spec_zero4());
        }
        // The view direction is undefined.  An occluded light is
        // dropped before the view direction is ever used, so the
        // ambient term survives exactly when every light is occluded;
        // the first visible light (or one at the surface point itself)
        // blackens the pixel.
        let mut i: usize = 0;
        while i < lights.len()
            invariant
                0 <= i <= lights@.len(),
                obj_wf(*object),
                hit_point_wf(*p),
                vec_in_range(*cam, COORD_MAX as int),
                tri_ok(*t),
                tri_nondegenerate(*t),
                lights@.len() <= MAX_LIGHTS,
                forall|k: int| 0 <= k < lights@.len() ==> light_wf(#[trigger] lights@[k]),
                vec_in_range(nn, SCALE as int),
                nn == spec_normal_interp(*t, *p),
                mat == spec_brdf_mat(*t),
                zero == spec_zero4(),
                ambient == spec_cmul_fx(spec_ambient_light(), mat.ka),
                spec_minus(*cam, *p) == spec_zero4(),
                spec_all_blocked(object.head, *p, nn, lights@, 0) == spec_all_blocked(
                    object.head,
                    *p,
                    nn,
                    lights@,
                    i as int,
                ),
            decreases lights@.len() - i,
        {
            let light: Light = lights[i];
            let lvec: Vec4 = light.pos.minus(*p);
            proof {
                assert(lvec == spec_minus(light.pos, *p));
            }
            if lvec.x == 0 && lvec.y == 0 && lvec.z == 0 && lvec.w == 0 {
                proof {
                    assert(lvec == spec_zero4());
                    assert(!spec_all_blocked(object.head, *p, nn, lights@, i as int));
                    assert(spec_brdf(*p, *t, *cam, lights@, object.head) == spec_zero4());
                }
                return zero;
            }
            let ll: Vec4 = lvec.normalize();
            let lamb0: i64 = dot_unit(nn, ll);
            let ln: Vec4 = if lamb0 <= 0 {
                nn.scale(-1)
            } else {
                nn
            };
            proof {
                if lamb0 <= 0 {
                    assert(ln == spec_neg(nn));
                }
            }
            let sorigin: Vec4 = offset_point(*p, ln);
            let sdir: Vec4 = light.pos.minus(sorigin);
            proof {
                assert(ll == spec_normalize(spec_minus(light.pos, *p)));
                assert(lamb0 as int == spec_dot_unit(nn, ll));
                assert(sorigin == spec_offset(*p, ln));
                assert(sdir == spec_minus(light.pos, sorigin));
            }
            let sray = Ray { origin: sorigin, dir: sdir };
            let blk: bool = shadow_blocked(&object.head, &sray);
            proof {
                assert(spec_shadow_blocked(
                    object.head,
                    Ray { origin: sorigin, dir: sdir },
                ) == blk);
            }
            if !blk {
                proof {
                    assert(!spec_all_blocked(object.head, *p, nn, lights@, i as int));
                    assert(spec_brdf(*p, *t, *cam, lights@, object.head) == spec_zero4());
                }
                return zero;
            }
            proof {
                assert(spec_all_blocked(object.head, *p, nn, lights@, i as int)
                    == spec_all_blocked(object.head, *p, nn, lights@, i as int + 1));
            }
            i = i + 1;
        }
        proof {
            assert(spec_all_blocked(object.head, *p, nn, lights@, i as int));
            assert(spec_brdf(*p, *t, *cam, lights@, object.head) == ambient);
        }
        return ambient;
    }
    let vv: Vec4 = vvec.normalize();
    proof {
        assert(vv == spec_normalize(spec_minus(*cam, *p)));
    }
    let mut col: Vec4 = ambient;
    let mut i: usize = 0;
    while i < lights.len()
        invariant
            0 <= i <= lights@.len(),
            lights@.len() <= MAX_LIGHTS,
            obj_wf(*object),
            hit_point_wf(*p),
            tri_ok(*t),
            forall|k: int| 0 <= k < lights@.len() ==> light_wf(#[trigger] lights@[k]),
            vec_in_range(nn, SCALE as int),
            vec_in_range(vv, SCALE as int),
            material_wf(mat),
            mat == spec_brdf_mat(*t),
            zero == spec_zero4(),
            ambient == spec_cmul_fx(spec_ambient_light(), mat.ka),
            tri_nondegenerate(*t),
            nn == spec_normal_interp(*t, *p),
            spec_minus(*cam, *p) != spec_zero4(),
            vv == spec_normalize(spec_minus(*cam, *p)),
            vec_in_range(*cam, COORD_MAX as int),
            vec_in_range(col, 4 * SCALE as int + 68 * (SCALE as int) * (i as int)),
            spec_accum(
                object.head,
                *p,
                nn,
                vv,
                lights@,
                mat.ns,
                mat.kd,
                mat.ks,
                col,
                i as int,
            ) == spec_accum(
                object.head,
                *p,
                nn,
                vv,
                lights@,
                mat.ns,
                mat.kd,
                mat.ks,
                spec_cmul_fx(spec_ambient_light(), mat.ka),
                0,
            ),
        decreases lights@.len() - i,
    {
        let light: Light = lights[i];
        let lvec: Vec4 = light.pos.minus(*p);
        proof {
            assert(lvec == spec_minus(light.pos, *p));
        }
        if lvec.x == 0 && lvec.y == 0 && lvec.z == 0 && lvec.w == 0 {
            proof {
                assert(lvec == spec_zero4());
                assert(spec_light_step(object.head, *p, nn, vv, light, mat.ns, mat.kd, mat.ks)
                    is None);
                assert(spec_accum(
                    object.head,
                    *p,
                    nn,
                    vv,
                    lights@,
                    mat.ns,
                    mat.kd,
                    mat.ks,
                    col,
                    i as int,
                ) is None);
                assert(spec_brdf(*p, *t, *cam, lights@, object.head) == spec_zero4());
            }
            return zero;
        }
        let ll: Vec4 = lvec.normalize();
        proof {
            assert(ll == spec_normalize(spec_minus(light.pos, *p)));
        }
        let lamb0: i64 = dot_unit(nn, ll);
        proof {
            assert(lamb0 as int == spec_dot_unit(nn, ll));
        }
        let ln: Vec4 = if lamb0 <= 0 {
            nn.scale(-1)
        } else {
            nn
        };
        let lamb: i64 = if lamb0 <= 0 {
            dot_unit(ln, ll)
        } else {
            lamb0
        };
        proof {
            if lamb0 <= 0 {
                assert(ln == spec_neg(nn));
            }
        }
        let sorigin: Vec4 = offset_point(*p, ln);
        let sdir: Vec4 = light.pos.minus(sorigin);
        proof {
            assert(sorigin == spec_offset(*p, ln));
            assert(sdir == spec_minus(light.pos, sorigin));
        }
        let sray = Ray { origin: sorigin, dir: sdir };
        let inc: Vec4;
        let blk: bool = shadow_blocked(&object.head, &sray);
        proof {
            let lvs = spec_minus(light.pos, *p);
            assert(lvs == lvec && lvs != spec_zero4());
            assert(spec_normalize(lvs) == ll);
            assert(spec_dot_unit(nn, ll) == lamb0 as int);
            assert((if spec_dot_unit(nn, ll) <= 0 {
                spec_neg(nn)
            } else {
                nn
            }) == ln);
            assert((if spec_dot_unit(nn, ll) <= 0 {
                spec_dot_unit(spec_neg(nn), ll)
            } else {
                spec_dot_unit(nn, ll)
            }) == lamb as int);
            assert(spec_offset(*p, ln) == sorigin);
            assert(spec_minus(light.pos, sorigin) == sdir);
            assert(spec_shadow_blocked(
                object.head,
                Ray { origin: sorigin, dir: sdir },
            ) == blk);
        }
        if blk {
            inc = zero;
            proof {
                assert(spec_light_step(object.head, *p, nn, vv, light, mat.ns, mat.kd, mat.ks)
                    == Some(inc));
            }
        } else {
            let diffuse: Vec4 = scale_fx(cmul_fx(light.col, mat.kd), lamb);
            proof {
                assert(diffuse == spec_scale_fx(spec_cmul_fx(light.col, mat.kd), lamb as int));
            }
            let hv: Vec4 = ll.plus(vv);
            proof {
                assert(hv == spec_plus(ll, vv));
            }
            if hv.x == 0 && hv.y == 0 && hv.z == 0 && hv.w == 0 {
                proof {
                    assert(hv == spec_zero4());
                    assert(spec_light_step(
                        object.head,
                        *p,
                        nn,
                        vv,
                        light,
                        mat.ns,
                        mat.kd,
                        mat.ks,
                    ) is None);
                    assert(spec_accum(
                        object.head,
                        *p,
                        nn,
                        vv,
                        lights@,
                        mat.ns,
                        mat.kd,
                        mat.ks,
                        col,
                        i as int,
                    ) is None);
                    assert(spec_brdf(*p, *t, *cam, lights@, object.head) == spec_zero4());
                }
                return zero;
            }
            let hh: Vec4 = hv.normalize();
            proof {
                assert(hh == spec_normalize(hv));
            }
            let sd: i64 = dot_unit(ln, hh);
            proof {
                assert(sd as int == spec_dot_unit(ln, hh));
            }
            if sd <= 0 {
                inc = diffuse;
                proof {
                    assert(spec_light_step(
                        object.head,
                        *p,
                        nn,
                        vv,
                        light,
                        mat.ns,
                        mat.kd,
                        mat.ks,
                    ) == Some(inc));
                }
            } else {
                let sdc: i64 = if sd > SCALE {
                    SCALE
                } else {
                    sd
                };
                let powv: i64 = powfx(sdc, mat.ns);
                let specular: Vec4 = cmul_fx(light.col, scale_fx(mat.ks, powv));
                proof {
                    assert(specular == spec_cmul_fx(
                        light.col,
                        spec_scale_fx(mat.ks, spec_powfx(sdc as int, mat.ns as nat)),
                    ));
                }
                let both: Vec4 = diffuse.plus(specular);
                proof {
                    assert(both == spec_plus(diffuse, specular));
                }
                inc = both;
                proof {
                    assert(spec_light_step(
                        object.head,
                        *p,
                        nn,
                        vv,
                        light,
                        mat.ns,
                        mat.kd,
                        mat.ks,
                    ) == Some(inc));
                }
            }
        }
        proof {
            assert(68 * (SCALE as int) * ((i as int) + 1) == 68 * (SCALE as int) * (i as int) + 68
                * (SCALE as int)) by (nonlinear_arith);
        }
        proof {
            assert(68 * (SCALE as int) * (i as int) <= 68 * (SCALE as int) * 4096)
                by (nonlinear_arith)
                requires
                    0 <= i <= 4096,
            ;
        }
        let newcol: Vec4 = col.plus(inc);
        proof {
            assert(newcol == spec_plus(col, inc));
        }
        col = newcol;
        i = i + 1;
    }
    proof {
        assert(spec_accum(
            object.head,
            *p,
            nn,
            vv,
            lights@,
            mat.ns,
            mat.kd,
            mat.ks,
            col,
            i as int,
        ) == Some(col));
        assert(spec_brdf(*p, *t, *cam, lights@, object.head) == col);
    }
    col
}

} // verus!

verus! {

/// The color of pixel `(i, j)` (row `i` from the top, column `j`): the
/// camera ray through the pixel is built from normalized device
/// coordinates (cleared of their common positive denominator) and the
/// orientation transform; the closest candidate hit is shaded, and a
/// miss gives the sky color.
pub open spec fn spec_pixel(
    head: KDNode,
    cam: Vec4,
    lights: Seq<Light>,
    res_x: int,
    res_y: int,
    m: Mat4,
    i: int,
    j: int,
) -> Vec4 {
    let draw = Vec4 {
        x: (2 * j - res_x) as i64,
        y: (res_y - 2 * i) as i64,
        z: (-2 * res_y) as i64,
        w: 0i64,
    };
    let ray = Ray { origin: spec_transform_point(m, cam), dir: spec_rotate_dir(m, draw) };
    match spec_closest(ray, spec_ray_leaf(head, ray)) {
        None => spec_sky(),
        Some(h) => spec_brdf(h.p, h.triangle, cam, lights, head),
    }
}

/// The scene, camera, lights and orientation are all within range.
pub open spec fn render_wf(o: Obj, cam: Vec4, lights: Seq<Light>, m: Mat4) -> bool {
    &&& obj_wf(o)
    &&& vec_in_range(cam, 0x10000)
    &&& mat_in_range(m, MAT_MAX as int)
    &&& lights.len() <= MAX_LIGHTS
    &&& forall|k: int| 0 <= k < lights.len() ==> light_wf(#[trigger] lights[k])
}

/// Renders one pixel.
pub fn render_pixel(
    object: &Obj,
    cam: Vec4,
    lights: &Vec<Light>,
    res_x: usize,
    res_y: usize,
    m: &Mat4,
    i: usize,
    j: usize,
) -> (c: Vec4)
    requires
        render_wf(*object, cam, lights@, *m),
        1 <= res_x <= 1024,
        1 <= res_y <= 1024,
        i < res_y,
        j < res_x,
    ensures
        c == spec_pixel(
            object.head,
            cam,
            lights@,
            res_x as int,
            res_y as int,
            *m,
            i as int,
            j as int,
        ),
{
    let jx: i64 = j as i64;
    let ix: i64 = i as i64;
    let rx: i64 = res_x as i64;
    let ry: i64 = res_y as i64;
    let draw = Vec4 { x: 2 * jx - rx, y: ry - 2 * ix, z: 0 - 2 * ry, w: 0 };
    let origin: Vec4 = m.transform_point(cam);
    let dir: Vec4 = m.rotate_dir(draw);
    let ray = Ray { origin, dir };
    let cands: Vec<Triangle> = object.head.ray_leaf(&ray);
    proof {
        lemma_ray_leaf_in_range(object.head, ray);
    }
    let best: Option<Intersection> = closest_hit(&ray, &cands);
    match best {
        None => Vec4 { x: 520, y: 800, z: 920, w: SCALE },
        Some(h) => {
            proof {
                let (j0, _): (int, int) = lemma_closest_best_wf(ray, cands@);
                assert(tri_ok(h.triangle));
            }
            brdf(&h.p, &h.triangle, &cam, lights, object)
        },
    }
}

/// Renders the contiguous rows `[row0, row1)` into a fresh buffer, in
/// row-major order.
pub fn render_rows(
    object: &Obj,
    cam: Vec4,
    lights: &Vec<Light>,
    res_x: usize,
    res_y: usize,
    m: &Mat4,
    row0: usize,
    row1: usize,
) -> (out: Vec<Vec4>)
    requires
        render_wf(*object, cam, lights@, *m),
        1 <= res_x <= 1024,
        1 <= res_y <= 1024,
        row0 <= row1 <= res_y,
    ensures
        out@.len() == (row1 - row0) * (res_x as int),
        forall|a: int, b: int|
            row0 <= a < row1 && 0 <= b < res_x ==> out@[(a - row0) * (res_x as int) + b]
                == spec_pixel(
                object.head,
                cam,
                lights@,
                res_x as int,
                res_y as int,
                *m,
                a,
                b,
            ),
{
    let mut out: Vec<Vec4> = Vec::new();
    let mut ii: usize = row0;
    while ii < row1
        invariant
            render_wf(*object, cam, lights@, *m),
            1 <= res_x <= 1024,
            1 <= res_y <= 1024,
            row0 <= ii <= row1,
            row1 <= res_y,
            out@.len() == (ii - row0) * (res_x as int),
            forall|a: int, b: int|
                row0 <= a < ii && 0 <= b < res_x ==> out@[(a - row0) * (res_x as int) + b]
                    == spec_pixel(
                    object.head,
                    cam,
                    lights@,
                    res_x as int,
                    res_y as int,
                    *m,
                    a,
                    b,
                ),
        decreases row1 - ii,
    {
        let mut jj: usize = 0;
        while jj < res_x
            invariant
                render_wf(*object, cam, lights@, *m),
                1 <= res_x <= 1024,
                1 <= res_y <= 1024,
                row0 <= ii < row1,
                row1 <= res_y,
                0 <= jj <= res_x,
                out@.len() == (ii - row0) * (res_x as int) + jj,
                forall|a: int, b: int|
                    row0 <= a < ii && 0 <= b < res_x ==> out@[(a - row0) * (res_x as int) + b]
                        == spec_pixel(
                        object.head,
                        cam,
                        lights@,
                        res_x as int,
                        res_y as int,
                        *m,
                        a,
                        b,
                    ),
                forall|b: int|
                    0 <= b < jj ==> out@[(ii - row0) * (res_x as int) + b] == spec_pixel(
                        object.head,
                        cam,
                        lights@,
                        res_x as int,
                        res_y as int,
                        *m,
                        ii as int,
                        b,
                    ),
            decreases res_x - jj,
        {
            let c: Vec4 = render_pixel(object, cam, lights, res_x, res_y, m, ii, jj);
            let ghost out0 = out@;
            out.push(c);
            proof {
                assert forall|a: int, b: int|
                    row0 <= a < ii && 0 <= b < res_x implies out@[(a - row0) * (res_x as int) + b]
                    == spec_pixel(
                    object.head,
                    cam,
                    lights@,
                    res_x as int,
                    res_y as int,
                    *m,
                    a,
                    b,
                ) by {
                    assert(0 <= (a - row0) * (res_x as int) + b < out0.len()) by (nonlinear_arith)
                        requires
                            row0 <= a < ii,
                            0 <= b < res_x,
                            out0.len() == (ii - row0) * (res_x as int) + jj,
                            0 <= jj,
                    ;
                    assert(out@[(a - row0) * (res_x as int) + b] == out0[(a - row0) * (
                    res_x as int) + b]);
                }
                assert forall|b: int|
                    0 <= b < jj + 1 implies out@[(ii - row0) * (res_x as int) + b] == spec_pixel(
                    object.head,
                    cam,
                    lights@,
                    res_x as int,
                    res_y as int,
                    *m,
                    ii as int,
                    b,
                ) by {
                    if b < jj {
                        assert(out@[(ii - row0) * (res_x as int) + b] == out0[(ii - row0) * (
                        res_x as int) + b]);
                    } else {
                        assert(out@[(ii - row0) * (res_x as int) + b] == c);
                    }
                }
            }
            jj = jj + 1;
        }
        proof {
            assert(((ii - row0) + 1) * (res_x as int) == (ii - row0) * (res_x as int) + (
            res_x as int)) by (nonlinear_arith);
        }
        ii = ii + 1;
    }
    out
}

/// Renders the whole frame: a row-major framebuffer in which every
/// pixel carries exactly its specified color.
pub fn raytrace(
    object: &Obj,
    cam: Vec4,
    lights: &Vec<Light>,
    res_x: usize,
    res_y: usize,
    m: &Mat4,
) -> (out: Vec<Vec4>)
    requires
        render_wf(*object, cam, lights@, *m),
        1 <= res_x <= 1024,
        1 <= res_y <= 1024,
    ensures
        out@.len() == (res_y as int) * (res_x as int),
        forall|a: int, b: int|
            0 <= a < res_y && 0 <= b < res_x ==> out@[a * (res_x as int) + b] == spec_pixel(
                object.head,
                cam,
                lights@,
                res_x as int,
                res_y as int,
                *m,
                a,
                b,
            ),
{
    render_rows(object, cam, lights, res_x, res_y, m, 0, res_y)
}

/// Rendering is deterministic and independent of how the rows were
/// partitioned among workers: any two framebuffers whose pixels all
/// carry their specified colors are identical.
pub proof fn lemma_render_deterministic(
    head: KDNode,
    cam: Vec4,
    lights: Seq<Light>,
    res_x: int,
    res_y: int,
    m: Mat4,
    fb1: Seq<Vec4>,
    fb2: Seq<Vec4>,
)
    requires
        res_x >= 1,
        res_y >= 1,
        fb1.len() == res_y * res_x,
        fb2.len() == res_y * res_x,
        forall|a: int, b: int|
            0 <= a < res_y && 0 <= b < res_x ==> #[trigger] fb1[a * res_x + b] == spec_pixel(
                head,
                cam,
                lights,
                res_x,
                res_y,
                m,
                a,
                b,
            ),
        forall|a: int, b: int|
            0 <= a < res_y && 0 <= b < res_x ==> #[trigger] fb2[a * res_x + b] == spec_pixel(
                head,
                cam,
                lights,
                res_x,
                res_y,
                m,
                a,
                b,
            ),
    ensures
        fb1 == fb2,
{
    assert forall|k: int| 0 <= k < fb1.len() implies fb1[k] == fb2[k] by {
        let a = k / res_x;
        let b = k % res_x;
        vstd::arithmetic::div_mod::lemma_fundamental_div_mod(k, res_x);
        vstd::arithmetic::div_mod::lemma_mod_bound(k, res_x);
        vstd::arithmetic::div_mod::lemma_div_pos_is_pos(k, res_x);
        assert(a < res_y) by (nonlinear_arith)
            requires
                res_x >= 1,
                k < res_y * res_x,
                k == res_x * a + b,
                0 <= b < res_x,
                a >= 0,
        ;
        assert(k == a * res_x + b) by (nonlinear_arith)
            requires
                k == res_x * a + b,
        ;
        assert(fb1[a * res_x + b] == spec_pixel(head, cam, lights, res_x, res_y, m, a, b));
        assert(fb2[a * res_x + b] == spec_pixel(head, cam, lights, res_x, res_y, m, a, b));
    }
    assert(fb1 =~= fb2);
}

} // verus!

verus! {

/// The diagonal coefficient of the intersection system: on its own
/// coordinate, the entry/exit weights reproduce the determinant's two
/// remaining terms.
proof fn lemma_cramer_diag(
    u1: int,
    u2: int,
    w0: int,
    w1: int,
    w2: int,
    d0: int,
    d1: int,
    d2: int,
    p1: int,
    p2: int,
)
    requires
        p1 == d2 * w0 - d0 * w2,
        p2 == d0 * w1 - d1 * w0,
    ensures
        u1 * p1 + u2 * p2 == (d2 * u1 - d1 * u2) * w0 - (u1 * w2 - u2 * w1) * d0,
{
    vstd::arithmetic::mul::lemma_mul_is_distributive_sub(u1, d2 * w0, d0 * w2);
    vstd::arithmetic::mul::lemma_mul_is_distributive_sub(u2, d0 * w1, d1 * w0);
    lemma_diff_mul(d2 * u1, d1 * u2, w0);
    lemma_diff_mul(u1 * w2, u2 * w1, d0);
    lemma_mul3(u1, d2, w0);
    lemma_mul3(u1, d0, w2);
    lemma_mul3(u2, d0, w1);
    lemma_mul3(u2, d1, w0);
}

/// An off-diagonal coefficient of the intersection system vanishes
/// (the second coordinate's weights on the first coordinate's row).
proof fn lemma_cramer_off1(u0: int, u2: int, w0: int, w2: int, d0: int, d2: int, p1: int)
    requires
        p1 == d2 * w0 - d0 * w2,
    ensures
        p1 * u0 + (d0 * u2 - d2 * u0) * w0 - (u2 * w0 - u0 * w2) * d0 == 0,
{
    lemma_diff_mul(d2 * w0, d0 * w2, u0);
    lemma_diff_mul(d0 * u2, d2 * u0, w0);
    lemma_diff_mul(u2 * w0, u0 * w2, d0);
    lemma_mul3(d2, w0, u0);
    lemma_mul3(d0, w2, u0);
    lemma_mul3(d0, u2, w0);
}

/// The other off-diagonal coefficient vanishes (the third coordinate's
/// weights on the first coordinate's row).
proof fn lemma_cramer_off2(u0: int, u1: int, w0: int, w1: int, d0: int, d1: int, p2: int)
    requires
        p2 == d0 * w1 - d1 * w0,
    ensures
        p2 * u0 + (d1 * u0 - d0 * u1) * w0 - (u0 * w1 - u1 * w0) * d0 == 0,
{
    lemma_diff_mul(d0 * w1, d1 * w0, u0);
    lemma_diff_mul(d1 * u0, d0 * u1, w0);
    lemma_diff_mul(u0 * w1, u1 * w0, d0);
    lemma_mul3(d0, w1, u0);
    lemma_mul3(d1, w0, u0);
    lemma_mul3(d0, u1, w0);
}

/// A dot product with a cross product, collected as a weighted sum of
/// the cross's left operand's components.
proof fn lemma_collect_cross(
    d0: int,
    d1: int,
    d2: int,
    e0: int,
    e1: int,
    e2: int,
    t0: int,
    t1: int,
    t2: int,
)
    ensures
        d0 * (t1 * e2 - t2 * e1) + d1 * (t2 * e0 - t0 * e2) + d2 * (t0 * e1 - t1 * e0) == t0 * (d2
            * e1 - d1 * e2) + t1 * (d0 * e2 - d2 * e0) + t2 * (d1 * e0 - d0 * e1),
{
    vstd::arithmetic::mul::lemma_mul_is_distributive_sub(d0, t1 * e2, t2 * e1);
    vstd::arithmetic::mul::lemma_mul_is_distributive_sub(d1, t2 * e0, t0 * e2);
    vstd::arithmetic::mul::lemma_mul_is_distributive_sub(d2, t0 * e1, t1 * e0);
    vstd::arithmetic::mul::lemma_mul_is_distributive_sub(t0, d2 * e1, d1 * e2);
    vstd::arithmetic::mul::lemma_mul_is_distributive_sub(t1, d0 * e2, d2 * e0);
    vstd::arithmetic::mul::lemma_mul_is_distributive_sub(t2, d1 * e0, d0 * e1);
    lemma_mul3(d0, t1, e2);
    lemma_mul3(d0, t2, e1);
    lemma_mul3(d1, t2, e0);
    lemma_mul3(d1, t0, e2);
    lemma_mul3(d2, t0, e1);
    lemma_mul3(d2, t1, e0);
}

/// Cramer's rule for the intersection system, one coordinate at a
/// time: the quotients of the Moller-Trumbore test solve
/// `origin + t * dir == p0 + u * edge1 + v * edge2` on the leading
/// coordinate of any cyclic arrangement of the axes.
proof fn lemma_cramer_axis(
    e10: int,
    e11: int,
    e12: int,
    e20: int,
    e21: int,
    e22: int,
    d0: int,
    d1: int,
    d2: int,
    t0: int,
    t1: int,
    t2: int,
)
    ensures
        ({
            let p0 = d1 * e22 - d2 * e21;
            let p1 = d2 * e20 - d0 * e22;
            let p2 = d0 * e21 - d1 * e20;
            let q0 = t1 * e12 - t2 * e11;
            let q1 = t2 * e10 - t0 * e12;
            let q2 = t0 * e11 - t1 * e10;
            let det = e10 * p0 + e11 * p1 + e12 * p2;
            let u = t0 * p0 + t1 * p1 + t2 * p2;
            let v = d0 * q0 + d1 * q1 + d2 * q2;
            let tr = e20 * q0 + e21 * q1 + e22 * q2;
            det * t0 == u * e10 + v * e20 - tr * d0
        }),
{
    let p0 = d1 * e22 - d2 * e21;
    let p1 = d2 * e20 - d0 * e22;
    let p2 = d0 * e21 - d1 * e20;
    let det = e10 * p0 + e11 * p1 + e12 * p2;
    let u = t0 * p0 + t1 * p1 + t2 * p2;
    let cv0 = d2 * e11 - d1 * e12;
    let cv1 = d0 * e12 - d2 * e10;
    let cv2 = d1 * e10 - d0 * e11;
    let ct0 = e22 * e11 - e21 * e12;
    let ct1 = e20 * e12 - e22 * e10;
    let ct2 = e21 * e10 - e20 * e11;
    // The two dot products with the cross `T x e1`, as weighted sums
    // over the parameter components.
    lemma_collect_cross(d0, d1, d2, e10, e11, e12, t0, t1, t2);
    lemma_collect_cross(e20, e21, e22, e10, e11, e12, t0, t1, t2);
    let v = t0 * cv0 + t1 * cv1 + t2 * cv2;
    let tr = t0 * ct0 + t1 * ct1 + t2 * ct2;
    // Multiply each sum by its picked component and gather by the
    // parameter.
    lemma_weighted3_mul(e10, t0, p0, t1, p1, t2, p2);
    lemma_weighted3_mul(e20, t0, cv0, t1, cv1, t2, cv2);
    lemma_weighted3_mul(d0, t0, ct0, t1, ct1, t2, ct2);
    lemma_gather3(t0, p0 * e10, cv0 * e20, ct0 * d0);
    lemma_gather3(t1, p1 * e10, cv1 * e20, ct1 * d0);
    lemma_gather3(t2, p2 * e10, cv2 * e20, ct2 * d0);
    // The gathered coefficients: the leading one is the determinant,
    // the other two vanish.
    lemma_cramer_diag(e11, e12, e20, e21, e22, d0, d1, d2, p1, p2);
    vstd::arithmetic::mul::lemma_mul_is_commutative(e22, e11);
    vstd::arithmetic::mul::lemma_mul_is_commutative(e21, e12);
    vstd::arithmetic::mul::lemma_mul_is_commutative(p0, e10);
    assert(p0 * e10 + cv0 * e20 - ct0 * d0 == det);
    lemma_cramer_off1(e10, e12, e20, e22, d0, d2, p1);
    vstd::arithmetic::mul::lemma_mul_is_commutative(e20, e12);
    vstd::arithmetic::mul::lemma_mul_is_commutative(e22, e10);
    assert(p1 * e10 + cv1 * e20 - ct1 * d0 == 0);
    lemma_cramer_off2(e10, e11, e20, e21, d0, d1, p2);
    vstd::arithmetic::mul::lemma_mul_is_commutative(e21, e10);
    vstd::arithmetic::mul::lemma_mul_is_commutative(e20, e11);
    assert(p2 * e10 + cv2 * e20 - ct2 * d0 == 0);
    // Assemble.
    vstd::arithmetic::mul::lemma_mul_basics(t1);
    vstd::arithmetic::mul::lemma_mul_basics(t2);
    vstd::arithmetic::mul::lemma_mul_is_commutative(det, t0);
    assert(u * e10 + v * e20 - tr * d0 == t0 * det);
}

} // verus!

verus! {

/// Turns one coordinate's Cramer identity into the sign-normalized
/// point equation the traversal theorems expect: the ray point at
/// `tn / ad` equals the barycentric combination with weights
/// `(ad - un - vn, un, vn)` over `ad`.
proof fn lemma_axis_to_bary(
    det: int,
    u: int,
    v: int,
    tr: int,
    sgn: int,
    ad: int,
    un: int,
    vn: int,
    tn: int,
    o0: int,
    x0: int,
    x1: int,
    x2: int,
    d0: int,
)
    requires
        det * (o0 - x0) == u * (x1 - x0) + v * (x2 - x0) - tr * d0,
        ad == sgn * det,
        un == sgn * u,
        vn == sgn * v,
        tn == sgn * tr,
    ensures
        ad * (o0 * ad + d0 * tn) == ad * ((ad - un - vn) * x0 + un * x1 + vn * x2),
{
    // Scale the identity by the determinant's sign.
    vstd::arithmetic::mul::lemma_mul_is_associative(sgn, det, o0 - x0);
    lemma_gather3(sgn, u * (x1 - x0), v * (x2 - x0), tr * d0);
    vstd::arithmetic::mul::lemma_mul_is_associative(sgn, u, x1 - x0);
    vstd::arithmetic::mul::lemma_mul_is_associative(sgn, v, x2 - x0);
    vstd::arithmetic::mul::lemma_mul_is_associative(sgn, tr, d0);
    assert(ad * (o0 - x0) == un * (x1 - x0) + vn * (x2 - x0) - tn * d0);
    // Expand the differences and rearrange into the point equation.
    vstd::arithmetic::mul::lemma_mul_is_distributive_sub(ad, o0, x0);
    vstd::arithmetic::mul::lemma_mul_is_distributive_sub(un, x1, x0);
    vstd::arithmetic::mul::lemma_mul_is_distributive_sub(vn, x2, x0);
    lemma_diff_mul(ad - un, vn, x0);
    lemma_diff_mul(ad, un, x0);
    vstd::arithmetic::mul::lemma_mul_is_commutative(o0, ad);
    vstd::arithmetic::mul::lemma_mul_is_commutative(d0, tn);
    assert(o0 * ad + d0 * tn == (ad - un - vn) * x0 + un * x1 + vn * x2);
}

/// The Moller-Trumbore quotients name a genuine point of the triangle:
/// on every coordinate, the ray point at parameter `mt_tn / mt_ad`
/// equals the barycentric combination of the vertices with the
/// nonnegative weights `(mt_ad - mt_un - mt_vn, mt_un, mt_vn)` over
/// `mt_ad` (Cramer's rule for the intersection system).
pub proof fn lemma_mt_point_barycentric(r: Ray, t: Triangle)
    requires
        tri_in_range(t, COORD_MAX as int),
        vec_in_range(r.origin, ORIGIN_MAX as int),
    ensures
        mt_ad(r, t) * ((r.origin.x as int) * mt_ad(r, t) + (r.dir.x as int) * mt_tn(r, t))
            == mt_ad(r, t) * ((mt_ad(r, t) - mt_un(r, t) - mt_vn(r, t)) * (t.p0.v.x as int)
            + mt_un(r, t) * (t.p1.v.x as int) + mt_vn(r, t) * (t.p2.v.x as int)),
        mt_ad(r, t) * ((r.origin.y as int) * mt_ad(r, t) + (r.dir.y as int) * mt_tn(r, t))
            == mt_ad(r, t) * ((mt_ad(r, t) - mt_un(r, t) - mt_vn(r, t)) * (t.p0.v.y as int)
            + mt_un(r, t) * (t.p1.v.y as int) + mt_vn(r, t) * (t.p2.v.y as int)),
        mt_ad(r, t) * ((r.origin.z as int) * mt_ad(r, t) + (r.dir.z as int) * mt_tn(r, t))
            == mt_ad(r, t) * ((mt_ad(r, t) - mt_un(r, t) - mt_vn(r, t)) * (t.p0.v.z as int)
            + mt_un(r, t) * (t.p1.v.z as int) + mt_vn(r, t) * (t.p2.v.z as int)),
{
    let x0 = t.p0.v.x as int;
    let y0 = t.p0.v.y as int;
    let z0 = t.p0.v.z as int;
    let e1x = t.p1.v.x as int - x0;
    let e1y = t.p1.v.y as int - y0;
    let e1z = t.p1.v.z as int - z0;
    let e2x = t.p2.v.x as int - x0;
    let e2y = t.p2.v.y as int - y0;
    let e2z = t.p2.v.z as int - z0;
    let dx = r.dir.x as int;
    let dy = r.dir.y as int;
    let dz = r.dir.z as int;
    let ox = r.origin.x as int;
    let oy = r.origin.y as int;
    let oz = r.origin.z as int;
    let tvx = ox - x0;
    let tvy = oy - y0;
    let tvz = oz - z0;
    // The spec values are these scalars exactly (the coordinate
    // differences fit the machine word).
    assert(tri_e1(t).x as int == e1x && tri_e1(t).y as int == e1y && tri_e1(t).z as int == e1z);
    assert(tri_e2(t).x as int == e2x && tri_e2(t).y as int == e2y && tri_e2(t).z as int == e2z);
    assert(mt_tvec(r, t).x as int == tvx && mt_tvec(r, t).y as int == tvy && mt_tvec(r, t).z as int
        == tvz);
    let det = mt_det(r, t);
    let u = mt_u_raw(r, t);
    let v = mt_v_raw(r, t);
    let tr = mt_t_raw(r, t);
    let sgn = mt_sign(r, t);
    // Cramer's rule on each coordinate, in cyclic arrangements.
    lemma_cramer_axis(e1x, e1y, e1z, e2x, e2y, e2z, dx, dy, dz, tvx, tvy, tvz);
    assert(det * tvx == u * e1x + v * e2x - tr * dx);
    lemma_cramer_axis(e1y, e1z, e1x, e2y, e2z, e2x, dy, dz, dx, tvy, tvz, tvx);
    assert(det * tvy == u * e1y + v * e2y - tr * dy);
    lemma_cramer_axis(e1z, e1x, e1y, e2z, e2x, e2y, dz, dx, dy, tvz, tvx, tvy);
    assert(det * tvz == u * e1z + v * e2z - tr * dz);
    // Sign-normalize and rearrange into the point equations.
    lemma_axis_to_bary(
        det,
        u,
        v,
        tr,
        sgn,
        mt_ad(r, t),
        mt_un(r, t),
        mt_vn(r, t),
        mt_tn(r, t),
        ox,
        x0,
        t.p1.v.x as int,
        t.p2.v.x as int,
        dx,
    );
    lemma_axis_to_bary(
        det,
        u,
        v,
        tr,
        sgn,
        mt_ad(r, t),
        mt_un(r, t),
        mt_vn(r, t),
        mt_tn(r, t),
        oy,
        y0,
        t.p1.v.y as int,
        t.p2.v.y as int,
        dy,
    );
    lemma_axis_to_bary(
        det,
        u,
        v,
        tr,
        sgn,
        mt_ad(r, t),
        mt_un(r, t),
        mt_vn(r, t),
        mt_tn(r, t),
        oz,
        z0,
        t.p1.v.z as int,
        t.p2.v.z as int,
        dz,
    );
}

/// The common positive denominator of a hit is indeed positive.
pub proof fn lemma_mt_ad_pos(r: Ray, t: Triangle)
    requires
        mt_det(r, t) != 0,
    ensures
        mt_ad(r, t) > 0,
{
    if mt_det(r, t) > 0 {
        assert(1 * mt_det(r, t) == mt_det(r, t)) by (nonlinear_arith);
    } else {
        assert((-1) * mt_det(r, t) == -mt_det(r, t)) by (nonlinear_arith);
    }
}

} // verus!
