//! Axis-aligned bounding boxes: point containment, box-box overlap,
//! and the exact ray-box slab test.

use vstd::prelude::*;

use crate::num::{lemma_rat_le_lt_trans, lemma_rat_le_trans, lemma_rat_lt_le_trans,
    lemma_rat_lt_trans, lemma_rat_midpoint, lemma_rat_zero_one, rat_le, rat_lt, rat_lt_exec};
use crate::num::{lemma_abs_mul_le, lemma_diff_mul};
use crate::tracer::Ray;
use crate::triangle::{max3, min3, tri_in_range, tri_normal_x, tri_normal_y, tri_normal_z,
    Triangle};
use crate::vec4::Vec4;
use crate::kdtree::in_box_closed;
use crate::{BOX_MAX, COORD_MAX, DIR_MAX, ORIGIN_MAX};

verus! {

#[derive(Clone, Copy, PartialEq, Eq, Structural, Debug)]
pub struct AABB {
    pub min: Vec4,
    pub max: Vec4,
}

/// `p` lies within the box on every axis (closed intervals).
pub open spec fn spec_contains(b: AABB, p: Vec4) -> bool {
    &&& b.min.x <= p.x <= b.max.x
    &&& b.min.y <= p.y <= b.max.y
    &&& b.min.z <= p.z <= b.max.z
}

/// The two boxes overlap on every axis (closed intervals).
pub open spec fn spec_overlap(a: AABB, b: AABB) -> bool {
    &&& a.min.x <= b.max.x && b.min.x <= a.max.x
    &&& a.min.y <= b.max.y && b.min.y <= a.max.y
    &&& a.min.z <= b.max.z && b.min.z <= a.max.z
}

/// One axis of strict containment at parameter `tn / td`: the ray point
/// coordinate lies strictly between the two planes, scaled by `td > 0`.
pub open spec fn axis_ok(mn: int, mx: int, o: int, dir: int, tn: int, td: int) -> bool {
    mn * td < o * td + dir * tn < mx * td
}

/// The ray point at parameter `tn / td` lies strictly inside the box on
/// every axis.
pub open spec fn strictly_inside_at(b: AABB, r: Ray, tn: int, td: int) -> bool {
    &&& axis_ok(b.min.x as int, b.max.x as int, r.origin.x as int, r.dir.x as int, tn, td)
    &&& axis_ok(b.min.y as int, b.max.y as int, r.origin.y as int, r.dir.y as int, tn, td)
    &&& axis_ok(b.min.z as int, b.max.z as int, r.origin.z as int, r.dir.z as int, tn, td)
}

/// Some point of the ray at a strictly positive parameter is strictly
/// inside the box.
pub open spec fn spec_ray_hits_box(b: AABB, r: Ray) -> bool {
    exists|tn: int, td: int| td > 0 && tn > 0 && #[trigger] strictly_inside_at(b, r, tn, td)
}

/// Numerator of the parameter at which the ray enters the axis slab.
spec fn slab_lo_n(mn: int, mx: int, o: int, dir: int) -> int {
    if dir > 0 {
        mn - o
    } else {
        o - mx
    }
}

/// Numerator of the parameter at which the ray leaves the axis slab.
spec fn slab_hi_n(mn: int, mx: int, o: int, dir: int) -> int {
    if dir > 0 {
        mx - o
    } else {
        o - mn
    }
}

/// Common positive denominator of the two slab parameters.
spec fn slab_den(dir: int) -> int {
    if dir > 0 {
        dir
    } else {
        -dir
    }
}

/// On an axis the ray crosses, strict containment at `tn / td` is
/// exactly "strictly after the entry and strictly before the exit".
proof fn lemma_axis_cross(
    mn: int,
    mx: int,
    o: int,
    dir: int,
    ln: int,
    hn: int,
    dd: int,
    tn: int,
    td: int,
)
    by (nonlinear_arith)
    requires
        td > 0,
        dir != 0,
        dir > 0 ==> ln == mn - o && hn == mx - o && dd == dir,
        dir < 0 ==> ln == o - mx && hn == o - mn && dd == -dir,
    ensures
        (mn * td < o * td + dir * tn && o * td + dir * tn < mx * td) <==> (ln * td < tn * dd && tn
            * dd < hn * td),
{
}

/// On an axis the ray is parallel to, strict containment does not
/// depend on the parameter: it is the origin that must lie strictly
/// between the planes.
proof fn lemma_axis_parallel(mn: int, mx: int, o: int, tn: int, td: int)
    by (nonlinear_arith)
    requires
        td > 0,
    ensures
        (mn * td < o * td + 0 * tn && o * td + 0 * tn < mx * td) <==> (mn < o && o < mx),
{
}

/// Running slab-test interval: a rational lower bound `tmin` (always
/// present, starting at zero) and an optional rational upper bound.
#[derive(Clone, Copy)]
struct SlabState {
    alive: bool,
    tmin_n: i128,
    tmin_d: i128,
    has_max: bool,
    tmax_n: i128,
    tmax_d: i128,
}

/// Denominators are positive and all parts stay small enough for the
/// exact rational comparisons.
spec fn state_wf(s: SlabState) -> bool {
    &&& 0 < s.tmin_d <= DIR_MAX as int
    &&& -0x200000 <= s.tmin_n <= 0x200000
    &&& s.has_max ==> 0 < s.tmax_d <= DIR_MAX as int
    &&& s.has_max ==> -0x200000 <= s.tmax_n <= 0x200000
}

/// Narrows the running interval by one axis of the slab test.  The
/// contract records, pointwise on rationals: that the state only dies
/// on a failed parallel axis, that the interval only narrows, that a
/// crossed axis's entry and exit bound the new interval, and where each
/// new bound comes from.
fn axis_update(s: SlabState, mn: i64, mx: i64, o: i64, dir: i64) -> (res: SlabState)
    requires
        state_wf(s),
        -BOX_MAX <= mn <= BOX_MAX,
        -BOX_MAX <= mx <= BOX_MAX,
        -ORIGIN_MAX <= o <= ORIGIN_MAX,
        -DIR_MAX <= dir <= DIR_MAX,
    ensures
        state_wf(res),
        res.alive == (s.alive && (dir != 0 || (mn < o && o < mx))),
        res.has_max == (s.has_max || dir != 0),
        dir == 0 ==> res.tmin_n == s.tmin_n && res.tmin_d == s.tmin_d && res.tmax_n == s.tmax_n
            && res.tmax_d == s.tmax_d,
        rat_le(s.tmin_n as int, s.tmin_d as int, res.tmin_n as int, res.tmin_d as int),
        s.has_max ==> rat_le(res.tmax_n as int, res.tmax_d as int, s.tmax_n as int, s.tmax_d as int),
        dir != 0 ==> rat_le(
            slab_lo_n(mn as int, mx as int, o as int, dir as int),
            slab_den(dir as int),
            res.tmin_n as int,
            res.tmin_d as int,
        ),
        dir != 0 ==> rat_le(
            res.tmax_n as int,
            res.tmax_d as int,
            slab_hi_n(mn as int, mx as int, o as int, dir as int),
            slab_den(dir as int),
        ),
        (res.tmin_n == s.tmin_n && res.tmin_d == s.tmin_d) || (dir != 0 && res.tmin_n as int
            == slab_lo_n(mn as int, mx as int, o as int, dir as int) && res.tmin_d as int
            == slab_den(dir as int)),
        res.has_max ==> ((s.has_max && res.tmax_n == s.tmax_n && res.tmax_d == s.tmax_d) || (dir
            != 0 && res.tmax_n as int == slab_hi_n(mn as int, mx as int, o as int, dir as int)
            && res.tmax_d as int == slab_den(dir as int))),
{
    if dir == 0 {
        // A ray parallel to this axis stays at the origin coordinate:
        // it passes iff the origin is strictly between the two planes.
        let pass: bool = mn < o && o < mx;
        return SlabState { alive: s.alive && pass, ..s };
    }
    // The entry and exit parameters on this axis; folding the sign of
    // `dir` into the denominator keeps both denominators positive.
    let lo_n: i128;
    let hi_n: i128;
    let dd: i128;
    if dir > 0 {
        lo_n = (mn as i128) - (o as i128);
        hi_n = (mx as i128) - (o as i128);
        dd = dir as i128;
    } else {
        lo_n = (o as i128) - (mx as i128);
        hi_n = (o as i128) - (mn as i128);
        dd = -(dir as i128);
    }
    // tmin' = max(tmin, lo); tmax' = min(tmax, hi).
    let tmin_is_lower: bool = rat_lt_exec(s.tmin_n, s.tmin_d, lo_n, dd);
    let hi_is_lower: bool = if s.has_max {
        rat_lt_exec(hi_n, dd, s.tmax_n, s.tmax_d)
    } else {
        true
    };
    SlabState {
        alive: s.alive,
        tmin_n: if tmin_is_lower {
            lo_n
        } else {
            s.tmin_n
        },
        tmin_d: if tmin_is_lower {
            dd
        } else {
            s.tmin_d
        },
        has_max: true,
        tmax_n: if hi_is_lower {
            hi_n
        } else {
            s.tmax_n
        },
        tmax_d: if hi_is_lower {
            dd
        } else {
            s.tmax_d
        },
    }
}

impl AABB {
    /// True iff the point lies within the box on every axis.
    pub fn contains(&self, p: &Vec4) -> (r: bool)
        ensures
            r == spec_contains(*self, *p),
    {
        let gt_min: bool = self.min.x <= p.x && self.min.y <= p.y && self.min.z <= p.z;
        let lt_max: bool = self.max.x >= p.x && self.max.y >= p.y && self.max.z >= p.z;
        gt_min && lt_max
    }

    /// True iff the two boxes overlap on every axis.
    pub fn intersect_aabb(&self, bb: &AABB) -> (r: bool)
        ensures
            r == spec_overlap(*self, *bb),
    {
        let tx: bool = self.min.x <= bb.max.x && self.max.x >= bb.min.x;
        let ty: bool = self.min.y <= bb.max.y && self.max.y >= bb.min.y;
        let tz: bool = self.min.z <= bb.max.z && self.max.z >= bb.min.z;
        tx && ty && tz
    }

    /// The slab test: true iff the ray reaches a point strictly inside
    /// the box at some strictly positive parameter.  Per axis the entry
    /// and exit distances narrow a running rational interval that
    /// starts at `(0, infinity)`; the box is hit iff the final interval
    /// is nonempty.
    pub fn intersect_ray(&self, r: &Ray) -> (hit: bool)
        requires
            crate::vec4::vec_in_range(self.min, BOX_MAX as int),
            crate::vec4::vec_in_range(self.max, BOX_MAX as int),
            crate::vec4::vec_in_range(r.origin, ORIGIN_MAX as int),
            crate::vec4::vec_in_range(r.dir, DIR_MAX as int),
        ensures
            hit == spec_ray_hits_box(*self, *r),
    {
        let s0 = SlabState {
            alive: true,
            tmin_n: 0,
            tmin_d: 1,
            has_max: false,
            tmax_n: 0,
            tmax_d: 1,
        };
        let s1 = axis_update(s0, self.min.x, self.max.x, r.origin.x, r.dir.x);
        let s2 = axis_update(s1, self.min.y, self.max.y, r.origin.y, r.dir.y);
        let s3 = axis_update(s2, self.min.z, self.max.z, r.origin.z, r.dir.z);
        let hit: bool = s3.alive && (!s3.has_max || rat_lt_exec(
            s3.tmin_n,
            s3.tmin_d,
            s3.tmax_n,
            s3.tmax_d,
        ));
        proof {
            let mnx = self.min.x as int;
            let mny = self.min.y as int;
            let mnz = self.min.z as int;
            let mxx = self.max.x as int;
            let mxy = self.max.y as int;
            let mxz = self.max.z as int;
            let ox = r.origin.x as int;
            let oy = r.origin.y as int;
            let oz = r.origin.z as int;
            let dx = r.dir.x as int;
            let dy = r.dir.y as int;
            let dz = r.dir.z as int;
            // The lower bound never falls below its starting value zero,
            // and each bound is inherited down the chain.
            lemma_rat_le_trans(
                0,
                1,
                s1.tmin_n as int,
                s1.tmin_d as int,
                s2.tmin_n as int,
                s2.tmin_d as int,
            );
            lemma_rat_le_trans(
                0,
                1,
                s2.tmin_n as int,
                s2.tmin_d as int,
                s3.tmin_n as int,
                s3.tmin_d as int,
            );
            if dx != 0 {
                lemma_rat_le_trans(
                    slab_lo_n(mnx, mxx, ox, dx),
                    slab_den(dx),
                    s1.tmin_n as int,
                    s1.tmin_d as int,
                    s2.tmin_n as int,
                    s2.tmin_d as int,
                );
                lemma_rat_le_trans(
                    slab_lo_n(mnx, mxx, ox, dx),
                    slab_den(dx),
                    s2.tmin_n as int,
                    s2.tmin_d as int,
                    s3.tmin_n as int,
                    s3.tmin_d as int,
                );
                if s1.has_max {
                    lemma_rat_le_trans(
                        s3.tmax_n as int,
                        s3.tmax_d as int,
                        s2.tmax_n as int,
                        s2.tmax_d as int,
                        s1.tmax_n as int,
                        s1.tmax_d as int,
                    );
                    lemma_rat_le_trans(
                        s3.tmax_n as int,
                        s3.tmax_d as int,
                        s1.tmax_n as int,
                        s1.tmax_d as int,
                        slab_hi_n(mnx, mxx, ox, dx),
                        slab_den(dx),
                    );
                }
            }
            if dy != 0 {
                lemma_rat_le_trans(
                    slab_lo_n(mny, mxy, oy, dy),
                    slab_den(dy),
                    s2.tmin_n as int,
                    s2.tmin_d as int,
                    s3.tmin_n as int,
                    s3.tmin_d as int,
                );
                if s2.has_max {
                    lemma_rat_le_trans(
                        s3.tmax_n as int,
                        s3.tmax_d as int,
                        s2.tmax_n as int,
                        s2.tmax_d as int,
                        slab_hi_n(mny, mxy, oy, dy),
                        slab_den(dy),
                    );
                }
            }
            if hit {
                // Build an explicit witness strictly inside the final
                // interval: its midpoint, or any point past `tmin` when
                // the ray is parallel to all three axes.
                let wn: int;
                let wd: int;
                if s3.has_max {
                    lemma_rat_midpoint(
                        s3.tmin_n as int,
                        s3.tmin_d as int,
                        s3.tmax_n as int,
                        s3.tmax_d as int,
                    );
                    wn = (s3.tmin_n as int) * (s3.tmax_d as int) + (s3.tmax_n as int) * (
                    s3.tmin_d as int);
                    wd = 2 * (s3.tmin_d as int) * (s3.tmax_d as int);
                } else {
                    wn = (s3.tmin_n as int) + (s3.tmin_d as int);
                    wd = s3.tmin_d as int;
                    assert((s3.tmin_n as int) * wd < wn * (s3.tmin_d as int)) by (nonlinear_arith)
                        requires
                            wn == (s3.tmin_n as int) + (s3.tmin_d as int),
                            wd == s3.tmin_d as int,
                            s3.tmin_d > 0,
                    ;
                }
                assert(rat_lt(s3.tmin_n as int, s3.tmin_d as int, wn, wd));
                // The witness parameter is strictly positive.
                lemma_rat_le_lt_trans(0, 1, s3.tmin_n as int, s3.tmin_d as int, wn, wd);
                lemma_rat_zero_one(wn, wd);
                assert(wn > 0);
                // On each axis the witness is strictly inside the slab.
                if dx != 0 {
                    lemma_rat_le_lt_trans(
                        slab_lo_n(mnx, mxx, ox, dx),
                        slab_den(dx),
                        s3.tmin_n as int,
                        s3.tmin_d as int,
                        wn,
                        wd,
                    );
                    lemma_rat_lt_le_trans(
                        wn,
                        wd,
                        s3.tmax_n as int,
                        s3.tmax_d as int,
                        slab_hi_n(mnx, mxx, ox, dx),
                        slab_den(dx),
                    );
                    lemma_axis_cross(
                        mnx,
                        mxx,
                        ox,
                        dx,
                        slab_lo_n(mnx, mxx, ox, dx),
                        slab_hi_n(mnx, mxx, ox, dx),
                        slab_den(dx),
                        wn,
                        wd,
                    );
                } else {
                    lemma_axis_parallel(mnx, mxx, ox, wn, wd);
                }
                if dy != 0 {
                    lemma_rat_le_lt_trans(
                        slab_lo_n(mny, mxy, oy, dy),
                        slab_den(dy),
                        s3.tmin_n as int,
                        s3.tmin_d as int,
                        wn,
                        wd,
                    );
                    lemma_rat_lt_le_trans(
                        wn,
                        wd,
                        s3.tmax_n as int,
                        s3.tmax_d as int,
                        slab_hi_n(mny, mxy, oy, dy),
                        slab_den(dy),
                    );
                    lemma_axis_cross(
                        mny,
                        mxy,
                        oy,
                        dy,
                        slab_lo_n(mny, mxy, oy, dy),
                        slab_hi_n(mny, mxy, oy, dy),
                        slab_den(dy),
                        wn,
                        wd,
                    );
                } else {
                    lemma_axis_parallel(mny, mxy, oy, wn, wd);
                }
                if dz != 0 {
                    lemma_rat_le_lt_trans(
                        slab_lo_n(mnz, mxz, oz, dz),
                        slab_den(dz),
                        s3.tmin_n as int,
                        s3.tmin_d as int,
                        wn,
                        wd,
                    );
                    lemma_rat_lt_le_trans(
                        wn,
                        wd,
                        s3.tmax_n as int,
                        s3.tmax_d as int,
                        slab_hi_n(mnz, mxz, oz, dz),
                        slab_den(dz),
                    );
                    lemma_axis_cross(
                        mnz,
                        mxz,
                        oz,
                        dz,
                        slab_lo_n(mnz, mxz, oz, dz),
                        slab_hi_n(mnz, mxz, oz, dz),
                        slab_den(dz),
                        wn,
                        wd,
                    );
                } else {
                    lemma_axis_parallel(mnz, mxz, oz, wn, wd);
                }
                assert(strictly_inside_at(*self, *r, wn, wd));
            } else {
                if spec_ray_hits_box(*self, *r) {
                    let (tn, td): (int, int) = choose|tn: int, td: int|
                        td > 0 && tn > 0 && #[trigger] strictly_inside_at(*self, *r, tn, td);
                    // Per axis, what strict containment at the witness
                    // means in terms of entry and exit parameters.
                    if dx != 0 {
                        lemma_axis_cross(
                            mnx,
                            mxx,
                            ox,
                            dx,
                            slab_lo_n(mnx, mxx, ox, dx),
                            slab_hi_n(mnx, mxx, ox, dx),
                            slab_den(dx),
                            tn,
                            td,
                        );
                    } else {
                        lemma_axis_parallel(mnx, mxx, ox, tn, td);
                    }
                    if dy != 0 {
                        lemma_axis_cross(
                            mny,
                            mxy,
                            oy,
                            dy,
                            slab_lo_n(mny, mxy, oy, dy),
                            slab_hi_n(mny, mxy, oy, dy),
                            slab_den(dy),
                            tn,
                            td,
                        );
                    } else {
                        lemma_axis_parallel(mny, mxy, oy, tn, td);
                    }
                    if dz != 0 {
                        lemma_axis_cross(
                            mnz,
                            mxz,
                            oz,
                            dz,
                            slab_lo_n(mnz, mxz, oz, dz),
                            slab_hi_n(mnz, mxz, oz, dz),
                            slab_den(dz),
                            tn,
                            td,
                        );
                    } else {
                        lemma_axis_parallel(mnz, mxz, oz, tn, td);
                    }
                    // Every state on the chain is alive: a dead state
                    // would name a parallel axis whose planes do not
                    // strictly surround the origin, against the above.
                    assert(s3.alive);
                    // So the final interval is empty, yet the witness
                    // lies strictly inside it.
                    lemma_rat_zero_one(tn, td);
                    assert(rat_lt(s3.tmin_n as int, s3.tmin_d as int, tn, td));
                    assert(rat_lt(tn, td, s3.tmax_n as int, s3.tmax_d as int));
                    lemma_rat_lt_trans(
                        s3.tmin_n as int,
                        s3.tmin_d as int,
                        tn,
                        td,
                        s3.tmax_n as int,
                        s3.tmax_d as int,
                    );
                    assert(false);
                }
            }
        }
        hit
    }
}

} // verus!

verus! {

/// `max(0, a)`.
pub open spec fn max0(a: int) -> int {
    if a > 0 {
        a
    } else {
        0
    }
}

/// One projected half-plane condition of the box-triangle test: in the
/// 2-D plane `(u, v)`, the box corner most positive along the flipped
/// edge normal `m * (-ev, eu)` lies on or above the line through the
/// edge's base vertex `(au, av)`.  The box is `[pu, pu+dpu] x [pv, pv+dpv]`.
pub open spec fn spec_edge_cond(
    eu: int,
    ev: int,
    au: int,
    av: int,
    m: int,
    pu: int,
    pv: int,
    dpu: int,
    dpv: int,
) -> bool {
    let nu = -ev * m;
    let nv = eu * m;
    nu * pu + nv * pv + max0(dpu * nu) + max0(dpv * nv) - (nu * au + nv * av) >= 0
}

/// The triangle's bounding box overlaps `b` on every axis.
pub open spec fn spec_tri_box_overlap(b: AABB, t: Triangle) -> bool {
    &&& b.min.x as int <= max3(t.p0.v.x as int, t.p1.v.x as int, t.p2.v.x as int)
    &&& min3(t.p0.v.x as int, t.p1.v.x as int, t.p2.v.x as int) <= b.max.x as int
    &&& b.min.y as int <= max3(t.p0.v.y as int, t.p1.v.y as int, t.p2.v.y as int)
    &&& min3(t.p0.v.y as int, t.p1.v.y as int, t.p2.v.y as int) <= b.max.y as int
    &&& b.min.z as int <= max3(t.p0.v.z as int, t.p1.v.z as int, t.p2.v.z as int)
    &&& min3(t.p0.v.z as int, t.p1.v.z as int, t.p2.v.z as int) <= b.max.z as int
}

/// The box straddles the triangle's plane: of the two box corners
/// extreme along the face normal, one lies on each side (or on the
/// plane itself).
pub open spec fn spec_plane_sep(b: AABB, t: Triangle) -> bool {
    let nx = tri_normal_x(t);
    let ny = tri_normal_y(t);
    let nz = tri_normal_z(t);
    let base = nx * (t.p0.v.x as int) + ny * (t.p0.v.y as int) + nz * (t.p0.v.z as int);
    let cpx = if nx > 0 { b.max.x as int } else { b.min.x as int };
    let cpy = if ny > 0 { b.max.y as int } else { b.min.y as int };
    let cpz = if nz > 0 { b.max.z as int } else { b.min.z as int };
    let cmx = if nx > 0 { b.min.x as int } else { b.max.x as int };
    let cmy = if ny > 0 { b.min.y as int } else { b.max.y as int };
    let cmz = if nz > 0 { b.min.z as int } else { b.max.z as int };
    (nx * cpx + ny * cpy + nz * cpz - base) * (nx * cmx + ny * cmy + nz * cmz - base) <= 0
}

/// The nine projected edge conditions: for each of the three
/// axis-aligned projection planes, the three triangle edges.
pub open spec fn spec_edges(b: AABB, t: Triangle) -> bool {
    let x0 = t.p0.v.x as int;
    let y0 = t.p0.v.y as int;
    let z0 = t.p0.v.z as int;
    let x1 = t.p1.v.x as int;
    let y1 = t.p1.v.y as int;
    let z1 = t.p1.v.z as int;
    let x2 = t.p2.v.x as int;
    let y2 = t.p2.v.y as int;
    let z2 = t.p2.v.z as int;
    let dpx = b.max.x as int - b.min.x as int;
    let dpy = b.max.y as int - b.min.y as int;
    let dpz = b.max.z as int - b.min.z as int;
    let mxy = if tri_normal_z(t) < 0 { -1int } else { 1int };
    let myz = if tri_normal_x(t) < 0 { -1int } else { 1int };
    let mzx = if tri_normal_y(t) < 0 { -1int } else { 1int };
    &&& spec_edge_cond(x1 - x0, y1 - y0, x0, y0, mxy, b.min.x as int, b.min.y as int, dpx, dpy)
    &&& spec_edge_cond(x2 - x1, y2 - y1, x1, y1, mxy, b.min.x as int, b.min.y as int, dpx, dpy)
    &&& spec_edge_cond(x0 - x2, y0 - y2, x2, y2, mxy, b.min.x as int, b.min.y as int, dpx, dpy)
    &&& spec_edge_cond(y1 - y0, z1 - z0, y0, z0, myz, b.min.y as int, b.min.z as int, dpy, dpz)
    &&& spec_edge_cond(y2 - y1, z2 - z1, y1, z1, myz, b.min.y as int, b.min.z as int, dpy, dpz)
    &&& spec_edge_cond(y0 - y2, z0 - z2, y2, z2, myz, b.min.y as int, b.min.z as int, dpy, dpz)
    &&& spec_edge_cond(z1 - z0, x1 - x0, z0, x0, mzx, b.min.z as int, b.min.x as int, dpz, dpx)
    &&& spec_edge_cond(z2 - z1, x2 - x1, z1, x1, mzx, b.min.z as int, b.min.x as int, dpz, dpx)
    &&& spec_edge_cond(z0 - z2, x0 - x2, z2, x2, mzx, b.min.z as int, b.min.x as int, dpz, dpx)
}

/// The whole box-triangle separating-axis test: bounding boxes overlap,
/// the box straddles the triangle's plane, and no projected edge
/// separates them.  Conservative: a triangle meeting the box always
/// passes; a passing triangle may still miss the box.
pub open spec fn spec_box_tri(b: AABB, t: Triangle) -> bool {
    &&& spec_tri_box_overlap(b, t)
    &&& spec_plane_sep(b, t)
    &&& spec_edges(b, t)
}

/// Evaluates one projected half-plane condition exactly.
fn edge_cond_exec(
    eu: i64,
    ev: i64,
    au: i64,
    av: i64,
    m: i64,
    pu: i64,
    pv: i64,
    dpu: i64,
    dpv: i64,
) -> (r: bool)
    requires
        -0x100000 <= eu <= 0x100000,
        -0x100000 <= ev <= 0x100000,
        -0x80000 <= au <= 0x80000,
        -0x80000 <= av <= 0x80000,
        m == 1 || m == -1,
        -0x80000 <= pu <= 0x80000,
        -0x80000 <= pv <= 0x80000,
        -0x100000 <= dpu <= 0x100000,
        -0x100000 <= dpv <= 0x100000,
    ensures
        r == spec_edge_cond(
            eu as int,
            ev as int,
            au as int,
            av as int,
            m as int,
            pu as int,
            pv as int,
            dpu as int,
            dpv as int,
        ),
{
    proof {
        lemma_abs_mul_le(ev as int, m as int, 0x100000, 1);
        lemma_abs_mul_le(eu as int, m as int, 0x100000, 1);
    }
    let nu: i128 = -((ev as i128) * (m as i128));
    let nv: i128 = (eu as i128) * (m as i128);
    proof {
        lemma_abs_mul_le(nu as int, pu as int, 0x100000, 0x80000);
        lemma_abs_mul_le(nv as int, pv as int, 0x100000, 0x80000);
        lemma_abs_mul_le(dpu as int, nu as int, 0x100000, 0x100000);
        lemma_abs_mul_le(dpv as int, nv as int, 0x100000, 0x100000);
        lemma_abs_mul_le(nu as int, au as int, 0x100000, 0x80000);
        lemma_abs_mul_le(nv as int, av as int, 0x100000, 0x80000);
    }
    let tu: i128 = dpu as i128 * nu;
    let tv: i128 = dpv as i128 * nv;
    let mu: i128 = if tu > 0 {
        tu
    } else {
        0
    };
    let mv: i128 = if tv > 0 {
        tv
    } else {
        0
    };
    nu * (pu as i128) + nv * (pv as i128) + mu + mv - (nu * (au as i128) + nv * (av as i128)) >= 0
}

impl AABB {
    /// The box-triangle separating-axis test of the KD-tree build: a
    /// bounding-box reject, then the triangle's plane against the box's
    /// extreme corners, then the nine projected edge half-planes.
    pub fn intersect_triangle(&self, t: &Triangle) -> (r: bool)
        requires
            crate::vec4::vec_in_range(self.min, BOX_MAX as int),
            crate::vec4::vec_in_range(self.max, BOX_MAX as int),
            tri_in_range(*t, COORD_MAX as int),
        ensures
            r == spec_box_tri(*self, *t),
    {
        let tb = t.aabb();
        if !self.intersect_aabb(&tb) {
            return false;
        }
        let e1x: i64 = t.p1.v.x - t.p0.v.x;
        let e1y: i64 = t.p1.v.y - t.p0.v.y;
        let e1z: i64 = t.p1.v.z - t.p0.v.z;
        let e2x: i64 = t.p2.v.x - t.p0.v.x;
        let e2y: i64 = t.p2.v.y - t.p0.v.y;
        let e2z: i64 = t.p2.v.z - t.p0.v.z;
        proof {
            lemma_abs_mul_le(e1y as int, e2z as int, 0x80000, 0x80000);
            lemma_abs_mul_le(e1z as int, e2y as int, 0x80000, 0x80000);
            lemma_abs_mul_le(e1z as int, e2x as int, 0x80000, 0x80000);
            lemma_abs_mul_le(e1x as int, e2z as int, 0x80000, 0x80000);
            lemma_abs_mul_le(e1x as int, e2y as int, 0x80000, 0x80000);
            lemma_abs_mul_le(e1y as int, e2x as int, 0x80000, 0x80000);
        }
        let nx: i128 = (e1y as i128) * (e2z as i128) - (e1z as i128) * (e2y as i128);
        let ny: i128 = (e1z as i128) * (e2x as i128) - (e1x as i128) * (e2z as i128);
        let nz: i128 = (e1x as i128) * (e2y as i128) - (e1y as i128) * (e2x as i128);
        proof {
            assert(nx as int == tri_normal_x(*t) && ny as int == tri_normal_y(*t) && nz as int
                == tri_normal_z(*t));
        }
        // The box corner most positive along the normal, and the one
        // most negative.
        let cpx: i64 = if nx > 0 {
            self.max.x
        } else {
            self.min.x
        };
        let cpy: i64 = if ny > 0 {
            self.max.y
        } else {
            self.min.y
        };
        let cpz: i64 = if nz > 0 {
            self.max.z
        } else {
            self.min.z
        };
        let cmx: i64 = if nx > 0 {
            self.min.x
        } else {
            self.max.x
        };
        let cmy: i64 = if ny > 0 {
            self.min.y
        } else {
            self.max.y
        };
        let cmz: i64 = if nz > 0 {
            self.min.z
        } else {
            self.max.z
        };
        proof {
            lemma_abs_mul_le(nx as int, cpx as int, 0x10000000000, 0x80000);
            lemma_abs_mul_le(ny as int, cpy as int, 0x10000000000, 0x80000);
            lemma_abs_mul_le(nz as int, cpz as int, 0x10000000000, 0x80000);
            lemma_abs_mul_le(nx as int, cmx as int, 0x10000000000, 0x80000);
            lemma_abs_mul_le(ny as int, cmy as int, 0x10000000000, 0x80000);
            lemma_abs_mul_le(nz as int, cmz as int, 0x10000000000, 0x80000);
            lemma_abs_mul_le(nx as int, t.p0.v.x as int, 0x10000000000, 0x80000);
            lemma_abs_mul_le(ny as int, t.p0.v.y as int, 0x10000000000, 0x80000);
            lemma_abs_mul_le(nz as int, t.p0.v.z as int, 0x10000000000, 0x80000);
        }
        let base: i128 = nx * (t.p0.v.x as i128) + ny * (t.p0.v.y as i128) + nz * (
        t.p0.v.z as i128);
        let dplus: i128 = nx * (cpx as i128) + ny * (cpy as i128) + nz * (cpz as i128) - base;
        let dminus: i128 = nx * (cmx as i128) + ny * (cmy as i128) + nz * (cmz as i128) - base;
        proof {
            lemma_abs_mul_le(dplus as int, dminus as int, 0x4000000000000000, 0x4000000000000000);
        }
        if dplus * dminus > 0 {
            return false;
        }
        let dpx: i64 = self.max.x - self.min.x;
        let dpy: i64 = self.max.y - self.min.y;
        let dpz: i64 = self.max.z - self.min.z;
        let mxy: i64 = if nz < 0 {
            -1
        } else {
            1
        };
        let myz: i64 = if nx < 0 {
            -1
        } else {
            1
        };
        let mzx: i64 = if ny < 0 {
            -1
        } else {
            1
        };
        // Projection onto the xy plane.
        if !edge_cond_exec(e1x, e1y, t.p0.v.x, t.p0.v.y, mxy, self.min.x, self.min.y, dpx, dpy) {
            return false;
        }
        if !edge_cond_exec(
            t.p2.v.x - t.p1.v.x,
            t.p2.v.y - t.p1.v.y,
            t.p1.v.x,
            t.p1.v.y,
            mxy,
            self.min.x,
            self.min.y,
            dpx,
            dpy,
        ) {
            return false;
        }
        if !edge_cond_exec(
            t.p0.v.x - t.p2.v.x,
            t.p0.v.y - t.p2.v.y,
            t.p2.v.x,
            t.p2.v.y,
            mxy,
            self.min.x,
            self.min.y,
            dpx,
            dpy,
        ) {
            return false;
        }
        // Projection onto the yz plane.
        if !edge_cond_exec(e1y, e1z, t.p0.v.y, t.p0.v.z, myz, self.min.y, self.min.z, dpy, dpz) {
            return false;
        }
        if !edge_cond_exec(
            t.p2.v.y - t.p1.v.y,
            t.p2.v.z - t.p1.v.z,
            t.p1.v.y,
            t.p1.v.z,
            myz,
            self.min.y,
            self.min.z,
            dpy,
            dpz,
        ) {
            return false;
        }
        if !edge_cond_exec(
            t.p0.v.y - t.p2.v.y,
            t.p0.v.z - t.p2.v.z,
            t.p2.v.y,
            t.p2.v.z,
            myz,
            self.min.y,
            self.min.z,
            dpy,
            dpz,
        ) {
            return false;
        }
        // Projection onto the zx plane.
        if !edge_cond_exec(e1z, e1x, t.p0.v.z, t.p0.v.x, mzx, self.min.z, self.min.x, dpz, dpx) {
            return false;
        }
        if !edge_cond_exec(
            t.p2.v.z - t.p1.v.z,
            t.p2.v.x - t.p1.v.x,
            t.p1.v.z,
            t.p1.v.x,
            mzx,
            self.min.z,
            self.min.x,
            dpz,
            dpx,
        ) {
            return false;
        }
        if !edge_cond_exec(
            t.p0.v.z - t.p2.v.z,
            t.p0.v.x - t.p2.v.x,
            t.p2.v.z,
            t.p2.v.x,
            mzx,
            self.min.z,
            self.min.x,
            dpz,
            dpx,
        ) {
            return false;
        }
        true
    }
}

} // verus!

verus! {

/// Distributing a factor over a three-term sum.
pub proof fn lemma_distrib_sum3(k: int, p: int, q: int, r: int)
    ensures
        k * (p + q + r) == k * p + k * q + k * r,
{
    vstd::arithmetic::mul::lemma_mul_is_distributive_add(k, p + q, r);
    vstd::arithmetic::mul::lemma_mul_is_distributive_add(k, p, q);
}

/// Distributing a factor over a weighted three-term sum, moving the
/// factor inside each product.
pub proof fn lemma_distrib3(k: int, a: int, x: int, b: int, y: int, c: int, z: int)
    ensures
        k * (a * x + b * y + c * z) == a * (k * x) + b * (k * y) + c * (k * z),
{
    lemma_distrib_sum3(k, a * x, b * y, c * z);
    vstd::arithmetic::mul::lemma_mul_is_associative(k, a, x);
    vstd::arithmetic::mul::lemma_mul_is_commutative(k, a);
    vstd::arithmetic::mul::lemma_mul_is_associative(a, k, x);
    vstd::arithmetic::mul::lemma_mul_is_associative(k, b, y);
    vstd::arithmetic::mul::lemma_mul_is_commutative(k, b);
    vstd::arithmetic::mul::lemma_mul_is_associative(b, k, y);
    vstd::arithmetic::mul::lemma_mul_is_associative(k, c, z);
    vstd::arithmetic::mul::lemma_mul_is_commutative(k, c);
    vstd::arithmetic::mul::lemma_mul_is_associative(c, k, z);
}

/// A convex combination lies between the least and greatest of the
/// combined values.
proof fn lemma_wavg(a: int, bw: int, c: int, x0: int, x1: int, x2: int, mn: int, mx: int)
    by (nonlinear_arith)
    requires
        a >= 0,
        bw >= 0,
        c >= 0,
        mn <= x0 && mn <= x1 && mn <= x2,
        x0 <= mx && x1 <= mx && x2 <= mx,
    ensures
        (a + bw + c) * mn <= a * x0 + bw * x1 + c * x2 <= (a + bw + c) * mx,
{
}

/// Cancelling a positive factor from both sides of an inequality.
proof fn lemma_cancel_le(u: int, v: int, s: int)
    by (nonlinear_arith)
    requires
        s > 0,
        u * s <= v * s,
    ensures
        u <= v,
{
}

/// Rearranged products of three factors are equal.
proof fn lemma_mul3_comm(a: int, b: int, c: int)
    ensures
        (a * b) * c == (a * c) * b,
        (a * b) * c == (b * c) * a,
{
    vstd::arithmetic::mul::lemma_mul_is_associative(a, b, c);
    vstd::arithmetic::mul::lemma_mul_is_commutative(b, c);
    vstd::arithmetic::mul::lemma_mul_is_associative(a, c, b);
    vstd::arithmetic::mul::lemma_mul_is_commutative(a, b * c);
    vstd::arithmetic::mul::lemma_mul_is_commutative(a, c * b);
}

/// The cross product of two vectors is orthogonal to both.
proof fn lemma_cross_orthogonal(ax: int, ay: int, az: int, bx: int, by: int, bz: int)
    ensures
        (ay * bz - az * by) * ax + (az * bx - ax * bz) * ay + (ax * by - ay * bx) * az == 0,
        (ay * bz - az * by) * bx + (az * bx - ax * bz) * by + (ax * by - ay * bx) * bz == 0,
{
    lemma_diff_mul(ay * bz, az * by, ax);
    lemma_diff_mul(az * bx, ax * bz, ay);
    lemma_diff_mul(ax * by, ay * bx, az);
    lemma_diff_mul(ay * bz, az * by, bx);
    lemma_diff_mul(az * bx, ax * bz, by);
    lemma_diff_mul(ax * by, ay * bx, bz);
    // Each expanded monomial cancels against its mirror.
    lemma_mul3_comm(ay, bz, ax);
    lemma_mul3_comm(az, by, ax);
    lemma_mul3_comm(az, bx, ay);
    lemma_mul3_comm(ax, bz, ay);
    lemma_mul3_comm(ax, by, az);
    lemma_mul3_comm(ay, bx, az);
    lemma_mul3_comm(ay, bz, bx);
    lemma_mul3_comm(az, by, bx);
    lemma_mul3_comm(az, bx, by);
    lemma_mul3_comm(ax, bz, by);
    lemma_mul3_comm(ax, by, bz);
    lemma_mul3_comm(ay, bx, bz);
}

/// A weight vector orthogonal to both edges gives every point of the
/// triangle the same weighted value as the base vertex.
proof fn lemma_plane_value(
    nx: int,
    ny: int,
    nz: int,
    x0: int,
    y0: int,
    z0: int,
    x1: int,
    y1: int,
    z1: int,
    x2: int,
    y2: int,
    z2: int,
    a: int,
    bw: int,
    c: int,
    qd: int,
)
    requires
        nx * (x1 - x0) + ny * (y1 - y0) + nz * (z1 - z0) == 0,
        nx * (x2 - x0) + ny * (y2 - y0) + nz * (z2 - z0) == 0,
        qd == a + bw + c,
    ensures
        nx * (a * x0 + bw * x1 + c * x2) + ny * (a * y0 + bw * y1 + c * y2) + nz * (a * z0 + bw
            * z1 + c * z2) == qd * (nx * x0 + ny * y0 + nz * z0),
{
    let s1 = nx * x0 + ny * y0 + nz * z0;
    let s2 = nx * x1 + ny * y1 + nz * z1;
    let s3 = nx * x2 + ny * y2 + nz * z2;
    assert(s2 == s1) by (nonlinear_arith)
        requires
            nx * (x1 - x0) + ny * (y1 - y0) + nz * (z1 - z0) == 0,
            s1 == nx * x0 + ny * y0 + nz * z0,
            s2 == nx * x1 + ny * y1 + nz * z1,
    ;
    assert(s3 == s1) by (nonlinear_arith)
        requires
            nx * (x2 - x0) + ny * (y2 - y0) + nz * (z2 - z0) == 0,
            s1 == nx * x0 + ny * y0 + nz * z0,
            s3 == nx * x2 + ny * y2 + nz * z2,
    ;
    lemma_distrib3(nx, a, x0, bw, x1, c, x2);
    lemma_distrib3(ny, a, y0, bw, y1, c, y2);
    lemma_distrib3(nz, a, z0, bw, z1, c, z2);
    lemma_distrib_sum3(a, nx * x0, ny * y0, nz * z0);
    lemma_distrib_sum3(bw, nx * x1, ny * y1, nz * z1);
    lemma_distrib_sum3(c, nx * x2, ny * y2, nz * z2);
    assert(a * s1 + bw * s2 + c * s3 == qd * s1) by (nonlinear_arith)
        requires
            s2 == s1,
            s3 == s1,
            qd == a + bw + c,
    ;
}

/// Against a point of the box, the corner picked by the sign of the
/// weight is extreme: most positive for the `hi` pick, most negative
/// for the `lo` pick.
proof fn lemma_corner_axis(w: int, lo: int, hi: int, q: int, s: int)
    by (nonlinear_arith)
    requires
        s > 0,
        lo * s <= q <= hi * s,
    ensures
        w > 0 ==> w * q <= (w * hi) * s && (w * lo) * s <= w * q,
        w <= 0 ==> w * q <= (w * lo) * s && (w * hi) * s <= w * q,
{
}

/// A product of a nonnegative and a nonpositive value is nonpositive.
proof fn lemma_prod_sign(x: int, y: int)
    by (nonlinear_arith)
    requires
        x >= 0,
        y <= 0,
    ensures
        x * y <= 0,
{
}

/// Twice the signed area of a triangle is invariant under cyclic
/// rotation of its vertices.
proof fn lemma_area2_cyclic(x0: int, y0: int, x1: int, y1: int, x2: int, y2: int)
    by (nonlinear_arith)
    ensures
        (x1 - x0) * (y2 - y0) - (y1 - y0) * (x2 - x0) == (x2 - x1) * (y0 - y1) - (y2 - y1) * (x0
            - x1),
        (x1 - x0) * (y2 - y0) - (y1 - y0) * (x2 - x0) == (x0 - x2) * (y1 - y2) - (y0 - y2) * (x1
            - x2),
{
}

/// A point of the triangle inside the box satisfies one projected edge
/// condition: in the projection plane, the flipped edge normal puts the
/// third vertex (and hence the point) on its nonnegative side, and the
/// picked box corner is at least as positive as the point.
proof fn lemma_edge_complete(
    bu: int,
    bv: int,
    cu: int,
    cv: int,
    du: int,
    dv: int,
    m: int,
    pu: int,
    pv: int,
    dpu: int,
    dpv: int,
    qu: int,
    qv: int,
    wa: int,
    wb: int,
    wc: int,
    qd: int,
)
    requires
        m == 1 || m == -1,
        m * ((cu - bu) * (dv - bv) - (cv - bv) * (du - bu)) >= 0,
        wa >= 0,
        wb >= 0,
        wc >= 0,
        qd == wa + wb + wc,
        qd > 0,
        qu == wa * bu + wb * cu + wc * du,
        qv == wa * bv + wb * cv + wc * dv,
        pu * qd <= qu <= (pu + dpu) * qd,
        pv * qd <= qv <= (pv + dpv) * qd,
        dpu >= 0,
        dpv >= 0,
    ensures
        spec_edge_cond(cu - bu, cv - bv, bu, bv, m, pu, pv, dpu, dpv),
{
    let nu = -(cv - bv) * m;
    let nv = (cu - bu) * m;
    // The point is on the nonnegative side of the edge line: its value
    // under the edge normal decomposes over the three vertices, the
    // edge tip contributes nothing, and the third vertex contributes
    // the flipped projected area.
    let tb = nu * bu + nv * bv;
    let tc = nu * cu + nv * cv;
    let td = nu * du + nv * dv;
    lemma_distrib3(nu, wa, bu, wb, cu, wc, du);
    lemma_distrib3(nv, wa, bv, wb, cv, wc, dv);
    vstd::arithmetic::mul::lemma_mul_is_distributive_add(wa, nu * bu, nv * bv);
    vstd::arithmetic::mul::lemma_mul_is_distributive_add(wb, nu * cu, nv * cv);
    vstd::arithmetic::mul::lemma_mul_is_distributive_add(wc, nu * du, nv * dv);
    assert(nu * qu + nv * qv == wa * tb + wb * tc + wc * td);
    assert(tc == tb) by (nonlinear_arith)
        requires
            nu == -(cv - bv) * m,
            nv == (cu - bu) * m,
            tb == nu * bu + nv * bv,
            tc == nu * cu + nv * cv,
    ;
    assert(td - tb == m * ((cu - bu) * (dv - bv) - (cv - bv) * (du - bu))) by (nonlinear_arith)
        requires
            nu == -(cv - bv) * m,
            nv == (cu - bu) * m,
            m == 1 || m == -1,
            tb == nu * bu + nv * bv,
            td == nu * du + nv * dv,
    ;
    assert(wa * tb + wb * tc + wc * td - qd * tb == wc * (td - tb)) by (nonlinear_arith)
        requires
            qd == wa + wb + wc,
            tc == tb,
    ;
    assert(wc * (td - tb) >= 0) by (nonlinear_arith)
        requires
            wc >= 0,
            td - tb >= 0,
    ;
    assert(nu * qu + nv * qv - qd * (nu * bu + nv * bv) >= 0);
    // The picked corner is at least as positive as the point, per axis.
    let mu = max0(dpu * nu);
    let mv = max0(dpv * nv);
    assert(qd * (nu * pu + mu) >= nu * qu) by (nonlinear_arith)
        requires
            qd > 0,
            dpu >= 0,
            pu * qd <= qu <= (pu + dpu) * qd,
            mu == max0(dpu * nu),
            mu == (if dpu * nu > 0 { dpu * nu } else { 0 }),
    ;
    assert(qd * (nv * pv + mv) >= nv * qv) by (nonlinear_arith)
        requires
            qd > 0,
            dpv >= 0,
            pv * qd <= qv <= (pv + dpv) * qd,
            mv == (if dpv * nv > 0 { dpv * nv } else { 0 }),
    ;
    // Combine and cancel the positive scale.
    assert(qd * (nu * pu + nv * pv + mu + mv - (nu * bu + nv * bv)) >= 0) by (nonlinear_arith)
        requires
            qd * (nu * pu + mu) >= nu * qu,
            qd * (nv * pv + mv) >= nv * qv,
            nu * qu + nv * qv - qd * (nu * bu + nv * bv) >= 0,
    ;
    assert(nu * pu + nv * pv + mu + mv - (nu * bu + nv * bv) >= 0) by (nonlinear_arith)
        requires
            qd > 0,
            qd * (nu * pu + nv * pv + mu + mv - (nu * bu + nv * bv)) >= 0,
    ;
}

/// The three projected edge conditions of one projection plane hold for
/// a triangle with a point inside the box; `nw` is the face normal's
/// component along the projection axis and fixes the flip sign `m`.
proof fn lemma_edges_plane(
    u0: int,
    v0: int,
    u1: int,
    v1: int,
    u2: int,
    v2: int,
    nw: int,
    m: int,
    pu: int,
    pv: int,
    dpu: int,
    dpv: int,
    qu: int,
    qv: int,
    a: int,
    bw: int,
    c: int,
    qd: int,
)
    requires
        nw == (u1 - u0) * (v2 - v0) - (v1 - v0) * (u2 - u0),
        m == (if nw < 0 { -1int } else { 1int }),
        a >= 0,
        bw >= 0,
        c >= 0,
        qd == a + bw + c,
        qd > 0,
        qu == a * u0 + bw * u1 + c * u2,
        qv == a * v0 + bw * v1 + c * v2,
        pu * qd <= qu <= (pu + dpu) * qd,
        pv * qd <= qv <= (pv + dpv) * qd,
        dpu >= 0,
        dpv >= 0,
    ensures
        spec_edge_cond(u1 - u0, v1 - v0, u0, v0, m, pu, pv, dpu, dpv),
        spec_edge_cond(u2 - u1, v2 - v1, u1, v1, m, pu, pv, dpu, dpv),
        spec_edge_cond(u0 - u2, v0 - v2, u2, v2, m, pu, pv, dpu, dpv),
    decreases 0int,
{
    lemma_area2_cyclic(u0, v0, u1, v1, u2, v2);
    assert(m * nw >= 0) by (nonlinear_arith)
        requires
            m == (if nw < 0 { -1int } else { 1int }),
    ;
    lemma_edge_complete(
        u0,
        v0,
        u1,
        v1,
        u2,
        v2,
        m,
        pu,
        pv,
        dpu,
        dpv,
        qu,
        qv,
        a,
        bw,
        c,
        qd,
    );
    lemma_edge_complete(
        u1,
        v1,
        u2,
        v2,
        u0,
        v0,
        m,
        pu,
        pv,
        dpu,
        dpv,
        qu,
        qv,
        bw,
        c,
        a,
        qd,
    );
    lemma_edge_complete(
        u2,
        v2,
        u0,
        v0,
        u1,
        v1,
        m,
        pu,
        pv,
        dpu,
        dpv,
        qu,
        qv,
        c,
        a,
        bw,
        qd,
    );
}

/// No separating axis defeats a triangle with a point inside the box:
/// whenever the convex combination `q / qd` of the triangle's vertices
/// lies within the box, the separating-axis test accepts.
pub proof fn lemma_box_tri_complete(
    b: AABB,
    t: Triangle,
    a: int,
    bw: int,
    c: int,
    qx: int,
    qy: int,
    qz: int,
    qd: int,
)
    requires
        tri_in_range(t, COORD_MAX as int),
        a >= 0,
        bw >= 0,
        c >= 0,
        qd == a + bw + c,
        qd > 0,
        qx == a * (t.p0.v.x as int) + bw * (t.p1.v.x as int) + c * (t.p2.v.x as int),
        qy == a * (t.p0.v.y as int) + bw * (t.p1.v.y as int) + c * (t.p2.v.y as int),
        qz == a * (t.p0.v.z as int) + bw * (t.p1.v.z as int) + c * (t.p2.v.z as int),
        in_box_closed(b, qx, qy, qz, qd),
    ensures
        spec_box_tri(b, t),
{
    let x0 = t.p0.v.x as int;
    let y0 = t.p0.v.y as int;
    let z0 = t.p0.v.z as int;
    let x1 = t.p1.v.x as int;
    let y1 = t.p1.v.y as int;
    let z1 = t.p1.v.z as int;
    let x2 = t.p2.v.x as int;
    let y2 = t.p2.v.y as int;
    let z2 = t.p2.v.z as int;
    // Bounding boxes overlap at the point itself.
    lemma_wavg(a, bw, c, x0, x1, x2, min3(x0, x1, x2), max3(x0, x1, x2));
    lemma_wavg(a, bw, c, y0, y1, y2, min3(y0, y1, y2), max3(y0, y1, y2));
    lemma_wavg(a, bw, c, z0, z1, z2, min3(z0, z1, z2), max3(z0, z1, z2));
    vstd::arithmetic::mul::lemma_mul_is_commutative(qd, max3(x0, x1, x2));
    vstd::arithmetic::mul::lemma_mul_is_commutative(qd, min3(x0, x1, x2));
    vstd::arithmetic::mul::lemma_mul_is_commutative(qd, max3(y0, y1, y2));
    vstd::arithmetic::mul::lemma_mul_is_commutative(qd, min3(y0, y1, y2));
    vstd::arithmetic::mul::lemma_mul_is_commutative(qd, max3(z0, z1, z2));
    vstd::arithmetic::mul::lemma_mul_is_commutative(qd, min3(z0, z1, z2));
    lemma_cancel_le(b.min.x as int, max3(x0, x1, x2), qd);
    lemma_cancel_le(min3(x0, x1, x2), b.max.x as int, qd);
    lemma_cancel_le(b.min.y as int, max3(y0, y1, y2), qd);
    lemma_cancel_le(min3(y0, y1, y2), b.max.y as int, qd);
    lemma_cancel_le(b.min.z as int, max3(z0, z1, z2), qd);
    lemma_cancel_le(min3(z0, z1, z2), b.max.z as int, qd);
    assert(spec_tri_box_overlap(b, t));
    // The box straddles the triangle's plane.
    let nx = tri_normal_x(t);
    let ny = tri_normal_y(t);
    let nz = tri_normal_z(t);
    lemma_cross_orthogonal(x1 - x0, y1 - y0, z1 - z0, x2 - x0, y2 - y0, z2 - z0);
    lemma_plane_value(nx, ny, nz, x0, y0, z0, x1, y1, z1, x2, y2, z2, a, bw, c, qd);
    lemma_corner_axis(nx, b.min.x as int, b.max.x as int, qx, qd);
    lemma_corner_axis(ny, b.min.y as int, b.max.y as int, qy, qd);
    lemma_corner_axis(nz, b.min.z as int, b.max.z as int, qz, qd);
    let cpx = if nx > 0 {
        b.max.x as int
    } else {
        b.min.x as int
    };
    let cpy = if ny > 0 {
        b.max.y as int
    } else {
        b.min.y as int
    };
    let cpz = if nz > 0 {
        b.max.z as int
    } else {
        b.min.z as int
    };
    let cmx = if nx > 0 {
        b.min.x as int
    } else {
        b.max.x as int
    };
    let cmy = if ny > 0 {
        b.min.y as int
    } else {
        b.max.y as int
    };
    let cmz = if nz > 0 {
        b.min.z as int
    } else {
        b.max.z as int
    };
    let base = nx * x0 + ny * y0 + nz * z0;
    assert((nx * cpx + ny * cpy + nz * cpz) * qd >= qd * base) by (nonlinear_arith)
        requires
            nx * qx + ny * qy + nz * qz == qd * base,
            nx * qx <= (nx * cpx) * qd,
            ny * qy <= (ny * cpy) * qd,
            nz * qz <= (nz * cpz) * qd,
    ;
    assert((nx * cmx + ny * cmy + nz * cmz) * qd <= qd * base) by (nonlinear_arith)
        requires
            nx * qx + ny * qy + nz * qz == qd * base,
            nx * qx >= (nx * cmx) * qd,
            ny * qy >= (ny * cmy) * qd,
            nz * qz >= (nz * cmz) * qd,
    ;
    assert(base * qd == qd * base) by (nonlinear_arith);
    lemma_cancel_le(base, nx * cpx + ny * cpy + nz * cpz, qd);
    lemma_cancel_le(nx * cmx + ny * cmy + nz * cmz, base, qd);
    lemma_prod_sign(
        nx * cpx + ny * cpy + nz * cpz - base,
        nx * cmx + ny * cmy + nz * cmz - base,
    );
    assert(spec_plane_sep(b, t));
    // The box extents are nonnegative where the point lies inside.
    lemma_cancel_le(b.min.x as int, b.max.x as int, qd);
    lemma_cancel_le(b.min.y as int, b.max.y as int, qd);
    lemma_cancel_le(b.min.z as int, b.max.z as int, qd);
    let dpx = b.max.x as int - b.min.x as int;
    let dpy = b.max.y as int - b.min.y as int;
    let dpz = b.max.z as int - b.min.z as int;
    // The nine projected edge conditions, one projection plane at a
    // time; the face normal component of each plane is the projected
    // signed area.
    let mxy = if nz < 0 {
        -1int
    } else {
        1int
    };
    let myz = if nx < 0 {
        -1int
    } else {
        1int
    };
    let mzx = if ny < 0 {
        -1int
    } else {
        1int
    };
    lemma_edges_plane(
        x0,
        y0,
        x1,
        y1,
        x2,
        y2,
        nz,
        mxy,
        b.min.x as int,
        b.min.y as int,
        dpx,
        dpy,
        qx,
        qy,
        a,
        bw,
        c,
        qd,
    );
    lemma_edges_plane(
        y0,
        z0,
        y1,
        z1,
        y2,
        z2,
        nx,
        myz,
        b.min.y as int,
        b.min.z as int,
        dpy,
        dpz,
        qy,
        qz,
        a,
        bw,
        c,
        qd,
    );
    lemma_edges_plane(
        z0,
        x0,
        z1,
        x1,
        z2,
        x2,
        ny,
        mzx,
        b.min.z as int,
        b.min.x as int,
        dpz,
        dpx,
        qz,
        qx,
        a,
        bw,
        c,
        qd,
    );
    assert(spec_edges(b, t));
}

/// A triangle with a vertex inside the box passes the test; in
/// particular every triangle fully enclosed in the box does.
pub proof fn lemma_box_tri_enclosed(b: AABB, t: Triangle)
    requires
        tri_in_range(t, COORD_MAX as int),
        spec_contains(b, t.p0.v),
    ensures
        spec_box_tri(b, t),
{
    let x0 = t.p0.v.x as int;
    let y0 = t.p0.v.y as int;
    let z0 = t.p0.v.z as int;
    assert(1 * x0 == x0 && 1 * y0 == y0 && 1 * z0 == z0 && 0 * (t.p1.v.x as int) == 0 && 0 * (
    t.p1.v.y as int) == 0 && 0 * (t.p1.v.z as int) == 0 && 0 * (t.p2.v.x as int) == 0 && 0 * (
    t.p2.v.y as int) == 0 && 0 * (t.p2.v.z as int) == 0) by (nonlinear_arith);
    assert((b.min.x as int) * 1 == b.min.x as int && (b.max.x as int) * 1 == b.max.x as int && (
    b.min.y as int) * 1 == b.min.y as int && (b.max.y as int) * 1 == b.max.y as int && (
    b.min.z as int) * 1 == b.min.z as int && (b.max.z as int) * 1 == b.max.z as int)
        by (nonlinear_arith);
    lemma_box_tri_complete(b, t, 1, 0, 0, x0, y0, z0, 1);
}

/// A triangle whose bounding box does not meet the box fails the test.
pub proof fn lemma_box_tri_disjoint(b: AABB, t: Triangle)
    requires
        !spec_tri_box_overlap(b, t),
    ensures
        !spec_box_tri(b, t),
{
}

} // verus!
