//! The loaded scene: vertices, the spatial index over the triangles,
//! and the world bounding volume.

use vstd::prelude::*;

use crate::aabb::{spec_contains, AABB};
use crate::kdtree::{box_bound, kd_built, kd_config_wf, kd_covers, kd_height, kd_wf, spec_ray_leaf,
    KDNode, KdConfig};
use crate::triangle::{tri_ok, Triangle};
use crate::vec4::{vec_in_range, NVec4};
use crate::ORIGIN_MAX;
use crate::COORD_MAX;

verus! {

/// A scene object: its vertices (kept for inspection), the KD-tree over
/// its triangles, and the world bounding volume the tree was built in.
pub struct Obj {
    pub vertices: Vec<NVec4>,
    pub head: KDNode,
    pub aabb: AABB,
}

/// The index is structurally sound.
pub open spec fn obj_wf(o: Obj) -> bool {
    kd_wf(o.head)
}

impl Obj {
    /// Assembles a scene from already-materialized collections: the
    /// spatial index is built over `triangles` inside `aabb`.
    pub fn new(vertices: Vec<NVec4>, triangles: &Vec<Triangle>, aabb: &AABB, cfg: &KdConfig) -> (o:
        Obj)
        requires
            kd_config_wf(*cfg),
            forall|i: int| 0 <= i < triangles@.len() ==> tri_ok(#[trigger] triangles@[i]),
            vec_in_range(aabb.min, box_bound(*cfg, 0)),
            vec_in_range(aabb.max, box_bound(*cfg, 0)),
        ensures
            obj_wf(o),
            o.aabb == *aabb,
            o.head.aabb == *aabb,
            o.vertices == vertices,
            kd_built(o.head, triangles@, 0, *aabb, *cfg),
            kd_height(o.head) <= cfg.max_depth,
            forall|t: Triangle| #[trigger] triangles@.contains(t) ==> kd_covers(o.head, t),
    {
        let head: KDNode = KDNode::new(triangles, 0, aabb, cfg);
        Obj { vertices, head, aabb: *aabb }
    }
}

} // verus!

verus! {

/// A weighted average of three values stays between bounds that hold
/// for all three, after scaling by a second positive factor.
proof fn lemma_combo_in_interval(
    lo: int,
    hi: int,
    x0: int,
    x1: int,
    x2: int,
    a: int,
    bw: int,
    c: int,
    s: int,
    td: int,
)
    by (nonlinear_arith)
    requires
        a >= 0,
        bw >= 0,
        c >= 0,
        s == a + bw + c,
        s > 0,
        td > 0,
        lo <= x0 <= hi,
        lo <= x1 <= hi,
        lo <= x2 <= hi,
    ensures
        lo * (s * td) <= td * (a * x0 + bw * x1 + c * x2) <= hi * (s * td),
{
}

/// Traversal completeness at the scene level: a triangle of the build
/// input whose vertices lie in the scene volume, met by the ray at a
/// strictly positive parameter, is among the candidates the index
/// returns for that ray.  The meeting point is a barycentric
/// combination of the vertices (weights `a, bw, c` summing to `s`)
/// that equals the ray point at `tn / td`, coordinates scaled by
/// `s * td`.
pub proof fn lemma_scene_traversal_complete(
    o: Obj,
    triangles: Seq<Triangle>,
    r: crate::tracer::Ray,
    t: Triangle,
    a: int,
    bw: int,
    c: int,
    s: int,
    tn: int,
    td: int,
)
    requires
        forall|tt: Triangle| #[trigger] triangles.contains(tt) ==> kd_covers(o.head, tt),
        triangles.contains(t),
        tri_ok(t),
        spec_contains(o.head.aabb, t.p0.v),
        spec_contains(o.head.aabb, t.p1.v),
        spec_contains(o.head.aabb, t.p2.v),
        a >= 0,
        bw >= 0,
        c >= 0,
        a + bw + c == s,
        s > 0,
        tn > 0,
        td > 0,
        s * ((r.origin.x as int) * td + (r.dir.x as int) * tn) == td * (a * (t.p0.v.x as int) + bw
            * (t.p1.v.x as int) + c * (t.p2.v.x as int)),
        s * ((r.origin.y as int) * td + (r.dir.y as int) * tn) == td * (a * (t.p0.v.y as int) + bw
            * (t.p1.v.y as int) + c * (t.p2.v.y as int)),
        s * ((r.origin.z as int) * td + (r.dir.z as int) * tn) == td * (a * (t.p0.v.z as int) + bw
            * (t.p1.v.z as int) + c * (t.p2.v.z as int)),
    ensures
        spec_ray_leaf(o.head, r).contains(t),
{
    let b = o.head.aabb;
    lemma_combo_in_interval(
        b.min.x as int,
        b.max.x as int,
        t.p0.v.x as int,
        t.p1.v.x as int,
        t.p2.v.x as int,
        a,
        bw,
        c,
        s,
        td,
    );
    lemma_combo_in_interval(
        b.min.y as int,
        b.max.y as int,
        t.p0.v.y as int,
        t.p1.v.y as int,
        t.p2.v.y as int,
        a,
        bw,
        c,
        s,
        td,
    );
    lemma_combo_in_interval(
        b.min.z as int,
        b.max.z as int,
        t.p0.v.z as int,
        t.p1.v.z as int,
        t.p2.v.z as int,
        a,
        bw,
        c,
        s,
        td,
    );
    crate::kdtree::lemma_ray_leaf_complete(o.head, r, t, a, bw, c, s, tn, td);
}

} // verus!

verus! {

/// Traversal completeness against the exact hit test itself: a build
///-input triangle whose vertices lie in the scene volume and that
/// `intersects` accepts for the ray is among the candidates the index
/// returns for that ray.  The barycentric witness of the meeting point
/// comes from Cramer's rule for the Moller-Trumbore quotients.
pub proof fn lemma_scene_traversal_complete_hit(
    o: Obj,
    triangles: Seq<Triangle>,
    r: crate::tracer::Ray,
    t: Triangle,
)
    requires
        forall|tt: Triangle| #[trigger] triangles.contains(tt) ==> kd_covers(o.head, tt),
        triangles.contains(t),
        tri_ok(t),
        spec_contains(o.head.aabb, t.p0.v),
        spec_contains(o.head.aabb, t.p1.v),
        spec_contains(o.head.aabb, t.p2.v),
        vec_in_range(r.origin, ORIGIN_MAX as int),
        crate::tracer::spec_intersects(r, t) is Some,
    ensures
        spec_ray_leaf(o.head, r).contains(t),
{
    crate::tracer::lemma_mt_point_barycentric(r, t);
    crate::tracer::lemma_mt_ad_pos(r, t);
    let ad = crate::tracer::mt_ad(r, t);
    let un = crate::tracer::mt_un(r, t);
    let vn = crate::tracer::mt_vn(r, t);
    let tn = crate::tracer::mt_tn(r, t);
    lemma_scene_traversal_complete(o, triangles, r, t, ad - un - vn, un, vn, ad, tn, ad);
}

} // verus!
