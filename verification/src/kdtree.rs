//! The KD-tree spatial index: recursive build over a triangle list and
//! a bounding volume, and ray traversal returning the candidate
//! triangles a ray must test exactly.

use vstd::prelude::*;

use vstd::multiset::Multiset;

use crate::aabb::{spec_box_tri, spec_ray_hits_box, AABB};
use crate::tracer::Ray;
use crate::triangle::{spec_midpoint, tri_in_range, tri_ok, Triangle};
use crate::vec4::{vec_in_range, Vec4};
use crate::{BOX_MAX, COORD_MAX, DIR_MAX, ORIGIN_MAX};

verus! {

/// Build-time configuration: the fixed depth cutoff and the epsilon
/// margin (in coordinate units) by which child volumes are expanded.
#[derive(Clone, Copy)]
pub struct KdConfig {
    pub max_depth: usize,
    pub eps: i64,
}

/// The margin is at least one coordinate unit and the total expansion
/// over all levels keeps every box within `BOX_MAX`.
pub open spec fn kd_config_wf(c: KdConfig) -> bool {
    &&& 1 <= c.eps <= 1024
    &&& c.max_depth <= 32
    &&& (c.max_depth + 1) * (c.eps as int) <= 0x20000
}

/// A KD-tree node: a bounding volume, and either two children (the
/// `less` and `greater-or-equal` partitions) or a leaf triangle list.
pub struct KDNode {
    pub aabb: AABB,
    pub lt: Option<Box<KDNode>>,
    pub gt: Option<Box<KDNode>>,
    pub triangles: Option<Vec<Triangle>>,
}

/// The point `q / qd` lies within the box on every axis (closed).
pub open spec fn in_box_closed(b: AABB, qx: int, qy: int, qz: int, qd: int) -> bool {
    &&& (b.min.x as int) * qd <= qx <= (b.max.x as int) * qd
    &&& (b.min.y as int) * qd <= qy <= (b.max.y as int) * qd
    &&& (b.min.z as int) * qd <= qz <= (b.max.z as int) * qd
}

/// The point `q / qd` lies strictly inside the box on every axis.
pub open spec fn in_box_strict(b: AABB, qx: int, qy: int, qz: int, qd: int) -> bool {
    &&& (b.min.x as int) * qd < qx < (b.max.x as int) * qd
    &&& (b.min.y as int) * qd < qy < (b.max.y as int) * qd
    &&& (b.min.z as int) * qd < qz < (b.max.z as int) * qd
}

/// The two child volumes arise from the parent by splitting one axis at
/// `med` and expanding every side by `eps >= 1`: the `less` child keeps
/// the parent's minima, the `greater-or-equal` child the maxima.
pub open spec fn kd_split_shape(p: AABB, l: AABB, g: AABB, axis: int, med: int, eps: int) -> bool {
    &&& eps >= 1
    &&& 0 <= axis < 3
    &&& l.min.x as int == p.min.x as int - eps
    &&& l.min.y as int == p.min.y as int - eps
    &&& l.min.z as int == p.min.z as int - eps
    &&& l.max.x as int == (if axis == 0 { med } else { p.max.x as int }) + eps
    &&& l.max.y as int == (if axis == 1 { med } else { p.max.y as int }) + eps
    &&& l.max.z as int == (if axis == 2 { med } else { p.max.z as int }) + eps
    &&& g.min.x as int == (if axis == 0 { med } else { p.min.x as int }) - eps
    &&& g.min.y as int == (if axis == 1 { med } else { p.min.y as int }) - eps
    &&& g.min.z as int == (if axis == 2 { med } else { p.min.z as int }) - eps
    &&& g.max.x as int == p.max.x as int + eps
    &&& g.max.y as int == p.max.y as int + eps
    &&& g.max.z as int == p.max.z as int + eps
}

/// Some split of the parent volume produced the two child volumes.
pub open spec fn kd_split_ok(p: AABB, l: AABB, g: AABB) -> bool {
    exists|axis: int, med: int, eps: int| #[trigger] kd_split_shape(p, l, g, axis, med, eps)
}

/// The midpoint coordinate of a triangle on the given axis: the key
/// the build sorts to find its split value.
pub open spec fn mid_key(t: Triangle, axis: int) -> i64 {
    if axis == 0 {
        spec_midpoint(t).x
    } else if axis == 1 {
        spec_midpoint(t).y
    } else {
        spec_midpoint(t).z
    }
}

/// The midpoint keys of a triangle list on the given axis.
pub open spec fn mid_keys(tris: Seq<Triangle>, axis: int) -> Seq<i64> {
    tris.map(|i: int, t: Triangle| mid_key(t, axis))
}

/// The `less` child volume: the parent with the split axis's maximum
/// replaced by the median, then expanded by `eps` on every side.
pub open spec fn kd_child_lt(p: AABB, axis: int, med: int, eps: int) -> AABB {
    AABB {
        min: Vec4 {
            x: (p.min.x - eps) as i64,
            y: (p.min.y - eps) as i64,
            z: (p.min.z - eps) as i64,
            w: p.min.w,
        },
        max: Vec4 {
            x: ((if axis == 0 {
                med
            } else {
                p.max.x as int
            }) + eps) as i64,
            y: ((if axis == 1 {
                med
            } else {
                p.max.y as int
            }) + eps) as i64,
            z: ((if axis == 2 {
                med
            } else {
                p.max.z as int
            }) + eps) as i64,
            w: p.max.w,
        },
    }
}

/// The `greater-or-equal` child volume: the parent with the split
/// axis's minimum replaced by the median, then expanded by `eps` on
/// every side.
pub open spec fn kd_child_gt(p: AABB, axis: int, med: int, eps: int) -> AABB {
    AABB {
        min: Vec4 {
            x: ((if axis == 0 {
                med
            } else {
                p.min.x as int
            }) - eps) as i64,
            y: ((if axis == 1 {
                med
            } else {
                p.min.y as int
            }) - eps) as i64,
            z: ((if axis == 2 {
                med
            } else {
                p.min.z as int
            }) - eps) as i64,
            w: p.min.w,
        },
        max: Vec4 {
            x: (p.max.x + eps) as i64,
            y: (p.max.y + eps) as i64,
            z: (p.max.z + eps) as i64,
            w: p.max.w,
        },
    }
}

/// The triangles whose separating-axis test accepts the volume `b`, in
/// input order.
pub open spec fn tri_filter(tris: Seq<Triangle>, b: AABB) -> Seq<Triangle> {
    tris.filter(|t: Triangle| spec_box_tri(b, t))
}

/// The node is the build's result on this input.  An empty input gives
/// the bare leaf; at the depth cutoff the input list is stored verbatim
/// in a childless node, unconditionally; otherwise the node splits its
/// volume on axis `depth mod 3` at the median midpoint key (the middle
/// element of the sorted keys), the child volumes are the parent's
/// halves expanded by the margin, and each child is built from exactly
/// the triangles its volume's separating-axis test accepts.
pub open spec fn kd_built(n: KDNode, tris: Seq<Triangle>, depth: int, p: AABB, cfg: KdConfig) -> bool
    decreases cfg.max_depth - depth,
{
    if tris.len() == 0 {
        n.aabb == p && n.lt is None && n.gt is None && n.triangles is None
    } else if depth >= cfg.max_depth {
        n.aabb == p && n.lt is None && n.gt is None && n.triangles is Some
            && n.triangles->Some_0@ == tris
    } else {
        let axis = depth % 3;
        let med = spec_sort(mid_keys(tris, axis))[tris.len() as int / 2] as int;
        let bl = kd_child_lt(p, axis, med, cfg.eps as int);
        let bg = kd_child_gt(p, axis, med, cfg.eps as int);
        &&& n.aabb == p
        &&& n.triangles is None
        &&& n.lt is Some
        &&& n.gt is Some
        &&& kd_built(*n.lt->Some_0, tri_filter(tris, bl), depth + 1, bl, cfg)
        &&& kd_built(*n.gt->Some_0, tri_filter(tris, bg), depth + 1, bg, cfg)
    }
}

/// The height of a tree: a leaf has height zero.
pub open spec fn kd_height(n: KDNode) -> int
    decreases n,
{
    if n.lt is Some && n.gt is Some {
        let hl = kd_height(*n.lt->Some_0);
        let hg = kd_height(*n.gt->Some_0);
        1 + (if hl >= hg {
            hl
        } else {
            hg
        })
    } else {
        0
    }
}

/// Every triangle of the build input can be found by descending from
/// this node: at a leaf it is stored; at an internal node it was handed
/// to each child whose (expanded) volume its separating-axis test
/// accepts, and the two child volumes jointly cover the parent's.
pub open spec fn kd_covers(n: KDNode, t: Triangle) -> bool
    decreases n,
{
    if n.triangles is Some {
        n.triangles->Some_0@.contains(t)
    } else if n.lt is Some && n.gt is Some {
        let l = *n.lt->Some_0;
        let g = *n.gt->Some_0;
        &&& kd_split_ok(n.aabb, l.aabb, g.aabb)
        &&& (spec_box_tri(l.aabb, t) ==> kd_covers(l, t))
        &&& (spec_box_tri(g.aabb, t) ==> kd_covers(g, t))
    } else {
        false
    }
}

/// Structural well-formedness: volumes are in range, and a node has
/// either two children or a leaf list, never both.
pub open spec fn kd_wf(n: KDNode) -> bool
    decreases n,
{
    &&& vec_in_range(n.aabb.min, BOX_MAX as int)
    &&& vec_in_range(n.aabb.max, BOX_MAX as int)
    &&& (n.lt is Some <==> n.gt is Some)
    &&& (n.lt is Some ==> n.triangles is None)
    &&& (n.lt is Some ==> kd_wf(*n.lt->Some_0) && kd_wf(*n.gt->Some_0))
    &&& (n.triangles is Some ==> forall|i: int|
        0 <= i < n.triangles->Some_0@.len() ==> tri_ok(#[trigger] n.triangles->Some_0@[i]))
}

/// The triangles a ray must test: the concatenation, over the children
/// whose volume the ray's slab test hits, of their leaf lists.
pub open spec fn spec_ray_leaf(n: KDNode, r: Ray) -> Seq<Triangle>
    decreases n,
{
    if n.triangles is Some {
        n.triangles->Some_0@
    } else if n.lt is Some && n.gt is Some {
        let l = *n.lt->Some_0;
        let g = *n.gt->Some_0;
        (if spec_ray_hits_box(l.aabb, r) {
            spec_ray_leaf(l, r)
        } else {
            Seq::<Triangle>::empty()
        }) + (if spec_ray_hits_box(g.aabb, r) {
            spec_ray_leaf(g, r)
        } else {
            Seq::<Triangle>::empty()
        })
    } else {
        Seq::<Triangle>::empty()
    }
}

/// Inserts `x` into the sorted sequence `s`, keeping order.
pub open spec fn spec_insert(s: Seq<i64>, x: i64) -> Seq<i64>
    decreases s.len(),
{
    if s.len() == 0 {
        seq![x]
    } else if x < s.last() {
        spec_insert(s.drop_last(), x).push(s.last())
    } else {
        s.push(x)
    }
}

/// Insertion sort of a sequence of keys.
pub open spec fn spec_sort(s: Seq<i64>) -> Seq<i64>
    decreases s.len(),
{
    if s.len() == 0 {
        Seq::<i64>::empty()
    } else {
        spec_insert(spec_sort(s.drop_last()), s.last())
    }
}

/// Insertion preserves length and any componentwise bound.
pub proof fn lemma_insert_facts(s: Seq<i64>, x: i64, b: int)
    requires
        forall|i: int| 0 <= i < s.len() ==> -b <= #[trigger] s[i] <= b,
        -b <= x <= b,
    ensures
        spec_insert(s, x).len() == s.len() + 1,
        forall|i: int| 0 <= i < s.len() + 1 ==> -b <= #[trigger] spec_insert(s, x)[i] <= b,
    decreases s.len(),
{
    if s.len() == 0 {
    } else if x < s.last() {
        assert(forall|i: int| 0 <= i < s.len() - 1 ==> #[trigger] s.drop_last()[i] == s[i]);
        lemma_insert_facts(s.drop_last(), x, b);
    } else {
    }
}

/// Sorting preserves length and any componentwise bound.
pub proof fn lemma_sort_facts(s: Seq<i64>, b: int)
    requires
        forall|i: int| 0 <= i < s.len() ==> -b <= #[trigger] s[i] <= b,
    ensures
        spec_sort(s).len() == s.len(),
        forall|i: int| 0 <= i < s.len() ==> -b <= #[trigger] spec_sort(s)[i] <= b,
    decreases s.len(),
{
    if s.len() == 0 {
    } else {
        assert(forall|i: int| 0 <= i < s.len() - 1 ==> #[trigger] s.drop_last()[i] == s[i]);
        lemma_sort_facts(s.drop_last(), b);
        lemma_insert_facts(spec_sort(s.drop_last()), s.last(), b);
    }
}

/// Inserts `x` into the sorted vector `v`.
fn insert_sorted(v: &mut Vec<i64>, x: i64)
    ensures
        final(v)@ == spec_insert(old(v)@, x),
    decreases old(v)@.len(),
{
    if v.len() == 0 {
        v.push(x);
        proof {
            assert(v@ =~= seq![x]);
        }
    } else {
        let last: i64 = v[v.len() - 1];
        if x < last {
            let popped: i64 = v.pop().unwrap();
            proof {
                assert(v@ =~= old(v)@.drop_last());
                assert(old(v)@.last() == popped);
            }
            insert_sorted(v, x);
            v.push(popped);
        } else {
            v.push(x);
        }
    }
}

/// Sorts the key vector by insertion, smallest first.
fn sort_keys(v: &Vec<i64>) -> (out: Vec<i64>)
    ensures
        out@ == spec_sort(v@),
{
    let mut out: Vec<i64> = Vec::new();
    let mut i: usize = 0;
    proof {
        assert(v@.take(0) =~= Seq::<i64>::empty());
    }
    while i < v.len()
        invariant
            0 <= i <= v@.len(),
            out@ == spec_sort(v@.take(i as int)),
        decreases v@.len() - i,
    {
        proof {
            assert(v@.take(i as int + 1).drop_last() =~= v@.take(i as int));
            assert(v@.take(i as int + 1).last() == v@[i as int]);
        }
        insert_sorted(&mut out, v[i]);
        i = i + 1;
    }
    proof {
        assert(v@.take(v@.len() as int) =~= v@);
    }
    out
}

/// Strictness of the epsilon expansion below a bound.
proof fn lemma_eps_below(lo: int, q: int, qd: int, eps: int)
    by (nonlinear_arith)
    requires
        qd > 0,
        eps >= 1,
        lo * qd <= q,
    ensures
        (lo - eps) * qd < q,
{
}

/// Strictness of the epsilon expansion above a bound.
proof fn lemma_eps_above(hi: int, q: int, qd: int, eps: int)
    by (nonlinear_arith)
    requires
        qd > 0,
        eps >= 1,
        q <= hi * qd,
    ensures
        q < (hi + eps) * qd,
{
}

/// A point (closed) inside a split parent volume is strictly inside at
/// least one of the two expanded child volumes.
pub proof fn lemma_split_point(
    p: AABB,
    l: AABB,
    g: AABB,
    qx: int,
    qy: int,
    qz: int,
    qd: int,
)
    requires
        kd_split_ok(p, l, g),
        qd > 0,
        in_box_closed(p, qx, qy, qz, qd),
    ensures
        in_box_strict(l, qx, qy, qz, qd) || in_box_strict(g, qx, qy, qz, qd),
{
    let (axis, med, eps): (int, int, int) = choose|axis: int, med: int, eps: int|
        #[trigger] kd_split_shape(p, l, g, axis, med, eps);
    lemma_eps_below(p.min.x as int, qx, qd, eps);
    lemma_eps_below(p.min.y as int, qy, qd, eps);
    lemma_eps_below(p.min.z as int, qz, qd, eps);
    lemma_eps_above(p.max.x as int, qx, qd, eps);
    lemma_eps_above(p.max.y as int, qy, qd, eps);
    lemma_eps_above(p.max.z as int, qz, qd, eps);
    let qa = if axis == 0 {
        qx
    } else if axis == 1 {
        qy
    } else {
        qz
    };
    if qa <= med * qd {
        // Strictly inside the `less` child.
        lemma_eps_above(med, qa, qd, eps);
    } else {
        // Strictly inside the `greater-or-equal` child.
        lemma_eps_below(med, qa, qd, eps);
    }
}

} // verus!

verus! {

/// The largest coordinate magnitude a node volume at `depth` may have:
/// expansions at the remaining levels must stay within `BOX_MAX`.
pub open spec fn box_bound(cfg: KdConfig, depth: int) -> int {
    BOX_MAX as int - (cfg.max_depth - depth) * (cfg.eps as int)
}

impl KDNode {
    /// Builds the spatial index over `triangles` inside the volume
    /// `aabb`.  An empty input gives a bare leaf; at the depth cutoff
    /// all triangles are stored; otherwise the triangles are split at
    /// the median midpoint on the round-robin axis into two expanded
    /// child volumes, a triangle going to every child whose volume its
    /// separating-axis test accepts (possibly both).
    #[verifier::rlimit(100)]
    pub fn new(triangles: &Vec<Triangle>, depth: usize, aabb: &AABB, cfg: &KdConfig) -> (res:
        KDNode)
        requires
            kd_config_wf(*cfg),
            depth <= cfg.max_depth,
            forall|i: int| 0 <= i < triangles@.len() ==> tri_ok(#[trigger] triangles@[i]),
            vec_in_range(aabb.min, box_bound(*cfg, depth as int)),
            vec_in_range(aabb.max, box_bound(*cfg, depth as int)),
        ensures
            kd_wf(res),
            res.aabb == *aabb,
            kd_built(res, triangles@, depth as int, *aabb, *cfg),
            kd_height(res) <= cfg.max_depth - depth,
            forall|t: Triangle| #[trigger] triangles@.contains(t) ==> kd_covers(res, t),
        decreases cfg.max_depth - depth,
    {
        proof {
            assert((cfg.max_depth - depth) * (cfg.eps as int) >= 0) by (nonlinear_arith)
                requires
                    depth <= cfg.max_depth,
                    cfg.eps >= 1,
            ;
        }
        if triangles.len() == 0 {
            let res = KDNode { aabb: *aabb, lt: None, gt: None, triangles: None };
            proof {
                assert(kd_built(res, triangles@, depth as int, *aabb, *cfg));
                assert(kd_height(res) == 0);
            }
            return res;
        }
        if depth == cfg.max_depth {
            let mut nt: Vec<Triangle> = Vec::new();
            let mut i: usize = 0;
            while i < triangles.len()
                invariant
                    0 <= i <= triangles@.len(),
                    nt@ == triangles@.take(i as int),
                decreases triangles@.len() - i,
            {
                nt.push(triangles[i]);
                proof {
                    assert(nt@ =~= triangles@.take(i as int + 1));
                }
                i = i + 1;
            }
            proof {
                assert(triangles@.take(triangles@.len() as int) =~= triangles@);
            }
            let res = KDNode { aabb: *aabb, lt: None, gt: None, triangles: Some(nt) };
            proof {
                assert(kd_built(res, triangles@, depth as int, *aabb, *cfg));
                assert(kd_height(res) == 0);
            }
            return res;
        }
        // Split axis rotates with depth; the split value is the median
        // of the triangle midpoints on that axis, found by a full sort.
        let axis: usize = depth % 3;
        let mut mids: Vec<i64> = Vec::new();
        let mut i: usize = 0;
        while i < triangles.len()
            invariant
                0 <= i <= triangles@.len(),
                mids@.len() == i,
                forall|j: int| 0 <= j < triangles@.len() ==> tri_ok(#[trigger] triangles@[j]),
                forall|j: int| 0 <= j < mids@.len() ==> -COORD_MAX <= #[trigger] mids@[j] <= COORD_MAX,
                forall|j: int|
                    0 <= j < i ==> #[trigger] mids@[j] == mid_key(triangles@[j], axis as int),
                axis == depth % 3,
                axis < 3,
            decreases triangles@.len() - i,
        {
            let m: Vec4 = triangles[i].midpoint();
            mids.push(m.elem(axis));
            i = i + 1;
        }
        let sorted: Vec<i64> = sort_keys(&mids);
        proof {
            lemma_sort_facts(mids@, COORD_MAX as int);
            assert(mids@ =~= mid_keys(triangles@, axis as int));
        }
        let med: i64 = sorted[sorted.len() / 2];
        proof {
            assert(med == spec_sort(mid_keys(triangles@, axis as int))[triangles@.len() as int
                / 2]);
        }
        let epsv = Vec4 { x: cfg.eps, y: cfg.eps, z: cfg.eps, w: 0 };
        let mut lt_v: Vec4 = aabb.max;
        lt_v.set_elem(axis, med);
        let mut gt_v: Vec4 = aabb.min;
        gt_v.set_elem(axis, med);
        let bb_lt = AABB { min: aabb.min.minus(epsv), max: lt_v.plus(epsv) };
        let bb_gt = AABB { min: gt_v.minus(epsv), max: aabb.max.plus(epsv) };
        proof {
            assert(bb_lt == kd_child_lt(*aabb, axis as int, med as int, cfg.eps as int));
            assert(bb_gt == kd_child_gt(*aabb, axis as int, med as int, cfg.eps as int));
            assert((cfg.max_depth - depth) * (cfg.eps as int) == (cfg.max_depth - depth - 1) * (
            cfg.eps as int) + cfg.eps as int) by (nonlinear_arith)
                requires
                    depth < cfg.max_depth,
            ;
            assert((cfg.max_depth - depth - 1) * (cfg.eps as int) <= (cfg.max_depth + 1) * (
            cfg.eps as int)) by (nonlinear_arith)
                requires
                    depth < cfg.max_depth,
                    cfg.eps >= 1,
            ;
        }
        let mut tlt: Vec<Triangle> = Vec::new();
        let mut tgt: Vec<Triangle> = Vec::new();
        i = 0;
        proof {
            reveal_with_fuel(Seq::<Triangle>::filter, 2);
            assert(triangles@.take(0) =~= Seq::<Triangle>::empty());
            assert(tri_filter(triangles@.take(0), bb_lt) =~= Seq::<Triangle>::empty());
            assert(tri_filter(triangles@.take(0), bb_gt) =~= Seq::<Triangle>::empty());
        }
        while i < triangles.len()
            invariant
                0 <= i <= triangles@.len(),
                tlt@ == tri_filter(triangles@.take(i as int), bb_lt),
                tgt@ == tri_filter(triangles@.take(i as int), bb_gt),
                forall|j: int| 0 <= j < triangles@.len() ==> tri_ok(#[trigger] triangles@[j]),
                forall|j: int| 0 <= j < tlt@.len() ==> tri_ok(#[trigger] tlt@[j]),
                forall|j: int| 0 <= j < tgt@.len() ==> tri_ok(#[trigger] tgt@[j]),
                forall|j: int|
                    0 <= j < i ==> (spec_box_tri(bb_lt, #[trigger] triangles@[j])
                        ==> tlt@.contains(triangles@[j])),
                forall|j: int|
                    0 <= j < i ==> (spec_box_tri(bb_gt, #[trigger] triangles@[j])
                        ==> tgt@.contains(triangles@[j])),
                vec_in_range(bb_lt.min, BOX_MAX as int),
                vec_in_range(bb_lt.max, BOX_MAX as int),
                vec_in_range(bb_gt.min, BOX_MAX as int),
                vec_in_range(bb_gt.max, BOX_MAX as int),
            decreases triangles@.len() - i,
        {
            let ghost tlt0 = tlt@;
            let ghost tgt0 = tgt@;
            let tri: Triangle = triangles[i];
            let in_lt: bool = bb_lt.intersect_triangle(&tri);
            let in_gt: bool = bb_gt.intersect_triangle(&tri);
            if in_lt {
                tlt.push(tri);
            }
            if in_gt {
                tgt.push(tri);
            }
            proof {
                reveal_with_fuel(Seq::<Triangle>::filter, 2);
                assert(triangles@.take(i as int + 1).drop_last() =~= triangles@.take(i as int));
                assert(triangles@.take(i as int + 1).drop_last() == triangles@.take(i as int));
                assert(triangles@.take(i as int + 1).last() == triangles@[i as int]);
                assert(tri_filter(triangles@.take(i as int + 1), bb_lt) == (if spec_box_tri(
                    bb_lt,
                    triangles@[i as int],
                ) {
                    tri_filter(triangles@.take(i as int), bb_lt).push(triangles@[i as int])
                } else {
                    tri_filter(triangles@.take(i as int), bb_lt)
                }));
                assert(tri_filter(triangles@.take(i as int + 1), bb_gt) == (if spec_box_tri(
                    bb_gt,
                    triangles@[i as int],
                ) {
                    tri_filter(triangles@.take(i as int), bb_gt).push(triangles@[i as int])
                } else {
                    tri_filter(triangles@.take(i as int), bb_gt)
                }));
                assert forall|j: int|
                    0 <= j < i + 1 && spec_box_tri(bb_lt, #[trigger] triangles@[j]) implies
                    tlt@.contains(triangles@[j]) by {
                    if j < i {
                        let k: int = choose|k: int|
                            0 <= k < tlt0.len() && tlt0[k] == triangles@[j];
                        assert(tlt@[k] == triangles@[j]);
                    } else {
                        assert(tlt@[tlt@.len() - 1] == triangles@[j]);
                    }
                }
                assert forall|j: int|
                    0 <= j < i + 1 && spec_box_tri(bb_gt, #[trigger] triangles@[j]) implies
                    tgt@.contains(triangles@[j]) by {
                    if j < i {
                        let k: int = choose|k: int|
                            0 <= k < tgt0.len() && tgt0[k] == triangles@[j];
                        assert(tgt@[k] == triangles@[j]);
                    } else {
                        assert(tgt@[tgt@.len() - 1] == triangles@[j]);
                    }
                }
            }
            i = i + 1;
        }
        proof {
            assert(triangles@.take(triangles@.len() as int) =~= triangles@);
            assert(tlt@ == tri_filter(triangles@, bb_lt));
            assert(tgt@ == tri_filter(triangles@, bb_gt));
        }
        let lt_node: KDNode = KDNode::new(&tlt, depth + 1, &bb_lt, cfg);
        let gt_node: KDNode = KDNode::new(&tgt, depth + 1, &bb_gt, cfg);
        let res = KDNode {
            aabb: *aabb,
            lt: Some(Box::new(lt_node)),
            gt: Some(Box::new(gt_node)),
            triangles: None,
        };
        proof {
            assert(kd_split_shape(
                *aabb,
                bb_lt,
                bb_gt,
                axis as int,
                med as int,
                cfg.eps as int,
            ));
            assert forall|t: Triangle| triangles@.contains(t) implies kd_covers(res, t) by {
                let j: int = choose|j: int|
                    0 <= j < triangles@.len() && triangles@[j] == t;
                assert(spec_box_tri(bb_lt, triangles@[j]) ==> tlt@.contains(triangles@[j]));
                assert(spec_box_tri(bb_gt, triangles@[j]) ==> tgt@.contains(triangles@[j]));
                assert(kd_split_ok(res.aabb, bb_lt, bb_gt));
            }
            assert((depth % 3) as int == (depth as int) % 3);
            assert(kd_built(res, triangles@, depth as int, *aabb, *cfg));
            assert(kd_height(res) <= cfg.max_depth - depth);
        }
        res
    }

    /// The triangles a ray must test exactly: descends into each child
    /// whose volume the ray hits and concatenates their leaf lists.
    pub fn ray_leaf(&self, r: &Ray) -> (out: Vec<Triangle>)
        requires
            kd_wf(*self),
            vec_in_range(r.origin, ORIGIN_MAX as int),
            vec_in_range(r.dir, DIR_MAX as int),
        ensures
            out@ == spec_ray_leaf(*self, *r),
        decreases *self,
    {
        let mut out: Vec<Triangle> = Vec::new();
        match &self.triangles {
            None => {
                match (&self.lt, &self.gt) {
                    (Some(alt), Some(agt)) => {
                        proof {
                            assert(kd_wf(**alt));
                            assert(kd_wf(**agt));
                        }
                        if alt.aabb.intersect_ray(r) {
                            let mut sub: Vec<Triangle> = alt.ray_leaf(r);
                            out.append(&mut sub);
                        }
                        if agt.aabb.intersect_ray(r) {
                            let mut sub: Vec<Triangle> = agt.ray_leaf(r);
                            out.append(&mut sub);
                        }
                    },
                    _ => {},
                }
                proof {
                    assert(out@ =~= spec_ray_leaf(*self, *r));
                }
            },
            Some(trs) => {
                let mut i: usize = 0;
                while i < trs.len()
                    invariant
                        0 <= i <= trs@.len(),
                        out@ == trs@.take(i as int),
                        self.triangles == Some(*trs),
                    decreases trs@.len() - i,
                {
                    out.push(trs[i]);
                    proof {
                        assert(out@ =~= trs@.take(i as int + 1));
                    }
                    i = i + 1;
                }
                proof {
                    assert(trs@.take(trs@.len() as int) =~= trs@);
                    assert(out@ =~= spec_ray_leaf(*self, *r));
                }
            },
        }
        out
    }
}

} // verus!

verus! {

/// Cancelling a positive factor from a strict two-sided bound.
proof fn lemma_unscale_strict(mn: int, mx: int, val: int, s: int, td: int, q: int)
    by (nonlinear_arith)
    requires
        s > 0,
        mn * (s * td) < q < mx * (s * td),
        q == s * val,
    ensures
        mn * td < val < mx * td,
{
}

/// Weakening a positive factor from a closed two-sided bound.
proof fn lemma_scale_weights(a: int, td: int)
    by (nonlinear_arith)
    requires
        a >= 0,
        td > 0,
    ensures
        a * td >= 0,
{
}

/// Traversal completeness: a triangle covered by the index that the
/// ray meets, at a strictly positive parameter and inside this node's
/// volume, is among the candidates `ray_leaf` returns.  The meeting
/// point is given as a barycentric combination with weights
/// `a, bw, c` summing to `s` that equals the ray point at `tn / td`;
/// all coordinates are scaled by `s * td`.
pub proof fn lemma_ray_leaf_complete(
    n: KDNode,
    r: Ray,
    t: Triangle,
    a: int,
    bw: int,
    c: int,
    s: int,
    tn: int,
    td: int,
)
    requires
        kd_covers(n, t),
        tri_in_range(t, COORD_MAX as int),
        a >= 0,
        bw >= 0,
        c >= 0,
        a + bw + c == s,
        s > 0,
        tn > 0,
        td > 0,
        s * ((r.origin.x as int) * td + (r.dir.x as int) * tn) == td * (a * (t.p0.v.x as int) + bw
            * (t.p1.v.x as int) + c * (t.p2.v.x as int)),
        s * ((r.origin.y as int) * td + (r.dir.y as int) * tn) == td * (a * (t.p0.v.y as int) + bw
            * (t.p1.v.y as int) + c * (t.p2.v.y as int)),
        s * ((r.origin.z as int) * td + (r.dir.z as int) * tn) == td * (a * (t.p0.v.z as int) + bw
            * (t.p1.v.z as int) + c * (t.p2.v.z as int)),
        in_box_closed(
            n.aabb,
            s * ((r.origin.x as int) * td + (r.dir.x as int) * tn),
            s * ((r.origin.y as int) * td + (r.dir.y as int) * tn),
            s * ((r.origin.z as int) * td + (r.dir.z as int) * tn),
            s * td,
        ),
    ensures
        spec_ray_leaf(n, r).contains(t),
    decreases n,
{
    let qx = s * ((r.origin.x as int) * td + (r.dir.x as int) * tn);
    let qy = s * ((r.origin.y as int) * td + (r.dir.y as int) * tn);
    let qz = s * ((r.origin.z as int) * td + (r.dir.z as int) * tn);
    let qd = s * td;
    assert(qd > 0) by (nonlinear_arith)
        requires
            s > 0,
            td > 0,
            qd == s * td,
    ;
    if n.triangles is Some {
        // A leaf returns its list, and coverage put the triangle there.
    } else if n.lt is Some && n.gt is Some {
        let l = *n.lt->Some_0;
        let g = *n.gt->Some_0;
        lemma_split_point(n.aabb, l.aabb, g.aabb, qx, qy, qz, qd);
        let into_l: bool = in_box_strict(l.aabb, qx, qy, qz, qd);
        let child = if into_l {
            l
        } else {
            g
        };
        // The separating-axis test accepts the child volume: the
        // barycentric weights, scaled by `td`, witness the point.
        lemma_scale_weights(a, td);
        lemma_scale_weights(bw, td);
        lemma_scale_weights(c, td);
        crate::aabb::lemma_distrib3(
            td,
            a,
            t.p0.v.x as int,
            bw,
            t.p1.v.x as int,
            c,
            t.p2.v.x as int,
        );
        crate::aabb::lemma_distrib3(
            td,
            a,
            t.p0.v.y as int,
            bw,
            t.p1.v.y as int,
            c,
            t.p2.v.y as int,
        );
        crate::aabb::lemma_distrib3(
            td,
            a,
            t.p0.v.z as int,
            bw,
            t.p1.v.z as int,
            c,
            t.p2.v.z as int,
        );
        vstd::arithmetic::mul::lemma_mul_is_associative(a, td, t.p0.v.x as int);
        vstd::arithmetic::mul::lemma_mul_is_associative(bw, td, t.p1.v.x as int);
        vstd::arithmetic::mul::lemma_mul_is_associative(c, td, t.p2.v.x as int);
        vstd::arithmetic::mul::lemma_mul_is_associative(a, td, t.p0.v.y as int);
        vstd::arithmetic::mul::lemma_mul_is_associative(bw, td, t.p1.v.y as int);
        vstd::arithmetic::mul::lemma_mul_is_associative(c, td, t.p2.v.y as int);
        vstd::arithmetic::mul::lemma_mul_is_associative(a, td, t.p0.v.z as int);
        vstd::arithmetic::mul::lemma_mul_is_associative(bw, td, t.p1.v.z as int);
        vstd::arithmetic::mul::lemma_mul_is_associative(c, td, t.p2.v.z as int);
        vstd::arithmetic::mul::lemma_mul_is_commutative(a, td);
        vstd::arithmetic::mul::lemma_mul_is_commutative(bw, td);
        vstd::arithmetic::mul::lemma_mul_is_commutative(c, td);
        vstd::arithmetic::mul::lemma_mul_is_distributive_add_other_way(td, a + bw, c);
        vstd::arithmetic::mul::lemma_mul_is_distributive_add_other_way(td, a, bw);
        vstd::arithmetic::mul::lemma_mul_is_commutative(s, td);
        assert(qd == a * td + bw * td + c * td);
        assert(qx == (a * td) * (t.p0.v.x as int) + (bw * td) * (t.p1.v.x as int) + (c * td) * (
        t.p2.v.x as int));
        assert(qy == (a * td) * (t.p0.v.y as int) + (bw * td) * (t.p1.v.y as int) + (c * td) * (
        t.p2.v.y as int));
        assert(qz == (a * td) * (t.p0.v.z as int) + (bw * td) * (t.p1.v.z as int) + (c * td) * (
        t.p2.v.z as int));
        crate::aabb::lemma_box_tri_complete(
            child.aabb,
            t,
            a * td,
            bw * td,
            c * td,
            qx,
            qy,
            qz,
            qd,
        );
        // The slab test accepts the child volume: the parameter itself
        // is the witness.
        lemma_unscale_strict(
            child.aabb.min.x as int,
            child.aabb.max.x as int,
            (r.origin.x as int) * td + (r.dir.x as int) * tn,
            s,
            td,
            qx,
        );
        lemma_unscale_strict(
            child.aabb.min.y as int,
            child.aabb.max.y as int,
            (r.origin.y as int) * td + (r.dir.y as int) * tn,
            s,
            td,
            qy,
        );
        lemma_unscale_strict(
            child.aabb.min.z as int,
            child.aabb.max.z as int,
            (r.origin.z as int) * td + (r.dir.z as int) * tn,
            s,
            td,
            qz,
        );
        assert(crate::aabb::strictly_inside_at(child.aabb, r, tn, td));
        assert(spec_ray_hits_box(child.aabb, r));
        // Recurse into the child that holds the point.
        lemma_ray_leaf_complete(child, r, t, a, bw, c, s, tn, td);
        let lpart = if spec_ray_hits_box(l.aabb, r) {
            spec_ray_leaf(l, r)
        } else {
            Seq::<Triangle>::empty()
        };
        let gpart = if spec_ray_hits_box(g.aabb, r) {
            spec_ray_leaf(g, r)
        } else {
            Seq::<Triangle>::empty()
        };
        assert(spec_ray_leaf(n, r) == lpart + gpart);
        if into_l {
            let k: int = choose|k: int| 0 <= k < lpart.len() && lpart[k] == t;
            assert((lpart + gpart)[k] == t);
        } else {
            let k: int = choose|k: int| 0 <= k < gpart.len() && gpart[k] == t;
            assert((lpart + gpart)[lpart.len() + k] == t);
        }
    }
}

} // verus!

verus! {

/// Every candidate a traversal returns is a scene-ready triangle.
pub proof fn lemma_ray_leaf_in_range(n: KDNode, r: Ray)
    requires
        kd_wf(n),
    ensures
        forall|i: int|
            0 <= i < spec_ray_leaf(n, r).len() ==> tri_ok(#[trigger] spec_ray_leaf(n, r)[i]),
    decreases n,
{
    if n.triangles is Some {
    } else if n.lt is Some && n.gt is Some {
        let l = *n.lt->Some_0;
        let g = *n.gt->Some_0;
        lemma_ray_leaf_in_range(l, r);
        lemma_ray_leaf_in_range(g, r);
        let lpart = if spec_ray_hits_box(l.aabb, r) {
            spec_ray_leaf(l, r)
        } else {
            Seq::<Triangle>::empty()
        };
        let gpart = if spec_ray_hits_box(g.aabb, r) {
            spec_ray_leaf(g, r)
        } else {
            Seq::<Triangle>::empty()
        };
        assert forall|i: int|
            0 <= i < spec_ray_leaf(n, r).len() implies tri_ok(#[trigger] spec_ray_leaf(n, r)[i]) by {
            if i < lpart.len() {
                assert(spec_ray_leaf(n, r)[i] == lpart[i]);
            } else {
                assert(spec_ray_leaf(n, r)[i] == gpart[i - lpart.len()]);
            }
        }
    }
}

} // verus!

verus! {

/// Keys in nondecreasing order.
pub open spec fn sorted_keys(s: Seq<i64>) -> bool {
    forall|i: int, j: int| 0 <= i <= j < s.len() ==> s[i] <= s[j]
}

/// Insertion into a sorted sequence keeps it sorted and adds exactly
/// the new key to its multiset.
pub proof fn lemma_insert_sorted(s: Seq<i64>, x: i64)
    requires
        sorted_keys(s),
    ensures
        sorted_keys(spec_insert(s, x)),
        spec_insert(s, x).to_multiset() == s.to_multiset().insert(x),
    decreases s.len(),
{
    broadcast use vstd::seq_lib::group_to_multiset_ensures;

    if s.len() == 0 {
        assert(seq![x] =~= Seq::<i64>::empty().push(x));
        assert(Seq::<i64>::empty().to_multiset() =~= Multiset::<i64>::empty());
        assert(spec_insert(s, x).to_multiset() =~= s.to_multiset().insert(x));
    } else if x < s.last() {
        assert(forall|i: int| 0 <= i < s.len() - 1 ==> #[trigger] s.drop_last()[i] == s[i]);
        lemma_insert_sorted(s.drop_last(), x);
        let r = spec_insert(s.drop_last(), x).push(s.last());
        // The pushed last element is at least every inserted key.
        assert forall|i: int, j: int| 0 <= i <= j < r.len() implies r[i] <= r[j] by {
            let inner = spec_insert(s.drop_last(), x);
            if j == r.len() - 1 {
                if i < r.len() - 1 {
                    assert(inner.to_multiset().contains(r[i]));
                    if r[i] == x {
                    } else {
                        assert(s.drop_last().to_multiset().contains(r[i]));
                        assert(s.drop_last().contains(r[i]));
                        let k: int = choose|k: int|
                            0 <= k < s.drop_last().len() && s.drop_last()[k] == r[i];
                        assert(s[k] <= s.last());
                    }
                }
            }
        }
        assert(s =~= s.drop_last().push(s.last()));
        assert(spec_insert(s, x).to_multiset() =~= s.to_multiset().insert(x));
    } else {
        assert forall|i: int, j: int|
            0 <= i <= j < s.push(x).len() implies s.push(x)[i] <= s.push(x)[j] by {
            if j == s.len() {
                if i < s.len() {
                    assert(s[i] <= s.last());
                }
            }
        }
    }
}

/// The sort really sorts: its result is ordered and holds exactly the
/// input keys.
pub proof fn lemma_sort_sorts(s: Seq<i64>)
    ensures
        sorted_keys(spec_sort(s)),
        spec_sort(s).to_multiset() == s.to_multiset(),
    decreases s.len(),
{
    broadcast use vstd::seq_lib::group_to_multiset_ensures;

    if s.len() == 0 {
        assert(spec_sort(s).to_multiset() =~= s.to_multiset());
    } else {
        lemma_sort_sorts(s.drop_last());
        lemma_insert_sorted(spec_sort(s.drop_last()), s.last());
        assert(s =~= s.drop_last().push(s.last()));
        assert(spec_sort(s).to_multiset() =~= s.to_multiset());
    }
}

} // verus!
