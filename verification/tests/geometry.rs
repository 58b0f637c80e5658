use raytracer::aabb::AABB;
use raytracer::material::Material;
use raytracer::tracer::{closest_hit, intersects, powfx, Ray};
use raytracer::triangle::{tri_degenerate, Triangle};
use raytracer::vec4::{NVec4, Vec4};

fn v(x: i64, y: i64, z: i64, w: i64) -> Vec4 {
    Vec4 { x, y, z, w }
}

fn nv(p: Vec4, n: Vec4) -> NVec4 {
    NVec4 { v: p, n }
}

fn floor_tri() -> Triangle {
    let up = v(0, 0, 1000, 0);
    Triangle {
        p0: nv(v(0, 0, 0, 1000), up),
        p1: nv(v(4000, 0, 0, 1000), up),
        p2: nv(v(0, 4000, 0, 1000), up),
        mat: Some(Material::default()),
    }
}

#[test]
fn vec_ops() {
    let a = v(1, 2, 3, 4);
    let b = v(10, 20, 30, 40);
    let s = a.plus(b);
    assert_eq!(s, v(11, 22, 33, 44));
    let d = b.minus(a);
    assert_eq!(d, v(9, 18, 27, 36));
    let k = a.scale(3);
    assert_eq!(k, v(3, 6, 9, 12));
    let m = a.cmul(b);
    assert_eq!(m, v(10, 40, 90, 160));
    assert_eq!(a.dot(b), 10 + 40 + 90 + 160);
}

#[test]
fn vec_cross() {
    let x = v(1, 0, 0, 0);
    let y = v(0, 1, 0, 0);
    assert_eq!(x.cross(y), v(0, 0, 1, 0));
    assert_eq!(y.cross(x), v(0, 0, -1, 0));
}

#[test]
fn vec_length_and_normalize() {
    let a = v(3, 4, 0, 0);
    assert_eq!(a.length(), 5);
    assert_eq!(a.normalize(), v(600, 800, 0, 0));
    let b = v(0, 0, 7, 0);
    assert_eq!(b.normalize(), v(0, 0, 1000, 0));
}

#[test]
fn vec_elem_and_set_elem() {
    let mut a = v(1, 2, 3, 4);
    assert_eq!(a.elem(0), 1);
    assert_eq!(a.elem(3), 4);
    a.set_elem(1, 9);
    assert_eq!(a, v(1, 9, 3, 4));
}

#[test]
fn aabb_contains_points() {
    let b = AABB { min: v(-1000, -1000, -1000, 0), max: v(1000, 1000, 1000, 0) };
    assert!(b.contains(&v(0, 0, 0, 0)));
    assert!(b.contains(&v(1000, -1000, 500, 0)));
    assert!(!b.contains(&v(1001, 0, 0, 0)));
}

#[test]
fn aabb_overlap() {
    let a = AABB { min: v(0, 0, 0, 0), max: v(10, 10, 10, 0) };
    let b = AABB { min: v(10, 5, 5, 0), max: v(20, 6, 6, 0) };
    let c = AABB { min: v(11, 0, 0, 0), max: v(20, 10, 10, 0) };
    assert!(a.intersect_aabb(&b));
    assert!(!a.intersect_aabb(&c));
}

#[test]
fn slab_test_hits_and_misses() {
    let b = AABB { min: v(-1000, -1000, -1000, 0), max: v(1000, 1000, 1000, 0) };
    // Straight toward the box.
    let hit = Ray { origin: v(0, 0, 5000, 1000), dir: v(0, 0, -1000, 0) };
    assert!(b.intersect_ray(&hit));
    // Away from the box: it lies behind the origin.
    let behind = Ray { origin: v(0, 0, 5000, 1000), dir: v(0, 0, 1000, 0) };
    assert!(!b.intersect_ray(&behind));
    // Parallel to the z axis but offset outside the box.
    let offside = Ray { origin: v(2000, 0, 5000, 1000), dir: v(0, 0, -1000, 0) };
    assert!(!b.intersect_ray(&offside));
    // Starting inside the box.
    let inside = Ray { origin: v(0, 0, 0, 1000), dir: v(1, 0, 0, 0) };
    assert!(b.intersect_ray(&inside));
    // A diagonal ray that clips the corner region but misses.
    let miss = Ray { origin: v(3000, 3000, 3000, 1000), dir: v(1000, 1000, 1000, 0) };
    assert!(!b.intersect_ray(&miss));
}

#[test]
fn box_triangle_enclosed_and_disjoint() {
    let t = floor_tri();
    let big = AABB { min: v(-5000, -5000, -5000, 0), max: v(5000, 5000, 5000, 0) };
    assert!(big.intersect_triangle(&t));
    let far = AABB { min: v(20000, 20000, 20000, 0), max: v(30000, 30000, 30000, 0) };
    assert!(!far.intersect_triangle(&t));
}

#[test]
fn triangle_queries() {
    let t = floor_tri();
    assert_eq!(t.normal(), v(0, 0, 1000, 0));
    assert_eq!(t.midpoint(), v(1333, 1333, 0, 1000));
    let bb = t.aabb();
    assert_eq!(bb.min, v(0, 0, 0, 0));
    assert_eq!(bb.max, v(4000, 4000, 0, 0));
    assert!(!tri_degenerate(&t));
    // Interpolation of equal vertex normals gives that normal back.
    assert_eq!(t.normal_interp(&v(1000, 1000, 0, 1000)), v(0, 0, 1000, 0));
    assert_eq!(t.normal3p(), v(0, 0, 1000, 0));
}

#[test]
fn degenerate_triangle_detected() {
    let up = v(0, 0, 1000, 0);
    let t = Triangle {
        p0: nv(v(0, 0, 0, 1000), up),
        p1: nv(v(1000, 0, 0, 1000), up),
        p2: nv(v(2000, 0, 0, 1000), up),
        mat: None,
    };
    assert!(tri_degenerate(&t));
}

#[test]
fn moller_trumbore_exact_hit() {
    let t = floor_tri();
    let r = Ray { origin: v(0, 0, 20000, 1000), dir: v(0, 0, -4000, 0) };
    let h = intersects(&r, &t).unwrap();
    // The parametric distance is exactly five.
    assert_eq!(h.t_num, 5 * h.t_den);
    assert_eq!(h.p, v(0, 0, 0, 1000));
    // A ray pointing away misses.
    let away = Ray { origin: v(0, 0, 20000, 1000), dir: v(0, 0, 4000, 0) };
    assert!(intersects(&away, &t).is_none());
    // A ray beside the triangle misses.
    let beside = Ray { origin: v(-9000, -9000, 20000, 1000), dir: v(0, 0, -4000, 0) };
    assert!(intersects(&beside, &t).is_none());
}

#[test]
fn closest_hit_takes_minimal_t() {
    let up = v(0, 0, 1000, 0);
    let near = Triangle {
        p0: nv(v(-4000, -4000, 10000, 1000), up),
        p1: nv(v(4000, -4000, 10000, 1000), up),
        p2: nv(v(-4000, 4000, 10000, 1000), up),
        mat: Some(Material::default()),
    };
    let far = floor_tri();
    let r = Ray { origin: v(0, 0, 20000, 1000), dir: v(0, 0, -4000, 0) };
    let cands = vec![far, near, far];
    let h = closest_hit(&r, &cands).unwrap();
    // The nearer plane, z = 10, is hit at t = 2.5, before the floor.
    assert_eq!(2 * h.t_num, 5 * h.t_den);
    assert_eq!(h.p, v(0, 0, 10000, 1000));
}

#[test]
fn fixed_point_power() {
    assert_eq!(powfx(1000, 0), 1000);
    assert_eq!(powfx(1000, 40), 1000);
    assert_eq!(powfx(500, 1), 500);
    assert_eq!(powfx(500, 2), 250);
    assert_eq!(powfx(0, 3), 0);
}

#[test]
fn material_default_values() {
    let m = Material::default();
    assert_eq!(m.ns, 40);
    assert_eq!(m.ka, v(10, 10, 10, 1000));
    assert_eq!(m.kd, v(800, 800, 800, 1000));
    assert_eq!(m.ks, v(500, 500, 500, 1000));
    assert_eq!(m.ke, v(0, 0, 0, 0));
    assert_eq!(m.illum, 2);
}

#[test]
fn slab_test_grazing_boundary_misses() {
    // A ray sliding exactly along a face plane never gets strictly
    // inside the box.
    let b = AABB { min: v(0, 0, 0, 0), max: v(1000, 1000, 1000, 0) };
    let graze = Ray { origin: v(-5000, 0, 500, 1000), dir: v(1000, 0, 0, 0) };
    assert!(!b.intersect_ray(&graze));
    // Nudged inside, the same ray hits.
    let inside = Ray { origin: v(-5000, 1, 500, 1000), dir: v(1000, 0, 0, 0) };
    assert!(b.intersect_ray(&inside));
}
