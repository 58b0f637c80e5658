use raytracer::aabb::AABB;
use raytracer::kdtree::KdConfig;
use raytracer::mat4::Mat4;
use raytracer::material::Material;
use raytracer::scene::Obj;
use raytracer::tracer::{brdf, raytrace, render_pixel, render_rows, Light, Ray};
use raytracer::triangle::Triangle;
use raytracer::vec4::{NVec4, Vec4};

fn v(x: i64, y: i64, z: i64, w: i64) -> Vec4 {
    Vec4 { x, y, z, w }
}

fn nv(p: Vec4, n: Vec4) -> NVec4 {
    NVec4 { v: p, n }
}

fn floor_tri() -> Triangle {
    let up = v(0, 0, 1000, 0);
    Triangle {
        p0: nv(v(0, 0, 0, 1000), up),
        p1: nv(v(4000, 0, 0, 1000), up),
        p2: nv(v(0, 4000, 0, 1000), up),
        mat: Some(Material::default()),
    }
}

fn occluder_tri() -> Triangle {
    let up = v(0, 0, 1000, 0);
    Triangle {
        p0: nv(v(-2000, -2000, 5000, 1000), up),
        p1: nv(v(4000, -2000, 5000, 1000), up),
        p2: nv(v(-2000, 4000, 5000, 1000), up),
        mat: Some(Material::default()),
    }
}

fn cfg() -> KdConfig {
    KdConfig { max_depth: 8, eps: 1 }
}

fn scene_box() -> AABB {
    AABB { min: v(-8000, -8000, -8000, 0), max: v(8000, 8000, 24000, 0) }
}

fn one_light() -> Vec<Light> {
    vec![Light { pos: v(0, 0, 10000, 1000), col: v(1000, 1000, 1000, 1000) }]
}

#[test]
fn lit_diffuse_pixel_no_shadow() {
    // A single light directly above a flat unobstructed floor, with
    // the camera looking straight down: the pixel through the surface
    // point gets ambient plus full diffuse plus full specular, and the
    // shadow term never fires.
    let obj = Obj::new(Vec::new(), &vec![floor_tri()], &scene_box(), &cfg());
    let cam = v(0, 0, 20000, 1000);
    let lights = one_light();
    let m = Mat4::identity();
    let c = render_pixel(&obj, cam, &lights, 2, 2, &m, 1, 1);
    // ambient (10) + diffuse (800) + specular (500) per channel.
    assert_eq!(c, v(1310, 1310, 1310, 3000));
}

#[test]
fn occluded_point_gets_ambient_only() {
    // A second triangle directly between the light and the surface
    // point: the shade drops to the ambient term alone.
    let obj = Obj::new(
        Vec::new(),
        &vec![floor_tri(), occluder_tri()],
        &scene_box(),
        &cfg(),
    );
    let cam = v(0, 0, 20000, 1000);
    let lights = one_light();
    let p = v(0, 0, 0, 1000);
    let t = floor_tri();
    let c = brdf(&p, &t, &cam, &lights, &obj);
    assert_eq!(c, v(10, 10, 10, 1000));
}

#[test]
fn miss_gives_sky_color() {
    // A ray through empty space outside every triangle returns the
    // fixed sky color, not black.
    let obj = Obj::new(Vec::new(), &vec![floor_tri()], &scene_box(), &cfg());
    let cam = v(0, 0, 20000, 1000);
    let lights = one_light();
    let m = Mat4::identity();
    let c = render_pixel(&obj, cam, &lights, 2, 2, &m, 0, 0);
    assert_eq!(c, v(520, 800, 920, 1000));
}

#[test]
fn render_split_independent_of_partition() {
    // Rendering the same scene with different row partitions gives a
    // bit-identical framebuffer.
    let obj = Obj::new(
        Vec::new(),
        &vec![floor_tri(), occluder_tri()],
        &scene_box(),
        &cfg(),
    );
    let cam = v(0, 0, 20000, 1000);
    let lights = one_light();
    let m = Mat4::identity();
    let whole = raytrace(&obj, cam, &lights, 4, 4, &m);
    let mut two = render_rows(&obj, cam, &lights, 4, 4, &m, 0, 1);
    two.extend(render_rows(&obj, cam, &lights, 4, 4, &m, 1, 4));
    let mut three = render_rows(&obj, cam, &lights, 4, 4, &m, 0, 3);
    three.extend(render_rows(&obj, cam, &lights, 4, 4, &m, 3, 4));
    assert_eq!(whole.len(), 16);
    assert_eq!(whole, two);
    assert_eq!(whole, three);
}

#[test]
fn traversal_returns_candidates_for_hitting_ray() {
    // The union of candidates the tree returns contains the triangle a
    // brute-force test hits.
    let obj = Obj::new(Vec::new(), &vec![floor_tri()], &scene_box(), &cfg());
    let r = Ray { origin: v(0, 0, 20000, 1000), dir: v(0, 0, -4000, 0) };
    let cands = obj.head.ray_leaf(&r);
    assert!(cands.len() >= 1);
    let t = floor_tri();
    let mut found = false;
    let mut i = 0;
    while i < cands.len() {
        if cands[i].p0.v == t.p0.v && cands[i].p1.v == t.p1.v && cands[i].p2.v == t.p2.v {
            found = true;
        }
        i += 1;
    }
    assert!(found);
}

#[test]
fn matrix_identity_and_transforms() {
    let m = Mat4::identity();
    assert_eq!(m.column(0), v(1000, 0, 0, 0));
    assert_eq!(m.column(3), v(0, 0, 0, 1000));
    let p = v(123, -456, 789, 1000);
    assert_eq!(m.transform_point(p), p);
    let d = v(2, -3, -4, 0);
    assert_eq!(m.rotate_dir(d), v(2000, -3000, -4000, 0));
}

#[test]
fn backfacing_light_flips_the_normal() {
    // A light below the single-sided floor: the shading normal flips,
    // so the surface still receives diffuse light from its back side,
    // while the half-vector faces away and adds no specular term.
    let obj = Obj::new(Vec::new(), &vec![floor_tri()], &scene_box(), &cfg());
    let cam = v(0, 0, 20000, 1000);
    let lights = vec![Light {
        pos: v(0, 3000, -4000, 1000),
        col: v(1000, 1000, 1000, 1000),
    }];
    let p = v(0, 0, 0, 1000);
    let t = floor_tri();
    let c = brdf(&p, &t, &cam, &lights, &obj);
    // ambient (10) + diffuse 800 * 800/1000 = 640 per channel.
    assert_eq!(c, v(650, 650, 650, 1800));
}
