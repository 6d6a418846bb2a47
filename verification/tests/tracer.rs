//! Scenario tests for the intersection, shading, camera, and
//! rendering pipeline, on scenes whose fixed-point arithmetic is
//! exact.

use raytracer::camera::{calculate_viewray, ViewRay};
use raytracer::fixed::SCALE;
use raytracer::intersect::nearest_hit;
use raytracer::render::{render, thread_render};
use raytracer::scene::{Config, Material, Ray, Scene, Sphere, Surface, Triangle};
use raytracer::shade::shadow;
use raytracer::vec3::Vec3;

fn plain(amb: Vec3) -> Material {
    Material { amb, reflect: 0 }
}

fn test_config(dim: usize, light_radius: i128, shadow_samples: u32) -> Config {
    Config {
        max_depth: 10,
        dim,
        near: SCALE,
        epsilon: 7,
        t1: 100000 * SCALE,
        background: Vec3::new(26214, 45744, 65536),
        light_radius,
        shadow_samples,
    }
}

#[test]
fn sphere_head_on_hit_distance() {
    // A unit sphere at the origin, seen from (0, 0, 4): the hit is at
    // parameter |origin - center| - radius = 3, exactly.
    let s = Sphere::new(Vec3::new(0, 0, 0), SCALE, plain(Vec3::new(SCALE, 0, 0)));
    let ray = Ray { src: Vec3::new(0, 0, 4 * SCALE), dir: Vec3::new(0, 0, -SCALE) };
    assert_eq!(s.hit(&ray, 100000 * SCALE), Some(3 * SCALE));
}

#[test]
fn sphere_aimed_away_misses() {
    let s = Sphere::new(Vec3::new(0, 0, 0), SCALE, plain(Vec3::new(SCALE, 0, 0)));
    let ray = Ray { src: Vec3::new(0, 0, 4 * SCALE), dir: Vec3::new(0, 0, SCALE) };
    assert_eq!(s.hit(&ray, 100000 * SCALE), None);
}

#[test]
fn sphere_offset_ray_misses() {
    let s = Sphere::new(Vec3::new(0, 0, 0), SCALE, plain(Vec3::new(SCALE, 0, 0)));
    let ray = Ray { src: Vec3::new(0, 3 * SCALE, 4 * SCALE), dir: Vec3::new(0, 0, -SCALE) };
    assert_eq!(s.hit(&ray, 100000 * SCALE), None);
}

fn floor_triangle() -> Triangle {
    Triangle::new(
        Vec3::new(-10 * SCALE, 0, -10 * SCALE),
        Vec3::new(-10 * SCALE, 0, 10 * SCALE),
        Vec3::new(10 * SCALE, 0, 10 * SCALE),
        plain(Vec3::new(16384, 37175, 13583)),
        true,
    )
}

#[test]
fn triangle_hit_straight_down() {
    let tr = floor_triangle();
    let ray = Ray { src: Vec3::new(0, 5 * SCALE, 0), dir: Vec3::new(0, -SCALE, 0) };
    assert_eq!(tr.hit(&ray, 100000 * SCALE), Some(5 * SCALE));
}

#[test]
fn triangle_parallel_ray_misses() {
    let tr = floor_triangle();
    let ray = Ray { src: Vec3::new(0, 5 * SCALE, 0), dir: Vec3::new(SCALE, 0, 0) };
    assert_eq!(tr.hit(&ray, 100000 * SCALE), None);
}

#[test]
fn triangle_outside_edges_misses() {
    let tr = floor_triangle();
    let ray = Ray { src: Vec3::new(20 * SCALE, 5 * SCALE, 0), dir: Vec3::new(0, -SCALE, 0) };
    assert_eq!(tr.hit(&ray, 100000 * SCALE), None);
}

#[test]
fn triangle_in_plane_origin_misses() {
    // A ray starting on the triangle's own plane meets it at parameter
    // exactly zero, which the strict bound rejects: a surface never
    // occludes itself at its own origin.
    let tr = floor_triangle();
    let ray = Ray { src: Vec3::new(0, 0, 0), dir: Vec3::new(0, -SCALE, 0) };
    assert_eq!(tr.hit(&ray, 100000 * SCALE), None);
}

#[test]
fn nearest_hit_prefers_closer_surface() {
    let mut scene = Scene::new();
    scene.push(Sphere::boxed(Vec3::new(0, 0, 0), SCALE, plain(Vec3::new(SCALE, 0, 0))));
    scene.push(Sphere::boxed(Vec3::new(0, 0, 2 * SCALE), SCALE, plain(Vec3::new(0, SCALE, 0))));
    let ray = Ray { src: Vec3::new(0, 0, 6 * SCALE), dir: Vec3::new(0, 0, -SCALE) };
    let (best, t) = nearest_hit(&scene, &ray, 100000 * SCALE);
    assert_eq!(best, Some(1));
    assert_eq!(t, 3 * SCALE);
}

#[test]
fn nearest_hit_empty_scene() {
    let scene = Scene::new();
    let ray = Ray { src: Vec3::new(0, 0, 6 * SCALE), dir: Vec3::new(0, 0, -SCALE) };
    let (best, t) = nearest_hit(&scene, &ray, 100000 * SCALE);
    assert_eq!(best, None);
    assert_eq!(t, 100000 * SCALE);
}

#[test]
fn shadow_empty_scene_is_zero() {
    let scene = Scene::new();
    let cfg = test_config(8, 10 * SCALE, 25);
    let sf = shadow(&scene, &Vec3::new(0, 0, 0), &Vec3::new(0, 10 * SCALE, 0), &cfg);
    assert_eq!(sf, 0);
}

#[test]
fn shadow_hard_light_is_binary() {
    // With a zero light radius every sample casts the same ray, so
    // the factor is exactly 0 or 1.
    let mut scene = Scene::new();
    scene.push(Sphere::boxed(Vec3::new(0, 5 * SCALE, 0), SCALE, plain(Vec3::new(SCALE, 0, 0))));
    let cfg = test_config(8, 0, 7);
    let blocked = shadow(&scene, &Vec3::new(0, 0, 0), &Vec3::new(0, 10 * SCALE, 0), &cfg);
    assert_eq!(blocked, SCALE);
    let open = shadow(&scene, &Vec3::new(0, 0, 0), &Vec3::new(0, -10 * SCALE, 0), &cfg);
    assert_eq!(open, 0);
}

#[test]
fn depth_zero_returns_ambient() {
    let amb = Vec3::new(55706, 6554, 6554);
    let surf = Sphere::boxed(Vec3::new(0, 0, 0), 2 * SCALE, plain(amb));
    let mut scene = Scene::new();
    scene.push(surf);
    let cfg = test_config(8, 0, 5);
    let ray = Ray { src: Vec3::new(0, 0, 3 * SCALE), dir: Vec3::new(0, 0, -SCALE) };
    let surf_again = Sphere::boxed(Vec3::new(0, 0, 0), 2 * SCALE, plain(amb));
    let c = surf_again.calculate_color(&scene, &ray, &Vec3::new(0, 0, 10 * SCALE), SCALE, 0, &cfg);
    assert_eq!(c, amb);
}

#[test]
fn unshadowed_nonreflective_ignores_depth() {
    // A non-reflective, unshadowed hit is pure local illumination, so
    // spending more recursion budget cannot change it.
    let amb = Vec3::new(55706, 6554, 6554);
    let surf = Sphere::boxed(Vec3::new(0, 0, 0), 2 * SCALE, plain(amb));
    let mut scene = Scene::new();
    scene.push(surf);
    let cfg = test_config(8, 0, 5);
    let ray = Ray { src: Vec3::new(0, 0, 3 * SCALE), dir: Vec3::new(0, 0, -SCALE) };
    let light = Vec3::new(0, 0, 10 * SCALE);
    let surf_a = Sphere::boxed(Vec3::new(0, 0, 0), 2 * SCALE, plain(amb));
    let c1 = surf_a.calculate_color(&scene, &ray, &light, SCALE, 1, &cfg);
    let c9 = surf_a.calculate_color(&scene, &ray, &light, SCALE, 9, &cfg);
    assert_eq!(c1, c9);
}

#[test]
fn camera_basis_axes() {
    let vr = ViewRay::new(Vec3::new(0, 0, 4 * SCALE), Vec3::new(0, 0, 0), 8);
    assert_eq!(vr.u, Vec3::new(-SCALE, 0, 0));
    assert_eq!(vr.v, Vec3::new(0, SCALE, 0));
    assert_eq!(vr.w, Vec3::new(0, 0, -SCALE));
    assert_eq!(vr.img_dim, SCALE / 4);
    let cfg = test_config(8, 0, 5);
    let ray = calculate_viewray(3, 3, &vr, &cfg);
    assert_eq!(ray.src, Vec3::new(0, 0, 4 * SCALE));
    assert!(ray.dir.z < 0);
}

#[test]
fn thread_render_fills_its_rectangle() {
    let scene = Scene::new();
    let cfg = test_config(8, 0, 5);
    let vr = ViewRay::new(Vec3::new(0, 0, 4 * SCALE), Vec3::new(0, 0, 0), 8);
    let q = thread_render(&scene, Vec3::new(0, 10 * SCALE, 0), &vr, 0, 4, 0, 4, &cfg);
    assert_eq!(q.img.len(), 16);
}

#[test]
fn empty_scene_renders_pure_background() {
    // Every primary ray misses, so each supersampled pixel is exactly
    // the background and the 2x2 averages introduce no drift.
    let scene = Scene::new();
    let cfg = test_config(4, 0, 5);
    let frame = render(
        &scene,
        Vec3::new(0, 0, 4 * SCALE),
        Vec3::new(0, 0, 0),
        Vec3::new(0, 10 * SCALE, 0),
        &cfg,
    );
    assert_eq!(frame.len(), 2);
    for row in &frame {
        assert_eq!(row.len(), 2);
        for c in row {
            assert_eq!(*c, cfg.background);
        }
    }
}

#[test]
fn rendered_sphere_keeps_dominant_channel() {
    // A large red sphere fills the view; the center output pixel's
    // dominant channel must match the ambient color's dominant
    // channel.
    let amb = Vec3::new(55706, 6554, 6554);
    let mut scene = Scene::new();
    scene.push(Sphere::boxed(Vec3::new(0, 0, 0), 2 * SCALE, plain(amb)));
    let cfg = test_config(8, 0, 5);
    let frame = render(
        &scene,
        Vec3::new(0, 0, 3 * SCALE),
        Vec3::new(0, 0, 0),
        Vec3::new(0, 0, 10 * SCALE),
        &cfg,
    );
    assert_eq!(frame.len(), 4);
    let center = &frame[1][1];
    assert!(center.x > center.y);
    assert!(center.x > center.z);
}

#[test]
fn standard_config_values() {
    let cfg = Config::standard();
    assert_eq!(cfg.max_depth, 10);
    assert_eq!(cfg.dim, 2000);
    assert_eq!(cfg.near, SCALE);
    assert_eq!(cfg.t1, 100000 * SCALE);
    assert_eq!(cfg.light_radius, 10 * SCALE);
    assert_eq!(cfg.shadow_samples, 50);
}

#[test]
fn surface_material_dispatch() {
    let amb = Vec3::new(1, 2, 3);
    let s = Sphere::boxed(Vec3::new(0, 0, 0), SCALE, plain(amb));
    assert_eq!(s.material().amb, amb);
    let t = Surface::Triangle(floor_triangle());
    assert_eq!(t.material().amb, Vec3::new(16384, 37175, 13583));
}

#[test]
fn checkerboard_darkens_alternate_cells() {
    // Two floor triangles differing only in the pattern flag, shaded
    // at the same points: a dark cell loses a fixed offset in every
    // channel, a light cell is untouched.
    let amb = Vec3::new(16384, 37175, 13583);
    let verts = (
        Vec3::new(-10 * SCALE, 0, -10 * SCALE),
        Vec3::new(-10 * SCALE, 0, 10 * SCALE),
        Vec3::new(10 * SCALE, 0, 10 * SCALE),
    );
    let patterned = Surface::Triangle(Triangle::new(verts.0, verts.1, verts.2, plain(amb), true));
    let smooth = Surface::Triangle(Triangle::new(verts.0, verts.1, verts.2, plain(amb), false));
    let scene = Scene::new();
    let cfg = test_config(8, 0, 5);
    let light = Vec3::new(0, 100 * SCALE, 0);
    // (0.5, 0.5) lies in a darkened cell.
    let dark_ray = Ray {
        src: Vec3::new(SCALE / 2, 5 * SCALE, SCALE / 2),
        dir: Vec3::new(0, -SCALE, 0),
    };
    let cd = patterned.calculate_color(&scene, &dark_ray, &light, 5 * SCALE, 5, &cfg);
    let cs = smooth.calculate_color(&scene, &dark_ray, &light, 5 * SCALE, 5, &cfg);
    assert!(cd.x < cs.x && cd.y < cs.y && cd.z < cs.z);
    // (1.5, 0.5) lies in an undarkened cell.
    let light_ray = Ray {
        src: Vec3::new(3 * SCALE / 2, 5 * SCALE, SCALE / 2),
        dir: Vec3::new(0, -SCALE, 0),
    };
    let ld = patterned.calculate_color(&scene, &light_ray, &light, 5 * SCALE, 5, &cfg);
    let ls = smooth.calculate_color(&scene, &light_ray, &light, 5 * SCALE, 5, &cfg);
    assert_eq!(ld, ls);
}

#[test]
fn mirror_sphere_reflects_background() {
    // A perfect mirror hit head-on bounces the ray straight back into
    // empty space, so the blend with weight 1.0 yields exactly the
    // background color, at any positive depth.
    let mirror = Material { amb: Vec3::new(9830, 9830, 9830), reflect: SCALE };
    let mut scene = Scene::new();
    scene.push(Sphere::boxed(Vec3::new(0, 0, 0), SCALE, mirror));
    let cfg = test_config(8, 0, 5);
    let ray = Ray { src: Vec3::new(0, 0, 4 * SCALE), dir: Vec3::new(0, 0, -SCALE) };
    let light = Vec3::new(0, 0, 10 * SCALE);
    let surf = Sphere::boxed(Vec3::new(0, 0, 0), SCALE, mirror);
    let c1 = surf.calculate_color(&scene, &ray, &light, 3 * SCALE, 1, &cfg);
    assert_eq!(c1, cfg.background);
    let c5 = surf.calculate_color(&scene, &ray, &light, 3 * SCALE, 5, &cfg);
    assert_eq!(c5, cfg.background);
}

#[test]
fn local_illumination_exact_head_on() {
    // Head-on hit with the light directly behind the camera and a zero
    // epsilon: normal, light direction, and the normalized halfway
    // vector are all exactly the axis, so both clamped dot products
    // are exactly one and each channel is (amb + 0.35 + 0.35) * 0.5.
    let amb = Vec3::new(55706, 6554, 6554);
    let mut scene = Scene::new();
    scene.push(Sphere::boxed(Vec3::new(0, 0, 0), 2 * SCALE, plain(amb)));
    let mut cfg = test_config(8, 0, 5);
    cfg.epsilon = 0;
    let ray = Ray { src: Vec3::new(0, 0, 4 * SCALE), dir: Vec3::new(0, 0, -SCALE) };
    let light = Vec3::new(0, 0, 10 * SCALE);
    let surf = Sphere::boxed(Vec3::new(0, 0, 0), 2 * SCALE, plain(amb));
    let c = surf.calculate_color(&scene, &ray, &light, 2 * SCALE, 5, &cfg);
    assert_eq!(c, Vec3::new(50790, 26214, 26214));
}
