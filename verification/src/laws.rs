//! Laws of the renderer, stated and proved over the same spec
//! functions the executable contracts use.

use vstd::prelude::*;
use vstd::arithmetic::div_mod::{
    lemma_div_pos_is_pos, lemma_div_is_ordered, lemma_basic_div, lemma_fundamental_div_mod,
};
use crate::fixed::{SCALE, fmul, fdiv, isqrt_spec, is_isqrt, lemma_isqrt_exists, lemma_isqrt_is};
use crate::vec3::{Vec3, V3, v3_sub, v3_dot};
use crate::scene::{Ray, Sphere, Surface, Config};
use crate::intersect::{
    spec_hit, spec_sphere_hit, spec_quadratic, spec_nearest, spec_nearest_hit, lemma_scan_none,
};
use crate::shade::{shade_post, spec_occluded};
use crate::camera::{ViewRay, spec_viewray};
use crate::render::{pixel_post, frame_post, block_post, spec_avg4, lemma_avg4_const};

verus! {

/// A ray that misses every surface never reaches the shading engine:
/// its pixel is exactly the background color.
pub proof fn lemma_miss_paints_background(
    surfs: Seq<Surface>,
    vr: ViewRay,
    light: Vec3,
    cfg: Config,
    x: int,
    y: int,
    c: V3,
)
    requires
        pixel_post(surfs, vr, light, cfg, x, y, c),
        forall|i: int|
            0 <= i < surfs.len() ==> (#[trigger] spec_hit(
                surfs[i],
                spec_viewray(x, y, vr, cfg.near as int),
                cfg.t1 as int,
            )) is None,
    ensures
        c == cfg.background@,
{
    let ray = spec_viewray(x, y, vr, cfg.near as int);
    lemma_scan_none(surfs, ray, cfg.t1 as int, surfs.len() as int);
    assert(spec_nearest_hit(surfs, ray, cfg.t1 as int).0 is None);
}

/// An exhausted recursion budget returns the surface's stored ambient
/// color exactly, independent of the ray and light inputs.
pub proof fn lemma_depth_exhausted_is_ambient(
    surfs: Seq<Surface>,
    surf: Surface,
    ray: Ray,
    t: int,
    light: V3,
    cfg: Config,
    res: V3,
)
    requires
        shade_post(surfs, surf, ray, t, light, cfg, 0, res),
    ensures
        res == surf.material_spec().amb@,
{
}

/// A ray whose origin is outside a sphere and whose direction points
/// away from the center reports no hit: both quadratic roots lie at
/// or below zero.
pub proof fn lemma_sphere_aimed_away_misses(s: Sphere, ray: Ray, t1: int)
    requires
        v3_dot(ray.dir@, v3_sub(ray.src@, s.center@)) >= 0,
        v3_dot(v3_sub(ray.src@, s.center@), v3_sub(ray.src@, s.center@)) - s.radius_sqr > 0,
    ensures
        spec_sphere_hit(s, ray, t1) is None,
{
    let emc = v3_sub(ray.src@, s.center@);
    let a = v3_dot(ray.dir@, ray.dir@);
    let b = 2 * v3_dot(ray.dir@, emc);
    let c = v3_dot(emc, emc) - s.radius_sqr;
    let sc = SCALE as int;
    if a > 0 {
        let disc = fmul(b, b) - 4 * fmul(a, c);
        if disc >= 0 {
            assert(a * c >= 1) by (nonlinear_arith)
                requires
                    a >= 1,
                    c >= 1;
            lemma_div_pos_is_pos(a * c, sc);
            lemma_fundamental_div_mod(b * b, sc);
            assert(disc <= (b * b) / sc);
            assert(disc * sc <= ((b * b) / sc) * sc) by (nonlinear_arith)
                requires
                    disc <= (b * b) / sc,
                    sc > 0;
            assert(((b * b) / sc) * sc <= b * b) by (nonlinear_arith)
                requires
                    b * b == sc * ((b * b) / sc) + (b * b) % sc,
                    (b * b) % sc >= 0;
            let ds = disc * sc;
            assert(disc * sc >= 0) by (nonlinear_arith)
                requires
                    disc >= 0,
                    sc > 0;
            lemma_isqrt_exists(ds);
            let sd = isqrt_spec(ds);
            assert(is_isqrt(ds, sd)) by {
                let w = choose|r: int| is_isqrt(ds, r);
                lemma_isqrt_is(ds, w);
            }
            assert(sd <= b) by (nonlinear_arith)
                requires
                    sd * sd <= ds,
                    ds <= b * b,
                    sd >= 0,
                    b >= 0;
            let pn = (-b + sd) * sc;
            let qn = (-b - sd) * sc;
            assert((-b + sd) * sc <= 0 && (-b - sd) * sc <= 0) by (nonlinear_arith)
                requires
                    sd <= b,
                    sd >= 0,
                    sc > 0;
            lemma_div_is_ordered(pn, 0, 2 * a);
            lemma_div_is_ordered(qn, 0, 2 * a);
            lemma_basic_div(0, 2 * a);
            assert(fdiv(-b + sd, 2 * a) <= 0);
            assert(fdiv(-b - sd, 2 * a) <= 0);
            assert(spec_quadratic(a, b, disc, t1) is None);
        }
    }
}

/// Occlusion is monotone in the scene: surfaces added to a scene
/// never unblock a shadow ray.
pub proof fn lemma_more_geometry_keeps_occlusion(
    s1: Seq<Surface>,
    s2: Seq<Surface>,
    ray: Ray,
    t1: int,
)
    requires
        s1.len() <= s2.len(),
        forall|i: int| 0 <= i < s1.len() ==> s2[i] == s1[i],
        spec_occluded(s1, ray, t1),
    ensures
        spec_occluded(s2, ray, t1),
{
    let i = choose|i: int| 0 <= i < s1.len() && (#[trigger] spec_hit(s1[i], ray, t1)) is Some;
    assert(spec_hit(s2[i], ray, t1) is Some);
}

/// All four supersample rays of one output pixel's 2x2 block miss
/// this surface.
pub open spec fn block_missed(surf: Surface, vr: ViewRay, cfg: Config, row: int, col: int) -> bool {
    let half = (cfg.dim / 2) as int;
    let xs = 2 * col;
    let ys = 2 * (half - 1 - row);
    &&& spec_hit(surf, spec_viewray(xs, ys, vr, cfg.near as int), cfg.t1 as int) is None
    &&& spec_hit(surf, spec_viewray(xs + 1, ys, vr, cfg.near as int), cfg.t1 as int) is None
    &&& spec_hit(surf, spec_viewray(xs, ys + 1, vr, cfg.near as int), cfg.t1 as int) is None
    &&& spec_hit(surf, spec_viewray(xs + 1, ys + 1, vr, cfg.near as int), cfg.t1 as int) is None
}

/// An output pixel whose whole supersample block misses every surface
/// is exactly the background color: the miss case paints the
/// background and the box filter does not drift on constant blocks.
pub proof fn lemma_missed_block_is_background(
    surfs: Seq<Surface>,
    vr: ViewRay,
    light: Vec3,
    cfg: Config,
    row: int,
    col: int,
    c: V3,
)
    requires
        frame_post(surfs, vr, light, cfg, row, col, c),
        forall|i: int| 0 <= i < surfs.len() ==> #[trigger] block_missed(surfs[i], vr, cfg, row, col),
    ensures
        c == cfg.background@,
{
    let half = (cfg.dim / 2) as int;
    let xs = 2 * col;
    let ys = 2 * (half - 1 - row);
    let cs = choose|cs: (V3, V3, V3, V3)|
        (#[trigger] block_post(surfs, vr, light, cfg, xs, ys, cs.0, cs.1, cs.2, cs.3)) && c
            == spec_avg4(cs.0, cs.1, cs.2, cs.3);
    assert forall|i: int|
        0 <= i < surfs.len() implies (#[trigger] spec_hit(
        surfs[i],
        spec_viewray(xs, ys, vr, cfg.near as int),
        cfg.t1 as int,
    )) is None by {
        assert(block_missed(surfs[i], vr, cfg, row, col));
    }
    assert forall|i: int|
        0 <= i < surfs.len() implies (#[trigger] spec_hit(
        surfs[i],
        spec_viewray(xs + 1, ys, vr, cfg.near as int),
        cfg.t1 as int,
    )) is None by {
        assert(block_missed(surfs[i], vr, cfg, row, col));
    }
    assert forall|i: int|
        0 <= i < surfs.len() implies (#[trigger] spec_hit(
        surfs[i],
        spec_viewray(xs, ys + 1, vr, cfg.near as int),
        cfg.t1 as int,
    )) is None by {
        assert(block_missed(surfs[i], vr, cfg, row, col));
    }
    assert forall|i: int|
        0 <= i < surfs.len() implies (#[trigger] spec_hit(
        surfs[i],
        spec_viewray(xs + 1, ys + 1, vr, cfg.near as int),
        cfg.t1 as int,
    )) is None by {
        assert(block_missed(surfs[i], vr, cfg, row, col));
    }
    lemma_miss_paints_background(surfs, vr, light, cfg, xs, ys, cs.0);
    lemma_miss_paints_background(surfs, vr, light, cfg, xs + 1, ys, cs.1);
    lemma_miss_paints_background(surfs, vr, light, cfg, xs, ys + 1, cs.2);
    lemma_miss_paints_background(surfs, vr, light, cfg, xs + 1, ys + 1, cs.3);
    lemma_avg4_const(cfg.background@);
}

} // verus!
