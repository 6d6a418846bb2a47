//! The shading engine: recursive depth-limited color evaluation with
//! local illumination, a procedural checkerboard, Monte-Carlo soft
//! shadows, and mirror reflections.
//!
//! The soft-shadow estimator draws random jitter offsets, so a shaded
//! color is not a function of its inputs alone. Each contract
//! therefore states what holds of every outcome: the result is the
//! exactly-specified local illumination for some shadow factor the
//! sampler could have produced, blended on reflective surfaces with a
//! reflection color that recursively satisfies the same contract; and
//! a point whose jittered light samples can never (respectively,
//! always) be occluded gets the shadow factor 0 (respectively, 1)
//! exactly.
//!
//! One deliberate design choice: the specular term is the clamped
//! dot product with the normalized halfway vector as it stands, with
//! no sharpening exponent applied.

use vstd::prelude::*;
use vstd::arithmetic::div_mod::{
    lemma_div_is_ordered, lemma_div_multiples_vanish, lemma_div_pos_is_pos,
};
use crate::fixed::{
    SCALE, RAW_MAX, clamp0, trem, fmul, div_floor, rem_trunc, largest_of, lemma_fmul_bound,
    lemma_mul_abs_bound, lemma_div_shrink_bound,
};
use crate::vec3::{
    Vec3, V3, bounded, v3_add, v3_sub, v3_neg, v3_scale, v3_dot, v3_normalize, v3_mix, mix,
};
use crate::scene::{
    Ray, Sphere, Triangle, Surface, Scene, Config, wf_ray, wf_sphere, wf_triangle, wf_surface,
    wf_scene, wf_config, T1_MAX, DIR_MAX, WORLD_MAX, POS_LIMIT, STEP_MAX, DEPTH_MAX, COLOR_MAX,
};
use crate::intersect::{spec_hit, spec_nearest_hit, nearest_hit};

verus! {

/// Diffuse and specular coefficients (0.35 for spheres; 0.25 diffuse
/// and 0.3 specular for triangles), the checkerboard darkening (0.2),
/// and the global light intensity halving, all in fixed-point units.
pub const SPHERE_COEF: i128 = 22937;

pub const TRI_DIFF: i128 = 16384;

pub const TRI_SPEC: i128 = 19660;

pub const DARKEN: i128 = 13107;

pub const HALF: i128 = 32768;

/// A vector with all three components equal.
pub open spec fn v3_splat(c: int) -> V3 {
    V3 { x: c, y: c, z: c }
}

/// The executable vector a spec-level one stands for (all components
/// must fit in `i128`).
pub open spec fn vec3_of(v: V3) -> Vec3 {
    Vec3 { x: v.x as i128, y: v.y as i128, z: v.z as i128 }
}

/// Where a ray meets a surface, pulled back by `eps` along the ray to
/// avoid re-hitting the surface.
pub open spec fn spec_hit_point(ray: Ray, t: int, eps: int) -> V3 {
    v3_add(ray.src@, v3_scale(ray.dir@, t - eps))
}

/// The world-space checkerboard: unit cells over the (x, z) plane,
/// with alternate cells darkened.
pub open spec fn spec_pattern_dark(p: V3) -> bool {
    let tx = trem(p.x + 10 * SCALE, 2 * SCALE);
    let tz = trem(p.z + 10 * SCALE, 2 * SCALE);
    (tx < SCALE && tz < SCALE) || (tx > SCALE && tz > SCALE)
}

/// Local illumination of a sphere hit, given the shadow factor `sf`:
/// ambient plus clamped diffuse and specular terms, scaled by the
/// unshadowed fraction and the global light intensity (in that order).
pub open spec fn spec_sphere_local(s: Sphere, ray: Ray, t: int, light: V3, eps: int, sf: int) -> V3 {
    let point = spec_hit_point(ray, t, eps);
    let normal = v3_normalize(v3_sub(point, s.center@));
    let light_dir = v3_normalize(v3_sub(light, point));
    let m1 = clamp0(v3_dot(normal, light_dir));
    let c1 = v3_add(s.material.amb@, v3_scale(v3_splat(SPHERE_COEF as int), m1));
    let hvec = v3_normalize(v3_add(light_dir, v3_neg(ray.dir@)));
    let m2 = clamp0(v3_dot(normal, hvec));
    let c2 = v3_add(c1, v3_scale(v3_splat(SPHERE_COEF as int), m2));
    v3_scale(v3_scale(c2, SCALE - sf), HALF as int)
}

/// Local illumination of a triangle hit: as for spheres but with the
/// precomputed face normal, the optional checkerboard darkening, the
/// triangle coefficients, and the shadow factor applied after the
/// intensity scaling rather than before it.
pub open spec fn spec_triangle_local(tr: Triangle, ray: Ray, t: int, light: V3, eps: int, sf: int) -> V3 {
    let point = spec_hit_point(ray, t, eps);
    let normal = tr.normal@;
    let base = if tr.pattern && spec_pattern_dark(point) {
        v3_sub(tr.material.amb@, v3_splat(DARKEN as int))
    } else {
        tr.material.amb@
    };
    let light_dir = v3_normalize(v3_sub(light, point));
    let m1 = clamp0(v3_dot(normal, light_dir));
    let c1 = v3_add(base, v3_scale(v3_splat(TRI_DIFF as int), m1));
    let hvec = v3_normalize(v3_add(light_dir, v3_neg(ray.dir@)));
    let m2 = clamp0(v3_dot(normal, hvec));
    let c2 = v3_add(c1, v3_scale(v3_splat(TRI_SPEC as int), m2));
    v3_scale(v3_scale(c2, HALF as int), SCALE - sf)
}

/// Local illumination of any surface hit.
pub open spec fn spec_local(surf: Surface, ray: Ray, t: int, light: V3, eps: int, sf: int) -> V3 {
    match surf {
        Surface::Sphere(s) => spec_sphere_local(s, ray, t, light, eps, sf),
        Surface::Triangle(tr) => spec_triangle_local(tr, ray, t, light, eps, sf),
    }
}

/// A shaded color: the local illumination, blended with a reflection
/// color `rc` when the material is reflective.
pub open spec fn shade_combine(
    surf: Surface,
    ray: Ray,
    t: int,
    light: V3,
    eps: int,
    sf: int,
    rc: V3,
) -> V3 {
    let local = spec_local(surf, ray, t, light, eps, sf);
    if surf.material_spec().reflect > 0 {
        v3_mix(local, rc, surf.material_spec().reflect as int)
    } else {
        local
    }
}

/// The surface normal at a hit point: outward from a sphere's
/// center, or a triangle's precomputed face normal.
pub open spec fn spec_surface_normal(surf: Surface, point: V3) -> V3 {
    match surf {
        Surface::Sphere(s) => v3_normalize(v3_sub(point, s.center@)),
        Surface::Triangle(tr) => tr.normal@,
    }
}

/// What `calculate_color` promises of its result: at depth zero the
/// raw ambient color; otherwise, for some shadow factor the sampler
/// could have produced, the exact local illumination -- blended, on a
/// reflective surface, with a reflection color that itself satisfies
/// the mirror-ray contract one level down. Everything but the drawn
/// shadow factors is pinned exactly.
pub open spec fn shade_post(
    surfs: Seq<Surface>,
    surf: Surface,
    ray: Ray,
    t: int,
    light: V3,
    cfg: Config,
    depth: int,
    res: V3,
) -> bool
    decreases depth, 1int,
{
    &&& bounded(res, COLOR_MAX as int)
    &&& depth <= 0 ==> res == surf.material_spec().amb@
    &&& depth > 0 ==> exists|sf: int, rc: V3|
        {
            let point = spec_hit_point(ray, t, cfg.epsilon as int);
            &&& 0 <= sf <= SCALE
            &&& bounded(rc, COLOR_MAX as int)
            &&& surf.material_spec().reflect > 0 ==> reflect_post(
                surfs,
                point,
                ray.dir@,
                spec_surface_normal(surf, point),
                light,
                cfg,
                depth - 1,
                rc,
            )
            &&& res == #[trigger] shade_combine(surf, ray, t, light, cfg.epsilon as int, sf, rc)
        }
}

/// The shadow ray toward a jittered light sample.
pub open spec fn spec_shadow_ray(point: Vec3, light: Vec3, ox: int, oy: int, oz: int) -> Ray {
    let light_loc = V3 { x: light@.x + ox, y: light@.y + oy, z: light@.z + oz };
    let dirv = v3_normalize(v3_sub(light_loc, point@));
    Ray { src: point, dir: vec3_of(dirv) }
}

/// Some surface blocks the given ray.
pub open spec fn spec_occluded(surfs: Seq<Surface>, ray: Ray, t1: int) -> bool {
    exists|i: int| 0 <= i < surfs.len() && (#[trigger] spec_hit(surfs[i], ray, t1)) is Some
}

/// No jittered light sample within `radius` can be occluded from
/// `point`: the point receives the full light.
pub open spec fn spec_clear(
    surfs: Seq<Surface>,
    point: Vec3,
    light: Vec3,
    radius: int,
    t1: int,
) -> bool {
    forall|ox: int, oy: int, oz: int|
        -radius <= ox <= radius && -radius <= oy <= radius && -radius <= oz <= radius
            ==> !spec_occluded(surfs, #[trigger] spec_shadow_ray(point, light, ox, oy, oz), t1)
}

/// Every jittered light sample within `radius` is occluded from
/// `point`: the point sees none of the light.
pub open spec fn spec_blocked(
    surfs: Seq<Surface>,
    point: Vec3,
    light: Vec3,
    radius: int,
    t1: int,
) -> bool {
    forall|ox: int, oy: int, oz: int|
        -radius <= ox <= radius && -radius <= oy <= radius && -radius <= oz <= radius
            ==> spec_occluded(surfs, #[trigger] spec_shadow_ray(point, light, ox, oy, oz), t1)
}

/// The estimated shadow factor when `cnt` of `n` samples were
/// occluded.
pub open spec fn shadow_factor(cnt: int, n: int) -> int {
    (cnt * SCALE) / n
}

/// The shadow factor is non-decreasing in the occlusion count: more
/// blocked samples never make a point brighter.
pub proof fn lemma_shadow_factor_monotone(c1: int, c2: int, n: int)
    requires
        0 <= c1 <= c2,
        1 <= n,
    ensures
        shadow_factor(c1, n) <= shadow_factor(c2, n),
{
    assert(c1 * SCALE <= c2 * SCALE) by (nonlinear_arith)
        requires
            c1 <= c2,
            SCALE > 0;
    lemma_div_is_ordered(c1 * SCALE, c2 * SCALE, n);
}

/// Relies on rand::random_range: a uniform draw from the inclusive
/// range `[-radius, radius]`, which is nonempty since `radius >= 0`.
#[verifier::external_body]
fn jitter(radius: i128) -> (r: i128)
    requires
        0 <= radius,
    ensures
        -radius <= r <= radius,
{
    rand::random_range(-radius..=radius)
}

/// Does any surface block this ray?
pub fn any_hit(scene: &Scene, ray: &Ray, t1: i128) -> (r: bool)
    requires
        wf_scene(*scene),
        wf_ray(*ray),
        0 < t1 <= T1_MAX,
    ensures
        r == spec_occluded(scene.surfaces@, *ray, t1 as int),
{
    let n: usize = scene.surfaces.len();
    let mut idx: usize = 0;
    while idx < n
        invariant
            0 <= idx <= n,
            n == scene.surfaces@.len(),
            wf_scene(*scene),
            wf_ray(*ray),
            0 < t1 <= T1_MAX,
            forall|i: int| 0 <= i < idx ==> !((#[trigger] spec_hit(scene.surfaces@[i], *ray, t1 as int)) is Some),
        decreases n - idx,
    {
        let s = &scene.surfaces[idx];
        if s.hit(ray, t1).is_some() {
            return true;
        }
        idx = idx + 1;
    }
    false
}

/// For the given point, estimate how much of the area light is
/// occluded: cast `shadow_samples` rays toward independently jittered
/// light positions and return the occluded fraction in `[0, SCALE]`.
/// With a zero light radius every sample is the same ray, so the
/// factor is exactly 0 or `SCALE`; a point no jittered sample can be
/// blocked from gets exactly 0, and one every sample is blocked from
/// gets exactly `SCALE`.
pub fn shadow(scene: &Scene, point: &Vec3, light_pos: &Vec3, cfg: &Config) -> (sf: i128)
    requires
        wf_scene(*scene),
        wf_config(*cfg),
        bounded(point@, POS_LIMIT as int),
        bounded(light_pos@, WORLD_MAX as int),
    ensures
        0 <= sf <= SCALE,
        exists|cnt: int|
            0 <= cnt <= cfg.shadow_samples && sf == #[trigger] shadow_factor(
                cnt,
                cfg.shadow_samples as int,
            ),
        cfg.light_radius == 0 ==> sf == 0 || sf == SCALE,
        spec_clear(scene.surfaces@, *point, *light_pos, cfg.light_radius as int, cfg.t1 as int)
            ==> sf == 0,
        spec_blocked(scene.surfaces@, *point, *light_pos, cfg.light_radius as int, cfg.t1 as int)
            ==> sf == SCALE,
{
    let ghost surfs = scene.surfaces@;
    let ghost clear = spec_clear(surfs, *point, *light_pos, cfg.light_radius as int, cfg.t1 as int);
    let ghost blocked = spec_blocked(
        surfs,
        *point,
        *light_pos,
        cfg.light_radius as int,
        cfg.t1 as int,
    );
    let n: u32 = cfg.shadow_samples;
    let mut count: u32 = 0;
    let mut s: u32 = 0;
    while s < n
        invariant
            0 <= s <= n,
            1 <= n <= 100000,
            0 <= count <= s,
            wf_scene(*scene),
            wf_config(*cfg),
            n == cfg.shadow_samples,
            bounded(point@, POS_LIMIT as int),
            bounded(light_pos@, WORLD_MAX as int),
            clear == spec_clear(surfs, *point, *light_pos, cfg.light_radius as int, cfg.t1 as int),
            blocked == spec_blocked(
                surfs,
                *point,
                *light_pos,
                cfg.light_radius as int,
                cfg.t1 as int,
            ),
            surfs == scene.surfaces@,
            clear ==> count == 0,
            blocked ==> count == s,
            cfg.light_radius == 0 ==> {
                let fixed_ray = spec_shadow_ray(*point, *light_pos, 0, 0, 0);
                if spec_occluded(surfs, fixed_ray, cfg.t1 as int) {
                    count == s
                } else {
                    count == 0
                }
            },
        decreases n - s,
    {
        let jx: i128 = jitter(cfg.light_radius);
        let jy: i128 = jitter(cfg.light_radius);
        let jz: i128 = jitter(cfg.light_radius);
        let light_loc = light_pos.add(&Vec3::new(jx, jy, jz));
        let to_light = light_loc.sub(point);
        let light_dir = to_light.normalize();
        let light_ray = Ray { src: *point, dir: light_dir };
        proof {
            assert(light_ray == spec_shadow_ray(*point, *light_pos, jx as int, jy as int, jz as int));
        }
        let occ = any_hit(scene, &light_ray, cfg.t1);
        if occ {
            count = count + 1;
        }
        s = s + 1;
    }
    let sf: i128 = div_floor((count as i128) * SCALE, n as i128);
    proof {
        let ci = count as int;
        let ni = n as int;
        lemma_div_pos_is_pos(ci * SCALE, ni);
        assert(ci * SCALE <= ni * SCALE) by (nonlinear_arith)
            requires
                ci <= ni,
                SCALE > 0;
        lemma_div_is_ordered(ci * SCALE, ni * SCALE, ni);
        lemma_div_multiples_vanish(SCALE as int, ni);
        assert(ni * SCALE == ni * (SCALE as int));
        assert(sf == shadow_factor(ci, ni));
        if count == 0 {
            vstd::arithmetic::div_mod::lemma_basic_div(0, ni);
            assert(ci * SCALE == 0) by (nonlinear_arith)
                requires
                    ci == 0;
        }
        if count == n {
            assert(ci * SCALE == ni * (SCALE as int));
        }
    }
    sf
}

/// The position budget: a ray origin reached with `depth` reflection
/// bounces still to go must leave room for that many more
/// displacements.
pub open spec fn in_budget(v: V3, depth: int) -> bool {
    bounded(v, POS_LIMIT - depth * STEP_MAX)
}

/// The mirror direction for an incoming `view_dir` at a surface with
/// the given normal.
pub open spec fn spec_reflect_dir(view_dir: V3, normal: V3) -> V3 {
    v3_normalize(v3_sub(view_dir, v3_scale(normal, 2 * v3_dot(view_dir, normal))))
}

/// What `reflect` promises: the background color when the depth is
/// exhausted or the mirror ray escapes the scene, and otherwise a
/// color satisfying the shading contract for the surface the mirror
/// ray first meets.
pub open spec fn reflect_post(
    surfs: Seq<Surface>,
    point: V3,
    view_dir: V3,
    normal: V3,
    light: V3,
    cfg: Config,
    depth: int,
    res: V3,
) -> bool
    decreases depth, 2int,
{
    &&& bounded(res, COLOR_MAX as int)
    &&& depth <= 0 ==> res == cfg.background@
    &&& depth > 0 ==> {
        let ray = Ray { src: vec3_of(point), dir: vec3_of(spec_reflect_dir(view_dir, normal)) };
        let scan = spec_nearest_hit(surfs, ray, cfg.t1 as int);
        match scan.0 {
            Some(k) => shade_post(surfs, surfs[k], ray, scan.1, light, cfg, depth, res),
            None => res == cfg.background@,
        }
    }
}

/// Cast a mirror ray from `point` and shade whatever it first hits;
/// the background color when nothing is hit or the recursion budget
/// is spent.
pub fn reflect(
    scene: &Scene,
    point: &Vec3,
    view_dir: &Vec3,
    normal: &Vec3,
    light_pos: &Vec3,
    depth: u32,
    cfg: &Config,
) -> (r: Vec3)
    requires
        wf_scene(*scene),
        wf_config(*cfg),
        in_budget(point@, depth as int),
        bounded(view_dir@, DIR_MAX as int),
        bounded(normal@, DIR_MAX as int),
        bounded(light_pos@, WORLD_MAX as int),
        depth <= DEPTH_MAX,
    ensures
        reflect_post(
            scene.surfaces@,
            point@,
            view_dir@,
            normal@,
            light_pos@,
            *cfg,
            depth as int,
            r@,
        ),
    decreases depth, 2int,
{
    if depth == 0 {
        return cfg.background;
    }
    proof {
        crate::vec3::lemma_dot_bound(view_dir@, normal@, DIR_MAX as int, DIR_MAX as int);
        lemma_mul_abs_bound(normal@.x, 2 * v3_dot(view_dir@, normal@), DIR_MAX as int, 0x40_0000_0000);
        lemma_mul_abs_bound(normal@.y, 2 * v3_dot(view_dir@, normal@), DIR_MAX as int, 0x40_0000_0000);
        lemma_mul_abs_bound(normal@.z, 2 * v3_dot(view_dir@, normal@), DIR_MAX as int, 0x40_0000_0000);
        lemma_div_shrink_bound(normal@.x * (2 * v3_dot(view_dir@, normal@)), SCALE as int, DIR_MAX as int * 0x40_0000_0000);
        lemma_div_shrink_bound(normal@.y * (2 * v3_dot(view_dir@, normal@)), SCALE as int, DIR_MAX as int * 0x40_0000_0000);
        lemma_div_shrink_bound(normal@.z * (2 * v3_dot(view_dir@, normal@)), SCALE as int, DIR_MAX as int * 0x40_0000_0000);
    }
    let dot_n: i128 = 2 * view_dir.dot(normal);
    let dir_vec = normal.scale(dot_n);
    let ray_dir = view_dir.sub(&dir_vec).normalize();
    let ray = Ray { src: *point, dir: ray_dir };
    proof {
        assert(ray == (Ray { src: vec3_of(point@), dir: vec3_of(spec_reflect_dir(view_dir@, normal@)) }));
    }
    let scan = nearest_hit(scene, &ray, cfg.t1);
    match scan.0 {
        Some(k) => {
            let surf = scene.surfaces[k];
            surf.calculate_color(scene, &ray, light_pos, scan.1, depth, cfg)
        },
        None => cfg.background,
    }
}

impl Surface {
    /// Shade a hit on this surface: dispatch to the variant's
    /// evaluation.
    pub fn calculate_color(
        &self,
        scene: &Scene,
        ray: &Ray,
        light_pos: &Vec3,
        t: i128,
        depth: u32,
        cfg: &Config,
    ) -> (r: Vec3)
        requires
            wf_surface(*self),
            wf_scene(*scene),
            wf_config(*cfg),
            wf_ray(*ray),
            in_budget(ray.src@, depth as int),
            bounded(light_pos@, WORLD_MAX as int),
            0 <= t <= cfg.t1,
            depth <= DEPTH_MAX,
        ensures
            shade_post(
                scene.surfaces@,
                *self,
                *ray,
                t as int,
                light_pos@,
                *cfg,
                depth as int,
                r@,
            ),
            depth > 0 && self.material_spec().reflect == 0 && spec_clear(
                scene.surfaces@,
                vec3_of(spec_hit_point(*ray, t as int, cfg.epsilon as int)),
                *light_pos,
                cfg.light_radius as int,
                cfg.t1 as int,
            ) ==> r@ == spec_local(*self, *ray, t as int, light_pos@, cfg.epsilon as int, 0),
        decreases depth, 1int,
    {
        match self {
            Surface::Sphere(s) => s.calculate_color(scene, ray, light_pos, t, depth, cfg),
            Surface::Triangle(tr) => tr.calculate_color(scene, ray, light_pos, t, depth, cfg),
        }
    }
}

/// The hit point's displacement from the ray origin stays within one
/// bounce budget, so the point is in budget for one less depth.
proof fn lemma_hit_point_bounds(ray: Ray, t: int, eps: int, depth: int)
    requires
        wf_ray(ray),
        in_budget(ray.src@, depth),
        1 <= depth <= DEPTH_MAX as int,
        0 <= t <= T1_MAX,
        0 <= eps <= SCALE,
    ensures
        -RAW_MAX <= ray.dir@.x * (t - eps) <= RAW_MAX,
        -RAW_MAX <= ray.dir@.y * (t - eps) <= RAW_MAX,
        -RAW_MAX <= ray.dir@.z * (t - eps) <= RAW_MAX,
        in_budget(spec_hit_point(ray, t, eps), depth - 1),
        bounded(spec_hit_point(ray, t, eps), POS_LIMIT as int),
{
    lemma_fmul_bound(ray.dir@.x, t - eps, DIR_MAX as int, T1_MAX as int);
    lemma_fmul_bound(ray.dir@.y, t - eps, DIR_MAX as int, T1_MAX as int);
    lemma_fmul_bound(ray.dir@.z, t - eps, DIR_MAX as int, T1_MAX as int);
}

impl Sphere {
    /// Shade a sphere hit: ambient, diffuse and specular terms against
    /// the outward normal, shadow attenuation, then the reflective
    /// blend.
    pub fn calculate_color(
        &self,
        scene: &Scene,
        ray: &Ray,
        light_pos: &Vec3,
        t: i128,
        depth: u32,
        cfg: &Config,
    ) -> (r: Vec3)
        requires
            wf_sphere(*self),
            wf_scene(*scene),
            wf_config(*cfg),
            wf_ray(*ray),
            in_budget(ray.src@, depth as int),
            bounded(light_pos@, WORLD_MAX as int),
            0 <= t <= cfg.t1,
            depth <= DEPTH_MAX,
        ensures
            shade_post(
                scene.surfaces@,
                Surface::Sphere(*self),
                *ray,
                t as int,
                light_pos@,
                *cfg,
                depth as int,
                r@,
            ),
            depth > 0 && self.material.reflect == 0 && spec_clear(
                scene.surfaces@,
                vec3_of(spec_hit_point(*ray, t as int, cfg.epsilon as int)),
                *light_pos,
                cfg.light_radius as int,
                cfg.t1 as int,
            ) ==> r@ == spec_local(
                Surface::Sphere(*self),
                *ray,
                t as int,
                light_pos@,
                cfg.epsilon as int,
                0,
            ),
        decreases depth, 0int,
    {
        if depth == 0 {
            return self.material.amb;
        }
        proof {
            lemma_hit_point_bounds(*ray, t as int, cfg.epsilon as int, depth as int);
        }
        let point = ray.src.add(&ray.dir.scale(t - cfg.epsilon));
        let normal = point.sub(&self.center).normalize();
        let sf = shadow(scene, &point, light_pos, cfg);
        let light_dir = light_pos.sub(&point).normalize();
        proof {
            crate::vec3::lemma_dot_bound(normal@, light_dir@, DIR_MAX as int, DIR_MAX as int);
        }
        let max1 = largest_of(normal.dot(&light_dir));
        proof {
            lemma_fmul_bound(SPHERE_COEF as int, max1 as int, SCALE as int, 27 * SCALE + 1);
        }
        let coef = Vec3::new(SPHERE_COEF, SPHERE_COEF, SPHERE_COEF);
        let mut mat = self.material.amb.add(&coef.scale(max1));
        let h = light_dir.add(&ray.dir.neg()).normalize();
        proof {
            crate::vec3::lemma_dot_bound(normal@, h@, DIR_MAX as int, DIR_MAX as int);
        }
        let max2 = largest_of(normal.dot(&h));
        proof {
            lemma_fmul_bound(SPHERE_COEF as int, max2 as int, SCALE as int, 27 * SCALE + 1);
        }
        mat = mat.add(&coef.scale(max2));
        proof {
            lemma_scale_unit_bound(mat@, (SCALE - sf) as int, 0x1_4000_0000);
            lemma_scale_unit_bound(v3_scale(mat@, (SCALE - sf) as int), HALF as int, 0x1_4000_0000);
        }
        mat = mat.scale(SCALE - sf).scale(HALF);
        let ghost local = spec_local(
            Surface::Sphere(*self),
            *ray,
            t as int,
            light_pos@,
            cfg.epsilon as int,
            sf as int,
        );
        proof {
            assert(mat@ == local);
            assert(point == vec3_of(spec_hit_point(*ray, t as int, cfg.epsilon as int)));
        }
        if self.material.reflect > 0 {
            let rc = reflect(scene, &point, &ray.dir, &normal, light_pos, depth - 1, cfg);
            let res = mix(&mat, &rc, self.material.reflect);
            proof {
                lemma_mix_color_bound(mat@, rc@, self.material.reflect as int, COLOR_MAX as int);
                let pt = spec_hit_point(*ray, t as int, cfg.epsilon as int);
                assert(point@ == pt);
                assert(normal@ == spec_surface_normal(Surface::Sphere(*self), pt));
                assert(reflect_post(
                    scene.surfaces@,
                    pt,
                    ray.dir@,
                    spec_surface_normal(Surface::Sphere(*self), pt),
                    light_pos@,
                    *cfg,
                    depth - 1,
                    rc@,
                ));
                assert(res@ == shade_combine(
                    Surface::Sphere(*self),
                    *ray,
                    t as int,
                    light_pos@,
                    cfg.epsilon as int,
                    sf as int,
                    rc@,
                ));
            }
            res
        } else {
            proof {
                assert(mat@ == shade_combine(
                    Surface::Sphere(*self),
                    *ray,
                    t as int,
                    light_pos@,
                    cfg.epsilon as int,
                    sf as int,
                    (V3 { x: 0, y: 0, z: 0 }),
                ));
            }
            mat
        }
    }
}

impl Triangle {
    /// Shade a triangle hit: the precomputed face normal, the optional
    /// checkerboard darkening, diffuse and specular terms, shadow
    /// attenuation, then the reflective blend.
    pub fn calculate_color(
        &self,
        scene: &Scene,
        ray: &Ray,
        light_pos: &Vec3,
        t: i128,
        depth: u32,
        cfg: &Config,
    ) -> (r: Vec3)
        requires
            wf_triangle(*self),
            wf_scene(*scene),
            wf_config(*cfg),
            wf_ray(*ray),
            in_budget(ray.src@, depth as int),
            bounded(light_pos@, WORLD_MAX as int),
            0 <= t <= cfg.t1,
            depth <= DEPTH_MAX,
        ensures
            shade_post(
                scene.surfaces@,
                Surface::Triangle(*self),
                *ray,
                t as int,
                light_pos@,
                *cfg,
                depth as int,
                r@,
            ),
            depth > 0 && self.material.reflect == 0 && spec_clear(
                scene.surfaces@,
                vec3_of(spec_hit_point(*ray, t as int, cfg.epsilon as int)),
                *light_pos,
                cfg.light_radius as int,
                cfg.t1 as int,
            ) ==> r@ == spec_local(
                Surface::Triangle(*self),
                *ray,
                t as int,
                light_pos@,
                cfg.epsilon as int,
                0,
            ),
        decreases depth, 0int,
    {
        if depth == 0 {
            return self.material.amb;
        }
        proof {
            lemma_hit_point_bounds(*ray, t as int, cfg.epsilon as int, depth as int);
        }
        let point = ray.src.add(&ray.dir.scale(t - cfg.epsilon));
        let normal = self.normal;
        let sf = shadow(scene, &point, light_pos, cfg);
        let mut mat = self.material.amb;
        if self.pattern {
            let tx = rem_trunc(point.x + 10 * SCALE, 2 * SCALE);
            let tz = rem_trunc(point.z + 10 * SCALE, 2 * SCALE);
            if tx < SCALE && tz < SCALE || tx > SCALE && tz > SCALE {
                mat = mat.sub(&Vec3::new(DARKEN, DARKEN, DARKEN));
            }
        }
        let light_dir = light_pos.sub(&point).normalize();
        proof {
            crate::vec3::lemma_dot_bound(normal@, light_dir@, DIR_MAX as int, DIR_MAX as int);
        }
        let max1 = largest_of(normal.dot(&light_dir));
        proof {
            lemma_fmul_bound(TRI_DIFF as int, max1 as int, SCALE as int, 27 * SCALE + 1);
        }
        mat = mat.add(&Vec3::new(TRI_DIFF, TRI_DIFF, TRI_DIFF).scale(max1));
        let h = light_dir.add(&ray.dir.neg()).normalize();
        proof {
            crate::vec3::lemma_dot_bound(normal@, h@, DIR_MAX as int, DIR_MAX as int);
        }
        let max2 = largest_of(normal.dot(&h));
        proof {
            lemma_fmul_bound(TRI_SPEC as int, max2 as int, SCALE as int, 27 * SCALE + 1);
        }
        mat = mat.add(&Vec3::new(TRI_SPEC, TRI_SPEC, TRI_SPEC).scale(max2));
        proof {
            lemma_scale_unit_bound(mat@, HALF as int, 0x1_4000_0000);
            lemma_scale_unit_bound(v3_scale(mat@, HALF as int), (SCALE - sf) as int, 0x1_4000_0000);
        }
        mat = mat.scale(HALF).scale(SCALE - sf);
        let ghost local = spec_local(
            Surface::Triangle(*self),
            *ray,
            t as int,
            light_pos@,
            cfg.epsilon as int,
            sf as int,
        );
        proof {
            assert(mat@ == local);
            assert(point == vec3_of(spec_hit_point(*ray, t as int, cfg.epsilon as int)));
        }
        if self.material.reflect > 0 {
            let rc = reflect(scene, &point, &ray.dir, &normal, light_pos, depth - 1, cfg);
            let res = mix(&mat, &rc, self.material.reflect);
            proof {
                lemma_mix_color_bound(mat@, rc@, self.material.reflect as int, COLOR_MAX as int);
                let pt = spec_hit_point(*ray, t as int, cfg.epsilon as int);
                assert(point@ == pt);
                assert(normal@ == spec_surface_normal(Surface::Triangle(*self), pt));
                assert(reflect_post(
                    scene.surfaces@,
                    pt,
                    ray.dir@,
                    spec_surface_normal(Surface::Triangle(*self), pt),
                    light_pos@,
                    *cfg,
                    depth - 1,
                    rc@,
                ));
                assert(res@ == shade_combine(
                    Surface::Triangle(*self),
                    *ray,
                    t as int,
                    light_pos@,
                    cfg.epsilon as int,
                    sf as int,
                    rc@,
                ));
            }
            res
        } else {
            proof {
                assert(mat@ == shade_combine(
                    Surface::Triangle(*self),
                    *ray,
                    t as int,
                    light_pos@,
                    cfg.epsilon as int,
                    sf as int,
                    (V3 { x: 0, y: 0, z: 0 }),
                ));
            }
            mat
        }
    }
}

/// Scaling by a fixed-point factor in `[0, SCALE]` keeps a color
/// within its bound.
proof fn lemma_scale_unit_bound(v: V3, s: int, cmax: int)
    requires
        bounded(v, cmax),
        0 <= s <= SCALE,
        0 <= cmax <= crate::fixed::NUM_MAX,
    ensures
        bounded(v3_scale(v, s), cmax),
        -RAW_MAX <= v.x * s <= RAW_MAX,
        -RAW_MAX <= v.y * s <= RAW_MAX,
        -RAW_MAX <= v.z * s <= RAW_MAX,
{
    lemma_scale_unit_component(v.x, s, cmax);
    lemma_scale_unit_component(v.y, s, cmax);
    lemma_scale_unit_component(v.z, s, cmax);
}

proof fn lemma_scale_unit_component(x: int, s: int, cmax: int)
    requires
        -cmax <= x <= cmax,
        0 <= s <= SCALE,
        0 <= cmax <= crate::fixed::NUM_MAX,
    ensures
        -cmax <= fmul(x, s) <= cmax,
        -RAW_MAX <= x * s <= RAW_MAX,
{
    lemma_mul_abs_bound(x, s, cmax, SCALE as int);
    assert(cmax * SCALE <= RAW_MAX) by (nonlinear_arith)
        requires
            0 <= cmax <= 0x4000_0000_0000_0000_0000_0000_0000,
            SCALE == 65536,
            RAW_MAX == 0x4000_0000_0000_0000_0000_0000_0000_0000;
    assert(x * s <= cmax * SCALE);
    lemma_div_is_ordered(x * s, cmax * SCALE, SCALE as int);
    lemma_div_is_ordered(-(cmax * (SCALE as int)), x * s, SCALE as int);
    lemma_div_multiples_vanish(cmax, SCALE as int);
    lemma_div_multiples_vanish(-cmax, SCALE as int);
    assert(cmax * (SCALE as int) == (SCALE as int) * cmax) by (nonlinear_arith);
    assert(-(cmax * (SCALE as int)) == (SCALE as int) * (-cmax)) by (nonlinear_arith);
}

/// Blending two colors within a common bound stays within that bound.
proof fn lemma_mix_color_bound(a: V3, b: V3, alpha: int, cmax: int)
    requires
        bounded(a, cmax),
        bounded(b, cmax),
        0 <= alpha <= SCALE,
        0 <= cmax,
    ensures
        bounded(v3_mix(a, b, alpha), cmax),
{
    lemma_mix_color_component(a.x, b.x, alpha, cmax);
    lemma_mix_color_component(a.y, b.y, alpha, cmax);
    lemma_mix_color_component(a.z, b.z, alpha, cmax);
}

proof fn lemma_mix_color_component(x: int, y: int, alpha: int, cmax: int)
    requires
        -cmax <= x <= cmax,
        -cmax <= y <= cmax,
        0 <= alpha <= SCALE,
        0 <= cmax,
    ensures
        -cmax <= ((SCALE - alpha) * x + alpha * y) / (SCALE as int) <= cmax,
{
    let s = SCALE as int;
    assert((s - alpha) * x + alpha * y <= s * cmax && (s - alpha) * x + alpha * y >= -(s * cmax))
        by (nonlinear_arith)
        requires
            -cmax <= x <= cmax,
            -cmax <= y <= cmax,
            0 <= alpha <= s,
            0 <= cmax;
    lemma_div_is_ordered((s - alpha) * x + alpha * y, s * cmax, s);
    lemma_div_is_ordered(-(s * cmax), (s - alpha) * x + alpha * y, s);
    lemma_div_multiples_vanish(cmax, s);
    lemma_div_multiples_vanish(-cmax, s);
    assert(-(s * cmax) == s * (-cmax)) by (nonlinear_arith);
}

} // verus!
