//! The scene model: materials, surfaces (spheres and triangles), rays,
//! the render configuration, and their well-formedness predicates.
//!
//! The well-formedness bounds are machine limits: they keep every
//! intermediate fixed-point product inside `i128` through the deepest
//! reflection recursion. They are far wider than any sensible scene.

use vstd::prelude::*;
use crate::fixed::SCALE;
use crate::vec3::{Vec3, V3, bounded, v3_sub, v3_cross, v3_normalize, NORM_MAX};
use crate::fixed::{fmul, RAW_MAX, lemma_mul_abs_bound, lemma_div_shrink_bound, lemma_div_abs_bound};

verus! {

/// Bound on scene geometry, eye, and light coordinates.
pub const WORLD_MAX: i128 = 0x40_0000_0000;

/// Bound on triangle vertices handed to `Triangle::new`, tight enough
/// that the face-normal cross product stays in `normalize`'s domain.
pub const TRI_MAX: i128 = 0x2_0000_0000;

/// Bound on any ray origin reached during shading, including points
/// displaced by up to `DEPTH_MAX` reflection bounces.
pub const POS_LIMIT: i128 = 0x100_0000_0000;

/// Farthest a single bounce can displace a ray origin.
pub const STEP_MAX: i128 = 0x8_0000_0000;

/// Largest admitted reflection recursion depth.
pub const DEPTH_MAX: u32 = 16;

/// Largest admitted far bound for the ray parameter.
pub const T1_MAX: i128 = 0x2_0000_0000;

/// Bound on a unit direction's components after normalization.
pub const DIR_MAX: i128 = 3 * SCALE;

/// Bound on ambient and background color components.
pub const AMB_MAX: i128 = 0x1_0000_0000;

/// Bound on any color a shading evaluation can produce.
pub const COLOR_MAX: i128 = 0x2_0000_0000;

/// Bound on a sphere's stored squared radius.
pub const RSQ_MAX: i128 = 0x1000_0000_0000_0000;

/// A surface material: ambient color and reflectivity in `[0, SCALE]`.
#[derive(Clone, Copy)]
pub struct Material {
    pub amb: Vec3,
    pub reflect: i128,
}

pub open spec fn wf_material(m: Material) -> bool {
    &&& bounded(m.amb@, AMB_MAX as int)
    &&& 0 <= m.reflect <= SCALE
}

/// A ray: origin and direction. Directions are unit-length (up to
/// fixed-point rounding) wherever the camera or the shading engine
/// constructs them.
#[derive(Clone, Copy)]
pub struct Ray {
    pub src: Vec3,
    pub dir: Vec3,
}

/// Origin within the shading position budget, direction bounded as a
/// normalized vector is.
pub open spec fn wf_ray(r: Ray) -> bool {
    &&& bounded(r.src@, POS_LIMIT as int)
    &&& bounded(r.dir@, DIR_MAX as int)
}

/// A sphere: center, cached squared radius, material.
#[derive(Clone, Copy)]
pub struct Sphere {
    pub center: Vec3,
    pub radius_sqr: i128,
    pub material: Material,
}

pub open spec fn wf_sphere(s: Sphere) -> bool {
    &&& bounded(s.center@, WORLD_MAX as int)
    &&& 0 <= s.radius_sqr <= RSQ_MAX
    &&& wf_material(s.material)
}

impl Sphere {
    /// Build a sphere from center and radius; the squared radius is
    /// cached for the quadratic solve.
    pub fn new(c: Vec3, r: i128, mat: Material) -> (s: Sphere)
        requires
            bounded(c@, WORLD_MAX as int),
            0 <= r <= WORLD_MAX,
            wf_material(mat),
        ensures
            s.center == c,
            s.material == mat,
            s.radius_sqr == fmul(r as int, r as int),
            wf_sphere(s),
    {
        proof {
            lemma_mul_abs_bound(r as int, r as int, WORLD_MAX as int, WORLD_MAX as int);
            assert(WORLD_MAX as int * WORLD_MAX as int == 0x1000_0000_0000_0000_0000)
                by (nonlinear_arith)
                requires
                    WORLD_MAX == 0x40_0000_0000;
            vstd::arithmetic::div_mod::lemma_div_is_ordered(
                r as int * r as int,
                WORLD_MAX as int * WORLD_MAX as int,
                SCALE as int,
            );
            vstd::arithmetic::div_mod::lemma_div_pos_is_pos(r as int * r as int, SCALE as int);
            assert(r as int * r as int >= 0) by (nonlinear_arith)
                requires
                    r >= 0;
        }
        Sphere { center: c, radius_sqr: crate::fixed::mul_fx(r, r), material: mat }
    }

    /// Wrap the sphere as a scene surface.
    pub fn boxed(c: Vec3, r: i128, mat: Material) -> (s: Surface)
        requires
            bounded(c@, WORLD_MAX as int),
            0 <= r <= WORLD_MAX,
            wf_material(mat),
        ensures
            s matches Surface::Sphere(b) && b == Sphere::new_spec(c, r, mat),
            wf_surface(s),
    {
        Surface::Sphere(Sphere::new(c, r, mat))
    }

    /// The sphere `new` builds, as a spec-level value.
    pub open spec fn new_spec(c: Vec3, r: i128, mat: Material) -> Sphere {
        Sphere {
            center: c,
            radius_sqr: fmul(r as int, r as int) as i128,
            material: mat,
        }
    }
}

/// A triangle: three vertices, the precomputed unit face normal, a
/// material, and a flag selecting the procedural checkerboard.
#[derive(Clone, Copy)]
pub struct Triangle {
    pub a: Vec3,
    pub b: Vec3,
    pub c: Vec3,
    pub normal: Vec3,
    pub material: Material,
    pub pattern: bool,
}

pub open spec fn wf_triangle(t: Triangle) -> bool {
    &&& bounded(t.a@, WORLD_MAX as int)
    &&& bounded(t.b@, WORLD_MAX as int)
    &&& bounded(t.c@, WORLD_MAX as int)
    &&& bounded(t.normal@, DIR_MAX as int)
    &&& wf_material(t.material)
}

impl Triangle {
    /// Build a triangle; the face normal is the normalized cross
    /// product of two edge vectors.
    pub fn new(a: Vec3, b: Vec3, c: Vec3, mat: Material, p: bool) -> (t: Triangle)
        requires
            bounded(a@, TRI_MAX as int),
            bounded(b@, TRI_MAX as int),
            bounded(c@, TRI_MAX as int),
            wf_material(mat),
        ensures
            t.a == a && t.b == b && t.c == c,
            t.material == mat,
            t.pattern == p,
            t.normal@ == v3_normalize(v3_cross(v3_sub(a@, b@), v3_sub(a@, c@))),
            wf_triangle(t),
    {
        let a_b = a.sub(&b);
        let a_c = a.sub(&c);
        proof {
            lemma_edge_products(a_b@, a_c@);
        }
        let n = a_b.cross(&a_c).normalize();
        Triangle { a, b, c, normal: n, material: mat, pattern: p }
    }

    /// Wrap the triangle as a scene surface.
    pub fn boxed(a: Vec3, b: Vec3, c: Vec3, mat: Material, p: bool) -> (s: Surface)
        requires
            bounded(a@, TRI_MAX as int),
            bounded(b@, TRI_MAX as int),
            bounded(c@, TRI_MAX as int),
            wf_material(mat),
        ensures
            s matches Surface::Triangle(t) && t.a == a && t.b == b && t.c == c && t.material == mat
                && t.pattern == p && t.normal@ == v3_normalize(
                v3_cross(v3_sub(a@, b@), v3_sub(a@, c@)),
            ),
            wf_surface(s),
    {
        Surface::Triangle(Triangle::new(a, b, c, mat, p))
    }
}

/// Every product in the edge cross product and its normalization stays
/// within range for vertices bounded by `TRI_MAX`.
proof fn lemma_edge_products(e1: V3, e2: V3)
    requires
        bounded(e1, 2 * TRI_MAX),
        bounded(e2, 2 * TRI_MAX),
    ensures
        -RAW_MAX <= e1.x * e2.y <= RAW_MAX,
        -RAW_MAX <= e1.x * e2.z <= RAW_MAX,
        -RAW_MAX <= e1.y * e2.x <= RAW_MAX,
        -RAW_MAX <= e1.y * e2.z <= RAW_MAX,
        -RAW_MAX <= e1.z * e2.x <= RAW_MAX,
        -RAW_MAX <= e1.z * e2.y <= RAW_MAX,
        bounded(v3_cross(e1, e2), NORM_MAX as int),
{
    let m = (2 * TRI_MAX) as int;
    lemma_mul_abs_bound(e1.x, e2.y, m, m);
    lemma_mul_abs_bound(e1.x, e2.z, m, m);
    lemma_mul_abs_bound(e1.y, e2.x, m, m);
    lemma_mul_abs_bound(e1.y, e2.z, m, m);
    lemma_mul_abs_bound(e1.z, e2.x, m, m);
    lemma_mul_abs_bound(e1.z, e2.y, m, m);
    lemma_div_shrink_bound(e1.y * e2.z, SCALE as int, m * m);
    lemma_div_shrink_bound(e1.z * e2.y, SCALE as int, m * m);
    lemma_div_shrink_bound(e1.z * e2.x, SCALE as int, m * m);
    lemma_div_shrink_bound(e1.x * e2.z, SCALE as int, m * m);
    lemma_div_shrink_bound(e1.x * e2.y, SCALE as int, m * m);
    lemma_div_shrink_bound(e1.y * e2.x, SCALE as int, m * m);
    assert(m * m == 0x10_0000_0000_0000_0000) by (nonlinear_arith)
        requires
            m == 0x4_0000_0000;
}

/// A scene surface: either a sphere or a triangle.
#[derive(Clone, Copy)]
pub enum Surface {
    Sphere(Sphere),
    Triangle(Triangle),
}

pub open spec fn wf_surface(s: Surface) -> bool {
    match s {
        Surface::Sphere(b) => wf_sphere(b),
        Surface::Triangle(t) => wf_triangle(t),
    }
}

impl Surface {
    /// The surface's material.
    pub fn material(&self) -> (m: Material)
        ensures
            m == self.material_spec(),
    {
        match self {
            Surface::Sphere(b) => b.material,
            Surface::Triangle(t) => t.material,
        }
    }

    pub open spec fn material_spec(&self) -> Material {
        match self {
            Surface::Sphere(b) => b.material,
            Surface::Triangle(t) => t.material,
        }
    }
}

/// An immutable scene: an ordered collection of surfaces, constructed
/// once and read-only for the rest of a render.
pub struct Scene {
    pub surfaces: Vec<Surface>,
}

pub open spec fn wf_scene(s: Scene) -> bool {
    forall|i: int| 0 <= i < s.surfaces@.len() ==> wf_surface(#[trigger] s.surfaces@[i])
}

impl Scene {
    pub fn new() -> (s: Scene)
        ensures
            s.surfaces@.len() == 0,
            wf_scene(s),
    {
        Scene { surfaces: Vec::new() }
    }

    pub fn push(&mut self, surf: Surface)
        requires
            wf_surface(surf),
            wf_scene(*old(self)),
        ensures
            final(self).surfaces@ == old(self).surfaces@.push(surf),
            wf_scene(*final(self)),
    {
        self.surfaces.push(surf);
    }

    pub fn len(&self) -> (n: usize)
        ensures
            n == self.surfaces@.len(),
    {
        self.surfaces.len()
    }
}

/// Fixed render parameters, passed in rather than kept as globals so
/// that several frames can be rendered with different settings.
#[derive(Clone, Copy)]
pub struct Config {
    /// Reflection recursion budget for primary rays.
    pub max_depth: u32,
    /// Supersampled image dimension in pixels (a multiple of four, so
    /// the quadrants halve it evenly; the output frame is half this
    /// size in each axis).
    pub dim: usize,
    /// Near-plane distance of the camera.
    pub near: i128,
    /// Offset subtracted from a hit distance to avoid re-hitting the
    /// same surface.
    pub epsilon: i128,
    /// Far bound of the valid ray-parameter interval (the near bound
    /// is zero).
    pub t1: i128,
    /// Color for rays that miss all geometry.
    pub background: Vec3,
    /// Half-width of the cubical volume the area light fills.
    pub light_radius: i128,
    /// Number of Monte-Carlo shadow samples per shading point.
    pub shadow_samples: u32,
}

pub open spec fn wf_config(c: Config) -> bool {
    &&& c.max_depth <= DEPTH_MAX
    &&& 2 <= c.dim <= 4096
    &&& c.dim % 4 == 0
    &&& 0 <= c.near <= 16 * SCALE
    &&& 0 <= c.epsilon <= SCALE
    &&& c.epsilon < c.t1
    &&& 0 < c.t1 <= T1_MAX
    &&& bounded(c.background@, AMB_MAX as int)
    &&& 0 <= c.light_radius <= WORLD_MAX
    &&& 1 <= c.shadow_samples <= 100000
}

impl Config {
    /// The standard render parameters:
    /// depth 10, a 2000-pixel supersampled frame, near plane at 1,
    /// far bound 100000, a sky-blue background, a light of radius 10
    /// sampled 50 times.
    pub fn standard() -> (c: Config)
        ensures
            wf_config(c),
            c.max_depth == 10,
            c.dim == 2000,
            c.near == SCALE,
            c.t1 == 100000 * SCALE,
            c.light_radius == 10 * SCALE,
            c.shadow_samples == 50,
    {
        Config {
            max_depth: 10,
            dim: 2000,
            near: SCALE,
            epsilon: 7,
            t1: 100000 * SCALE,
            background: Vec3::new(26214, 45744, 65536),
            light_radius: 10 * SCALE,
            shadow_samples: 50,
        }
    }
}

} // verus!
