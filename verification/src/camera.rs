//! The camera: an orthonormal view basis derived from eye and look-at
//! positions, and the mapping from pixel coordinates to primary rays.

use vstd::prelude::*;
use crate::fixed::{SCALE, RAW_MAX, fmul, div_floor, lemma_fmul_bound};
use crate::vec3::{Vec3, V3, bounded, v3_add, v3_sub, v3_scale, v3_cross, v3_normalize};
use crate::scene::{Ray, Config, wf_ray, wf_config, WORLD_MAX, DIR_MAX};
use crate::shade::vec3_of;

verus! {

/// Half a pixel, in fixed-point units: rays sample pixel centers.
pub const PIXEL_CENTER: i128 = 32768;

/// The fixed world up direction.
pub open spec fn spec_up() -> V3 {
    V3 { x: 0, y: SCALE as int, z: 0 }
}

/// The camera's forward axis: from the look-at point toward the eye.
pub open spec fn spec_eye_at(eye: V3, look: V3) -> V3 {
    v3_normalize(v3_sub(eye, look))
}

/// The camera's right axis.
pub open spec fn spec_basis_u(eye: V3, look: V3) -> V3 {
    v3_normalize(v3_cross(spec_eye_at(eye, look), spec_up()))
}

/// The camera's true up axis.
pub open spec fn spec_basis_v(eye: V3, look: V3) -> V3 {
    v3_normalize(v3_cross(spec_basis_u(eye, look), spec_eye_at(eye, look)))
}

/// The near-plane offset axis.
pub open spec fn spec_basis_w(eye: V3, look: V3) -> V3 {
    v3_normalize(v3_cross(spec_basis_u(eye, look), spec_basis_v(eye, look)))
}

/// Everything needed to generate a view ray for a pixel: the pixel
/// scale `2 / dim` and the eye with its orthonormal basis.
#[derive(Clone, Copy)]
pub struct ViewRay {
    pub img_dim: i128,
    pub eye: Vec3,
    pub u: Vec3,
    pub v: Vec3,
    pub w: Vec3,
}

pub open spec fn wf_viewray(vr: ViewRay) -> bool {
    &&& 0 <= vr.img_dim <= SCALE
    &&& bounded(vr.eye@, WORLD_MAX as int)
    &&& bounded(vr.u@, DIR_MAX as int)
    &&& bounded(vr.v@, DIR_MAX as int)
    &&& bounded(vr.w@, DIR_MAX as int)
}

/// The camera `ViewRay::new` builds, as a spec-level value.
pub open spec fn spec_camera(eye: Vec3, look: Vec3, dim: int) -> ViewRay {
    ViewRay {
        img_dim: ((2 * SCALE) / dim) as i128,
        eye: eye,
        u: vec3_of(spec_basis_u(eye@, look@)),
        v: vec3_of(spec_basis_v(eye@, look@)),
        w: vec3_of(spec_basis_w(eye@, look@)),
    }
}

impl ViewRay {
    /// Build the view basis: forward from look-at to eye, right and
    /// up by successive normalized cross products, and the pixel
    /// scale for a `dim`-pixel image plane spanning `[-1, 1]`.
    pub fn new(eye: Vec3, look: Vec3, dim: usize) -> (vr: ViewRay)
        requires
            bounded(eye@, WORLD_MAX as int),
            bounded(look@, WORLD_MAX as int),
            2 <= dim <= 8192,
        ensures
            vr == spec_camera(eye, look, dim as int),
            wf_viewray(vr),
    {
        let eye_at = eye.sub(&look).normalize();
        let up = Vec3::new(0, SCALE, 0);
        proof {
            crate::vec3::lemma_cross_bound(eye_at@, up@, DIR_MAX as int, SCALE as int);
        }
        let u = eye_at.cross(&up).normalize();
        proof {
            crate::vec3::lemma_cross_bound(u@, eye_at@, DIR_MAX as int, DIR_MAX as int);
        }
        let v = u.cross(&eye_at).normalize();
        proof {
            crate::vec3::lemma_cross_bound(u@, v@, DIR_MAX as int, DIR_MAX as int);
        }
        let w = u.cross(&v).normalize();
        let img_dim: i128 = div_floor(2 * SCALE, dim as i128);
        proof {
            vstd::arithmetic::div_mod::lemma_div_pos_is_pos(2 * SCALE as int, dim as int);
            vstd::arithmetic::div_mod::lemma_div_is_ordered_by_denominator(
                2 * SCALE as int,
                2,
                dim as int,
            );
        }
        ViewRay { img_dim, eye, u, v, w }
    }
}

/// The primary ray for pixel `(x, y)`: map the pixel center to view
/// plane coordinates in `[-1, 1]`, offset along the basis axes and
/// the near plane, and aim from the eye at the resulting target.
pub open spec fn spec_viewray(x: int, y: int, vr: ViewRay, near: int) -> Ray {
    let us = -SCALE + fmul(vr.img_dim as int, x * SCALE + PIXEL_CENTER);
    let vs = -SCALE + fmul(vr.img_dim as int, y * SCALE + PIXEL_CENTER);
    let s1 = v3_add(vr.eye@, v3_scale(vr.u@, us));
    let s2 = v3_add(s1, v3_scale(vr.v@, vs));
    let s3 = v3_add(s2, v3_scale(vr.w@, near));
    Ray { src: vr.eye, dir: vec3_of(v3_normalize(v3_sub(s3, vr.eye@))) }
}

/// Generate the view ray for a pixel.
pub fn calculate_viewray(x: usize, y: usize, view_ray: &ViewRay, cfg: &Config) -> (r: Ray)
    requires
        wf_viewray(*view_ray),
        wf_config(*cfg),
        x <= 8192,
        y <= 8192,
    ensures
        r == spec_viewray(x as int, y as int, *view_ray, cfg.near as int),
        wf_ray(r),
        r.src == view_ray.eye,
{
    proof {
        lemma_fmul_bound(
            view_ray.img_dim as int,
            x as int * SCALE + PIXEL_CENTER,
            SCALE as int,
            0x2000_0000_0000,
        );
        lemma_fmul_bound(
            view_ray.img_dim as int,
            y as int * SCALE + PIXEL_CENTER,
            SCALE as int,
            0x2000_0000_0000,
        );
    }
    let us: i128 = -SCALE + crate::fixed::mul_fx(view_ray.img_dim, (x as i128) * SCALE + PIXEL_CENTER);
    let vs: i128 = -SCALE + crate::fixed::mul_fx(view_ray.img_dim, (y as i128) * SCALE + PIXEL_CENTER);
    proof {
        lemma_scale_small(view_ray.u@, us as int);
        lemma_scale_small(view_ray.v@, vs as int);
        lemma_scale_small(view_ray.w@, cfg.near as int);
    }
    let mut s = view_ray.eye.add(&view_ray.u.scale(us));
    s = s.add(&view_ray.v.scale(vs));
    s = s.add(&view_ray.w.scale(cfg.near));
    let dir = s.sub(&view_ray.eye).normalize();
    Ray { src: view_ray.eye, dir }
}

/// Scaling a basis axis by a view-plane coordinate stays far inside
/// every range.
proof fn lemma_scale_small(axis: V3, s: int)
    requires
        bounded(axis, DIR_MAX as int),
        -0x2_0000_0000_0000 <= s <= 0x2_0000_0000_0000,
    ensures
        -RAW_MAX <= axis.x * s <= RAW_MAX,
        -RAW_MAX <= axis.y * s <= RAW_MAX,
        -RAW_MAX <= axis.z * s <= RAW_MAX,
        bounded(v3_scale(axis, s), 0x8_0000_0000_0000),
{
    lemma_fmul_bound(axis.x, s, DIR_MAX as int, 0x2_0000_0000_0000);
    lemma_fmul_bound(axis.y, s, DIR_MAX as int, 0x2_0000_0000_0000);
    lemma_fmul_bound(axis.z, s, DIR_MAX as int, 0x2_0000_0000_0000);
}

} // verus!
