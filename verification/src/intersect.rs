//! The intersection engine: ray/sphere and ray/triangle hit tests and
//! the linear closest-surface scan over a scene.
//!
//! Each `hit` returns the ray parameter of the nearest valid
//! intersection, and its contract states the exact fixed-point value
//! via a spec-level mirror of the closed-form solver. A ray parallel
//! to a triangle's plane (zero determinant), or one too short to give
//! a positive quadratic leading coefficient, is treated as a miss
//! rather than letting a division blow up.

use vstd::prelude::*;
use crate::fixed::{
    SCALE, RAW_MAX, NUM_MAX, fmul, fdiv, fdiv_by, isqrt_spec, mul_fx, div_fx, div_fx_signed,
    sqrt_fx, lemma_fmul_bound, lemma_mul_abs_bound, lemma_div_shrink_bound,
};
use crate::vec3::{bounded, v3_sub, v3_dot};
use crate::scene::{
    Ray, Sphere, Triangle, Surface, Scene, wf_ray, wf_sphere, wf_triangle, wf_surface, wf_scene,
    T1_MAX, DIR_MAX, WORLD_MAX, POS_LIMIT,
};

verus! {

/// An executable optional distance agrees with a spec-level one.
pub open spec fn opt_eq(r: Option<i128>, s: Option<int>) -> bool {
    match r {
        Some(t) => s == Some(t as int),
        None => s is None,
    }
}

/// Root selection for the quadratic: prefer the smaller root strictly
/// inside `(0, t1)`; fall back to whichever single root is in range.
pub open spec fn spec_nearest(p: int, q: int, t1: int) -> Option<int> {
    let pb = 0 < p < t1;
    let qb = 0 < q < t1;
    if pb && qb {
        if p > q {
            Some(q)
        } else {
            Some(p)
        }
    } else if pb {
        Some(p)
    } else if qb {
        Some(q)
    } else {
        None
    }
}

/// Both roots of `a*t^2 + b*t + c = 0` given the discriminant, passed
/// through root selection.
pub open spec fn spec_quadratic(a: int, b: int, disc: int, t1: int) -> Option<int> {
    let sd = isqrt_spec(disc * SCALE);
    let p = fdiv(-b + sd, 2 * a);
    let q = fdiv(-b - sd, 2 * a);
    spec_nearest(p, q, t1)
}

/// The ray parameter at which `ray` first meets the sphere, if any.
pub open spec fn spec_sphere_hit(s: Sphere, ray: Ray, t1: int) -> Option<int> {
    let emc = v3_sub(ray.src@, s.center@);
    let a = v3_dot(ray.dir@, ray.dir@);
    let b = 2 * v3_dot(ray.dir@, emc);
    let c = v3_dot(emc, emc) - s.radius_sqr;
    let disc = fmul(b, b) - 4 * fmul(a, c);
    if a <= 0 {
        None
    } else if disc < 0 {
        None
    } else {
        spec_quadratic(a, b, disc, t1)
    }
}

impl Sphere {
    /// Select the nearer in-range root, per the strict-bound policy.
    pub fn nearest(&self, p: i128, q: i128, t1: i128) -> (r: Option<i128>)
        ensures
            opt_eq(r, spec_nearest(p as int, q as int, t1 as int)),
            r matches Some(t) ==> 0 < t < t1,
    {
        let p_bound = p > 0 && p < t1;
        let q_bound = q > 0 && q < t1;
        if p_bound && q_bound {
            if p > q {
                Some(q)
            } else {
                Some(p)
            }
        } else if p_bound {
            Some(p)
        } else if q_bound {
            Some(q)
        } else {
            None
        }
    }

    /// Solve the quadratic whose discriminant is already known to be
    /// non-negative, and pick the nearer valid root.
    pub fn quadratic(&self, a: i128, b: i128, disc: i128, t1: i128) -> (r: Option<i128>)
        requires
            1 <= a <= 0x2_0000_0000_0000i128,
            -0x4000_0000_0000_0000i128 <= b <= 0x4000_0000_0000_0000i128,
            0 <= disc <= NUM_MAX,
            0 < t1 <= T1_MAX,
        ensures
            opt_eq(r, spec_quadratic(a as int, b as int, disc as int, t1 as int)),
            r matches Some(t) ==> 0 < t < t1,
    {
        let sd: i128 = sqrt_fx(disc);
        let p: i128 = div_fx(-b + sd, 2 * a);
        let q: i128 = div_fx(-b - sd, 2 * a);
        self.nearest(p, q, t1)
    }

    /// Ray/sphere intersection: the nearest parameter strictly inside
    /// `(0, t1)`, or nothing.
    pub fn hit(&self, ray: &Ray, t1: i128) -> (r: Option<i128>)
        requires
            wf_sphere(*self),
            wf_ray(*ray),
            0 < t1 <= T1_MAX,
        ensures
            opt_eq(r, spec_sphere_hit(*self, *ray, t1 as int)),
            r matches Some(t) ==> 0 < t < t1,
    {
        let emc = ray.src.sub(&self.center);
        proof {
            crate::vec3::lemma_dot_bound(ray.dir@, ray.dir@, DIR_MAX as int, DIR_MAX as int);
            crate::vec3::lemma_dot_bound(ray.dir@, emc@, DIR_MAX as int, 0x200_0000_0000);
            crate::vec3::lemma_dot_bound(emc@, emc@, 0x200_0000_0000, 0x200_0000_0000);
        }
        let a: i128 = ray.dir.dot(&ray.dir);
        let b: i128 = 2 * ray.dir.dot(&emc);
        let c: i128 = emc.dot(&emc) - self.radius_sqr;
        proof {
            lemma_fmul_bound(b as int, b as int, 0x4000_0000_0000_0000, 0x4000_0000_0000_0000);
            lemma_fmul_bound(a as int, c as int, 0x20_0000_0000, 0x10_0000_0000_0000_0000_0000);
        }
        let disc: i128 = mul_fx(b, b) - 4 * mul_fx(a, c);
        if a <= 0 {
            None
        } else if disc < 0 {
            None
        } else {
            self.quadratic(a, b, disc, t1)
        }
    }
}

/// The ray parameter at which `ray` meets the triangle inside its
/// edges, if any: Cramer's rule on the barycentric system, with a zero
/// determinant treated as a miss and the parameter held strictly
/// inside `(0, t1)` to avoid self-intersection.
pub open spec fn spec_triangle_hit(tri: Triangle, ray: Ray, t1: int) -> Option<int> {
    let a = tri.a@.x - tri.b@.x;
    let b = tri.a@.x - tri.c@.x;
    let c = ray.dir@.x;
    let d = tri.a@.y - tri.b@.y;
    let e = tri.a@.y - tri.c@.y;
    let f = ray.dir@.y;
    let g = tri.a@.z - tri.b@.z;
    let h = tri.a@.z - tri.c@.z;
    let i = ray.dir@.z;
    let j = tri.a@.x - ray.src@.x;
    let k = tri.a@.y - ray.src@.y;
    let l = tri.a@.z - ray.src@.z;
    let dheg = fmul(d, h) - fmul(e, g);
    let eihf = fmul(e, i) - fmul(h, f);
    let kilf = fmul(k, i) - fmul(l, f);
    let digf = fmul(d, i) - fmul(f, g);
    let dlgk = fmul(d, l) - fmul(g, k);
    let elhk = fmul(e, l) - fmul(h, k);
    let det_m = fmul(a, eihf) - fmul(b, digf) + fmul(c, dheg);
    if det_m == 0 {
        None
    } else {
        let t = fdiv_by(fmul(a, elhk) - fmul(b, dlgk) + fmul(j, dheg), det_m);
        if t <= 0 || t >= t1 {
            None
        } else {
            let gamma = fdiv_by(fmul(a, kilf) - fmul(j, digf) + fmul(c, dlgk), det_m);
            if gamma < 0 || gamma > SCALE {
                None
            } else {
                let beta = fdiv_by(fmul(j, eihf) - fmul(b, kilf) - fmul(c, elhk), det_m);
                if beta < 0 || beta > SCALE - gamma {
                    None
                } else {
                    Some(t)
                }
            }
        }
    }
}

impl Triangle {
    /// Ray/triangle intersection by Cramer's rule on the barycentric
    /// system; in-range parameter with both barycentric coordinates
    /// non-negative and summing to at most one.
    pub fn hit(&self, ray: &Ray, t1: i128) -> (r: Option<i128>)
        requires
            wf_triangle(*self),
            wf_ray(*ray),
            0 < t1 <= T1_MAX,
        ensures
            opt_eq(r, spec_triangle_hit(*self, *ray, t1 as int)),
            r matches Some(t) ==> 0 < t < t1,
    {
        let a: i128 = self.a.x - self.b.x;
        let b: i128 = self.a.x - self.c.x;
        let c: i128 = ray.dir.x;
        let d: i128 = self.a.y - self.b.y;
        let e: i128 = self.a.y - self.c.y;
        let f: i128 = ray.dir.y;
        let g: i128 = self.a.z - self.b.z;
        let h: i128 = self.a.z - self.c.z;
        let i: i128 = ray.dir.z;
        let j: i128 = self.a.x - ray.src.x;
        let k: i128 = self.a.y - ray.src.y;
        let l: i128 = self.a.z - ray.src.z;
        proof {
            let ed: int = 0x80_0000_0000;
            let jb: int = 0x200_0000_0000;
            let db: int = DIR_MAX as int;
            lemma_fmul_bound(d as int, h as int, ed, ed);
            lemma_fmul_bound(e as int, g as int, ed, ed);
            lemma_fmul_bound(e as int, i as int, ed, db);
            lemma_fmul_bound(h as int, f as int, ed, db);
            lemma_fmul_bound(k as int, i as int, jb, db);
            lemma_fmul_bound(l as int, f as int, jb, db);
            lemma_fmul_bound(d as int, i as int, ed, db);
            lemma_fmul_bound(f as int, g as int, db, ed);
            lemma_fmul_bound(d as int, l as int, ed, jb);
            lemma_fmul_bound(g as int, k as int, ed, jb);
            lemma_fmul_bound(e as int, l as int, ed, jb);
            lemma_fmul_bound(h as int, k as int, ed, jb);
        }
        let dheg: i128 = mul_fx(d, h) - mul_fx(e, g);
        let eihf: i128 = mul_fx(e, i) - mul_fx(h, f);
        let kilf: i128 = mul_fx(k, i) - mul_fx(l, f);
        let digf: i128 = mul_fx(d, i) - mul_fx(f, g);
        let dlgk: i128 = mul_fx(d, l) - mul_fx(g, k);
        let elhk: i128 = mul_fx(e, l) - mul_fx(h, k);
        proof {
            let ed: int = 0x80_0000_0000;
            let jb: int = 0x200_0000_0000;
            let sq: int = 0x4_0000_0000_0000;
            let dg: int = 0x4_0000_0000_0000_0000;
            lemma_fmul_bound(a as int, eihf as int, ed, sq);
            lemma_fmul_bound(b as int, digf as int, ed, sq);
            lemma_fmul_bound(c as int, dheg as int, DIR_MAX as int, dg);
            lemma_fmul_bound(a as int, elhk as int, ed, dg);
            lemma_fmul_bound(b as int, dlgk as int, ed, dg);
            lemma_fmul_bound(j as int, dheg as int, jb, dg);
            lemma_fmul_bound(a as int, kilf as int, ed, sq);
            lemma_fmul_bound(j as int, digf as int, jb, sq);
            lemma_fmul_bound(c as int, dlgk as int, DIR_MAX as int, dg);
            lemma_fmul_bound(j as int, eihf as int, jb, sq);
            lemma_fmul_bound(b as int, kilf as int, ed, sq);
            lemma_fmul_bound(c as int, elhk as int, DIR_MAX as int, dg);
        }
        let det_m: i128 = mul_fx(a, eihf) - mul_fx(b, digf) + mul_fx(c, dheg);
        if det_m == 0 {
            return None;
        }
        let t_num: i128 = mul_fx(a, elhk) - mul_fx(b, dlgk) + mul_fx(j, dheg);
        let t: i128 = div_fx_signed(t_num, det_m);
        if t <= 0 || t >= t1 {
            return None;
        }
        let g_num: i128 = mul_fx(a, kilf) - mul_fx(j, digf) + mul_fx(c, dlgk);
        let gamma: i128 = div_fx_signed(g_num, det_m);
        if gamma < 0 || gamma > SCALE {
            return None;
        }
        let b_num: i128 = mul_fx(j, eihf) - mul_fx(b, kilf) - mul_fx(c, elhk);
        let beta: i128 = div_fx_signed(b_num, det_m);
        if beta < 0 || beta > SCALE - gamma {
            None
        } else {
            Some(t)
        }
    }
}

/// Dispatch the hit test to the surface's variant.
pub open spec fn spec_hit(s: Surface, ray: Ray, t1: int) -> Option<int> {
    match s {
        Surface::Sphere(b) => spec_sphere_hit(b, ray, t1),
        Surface::Triangle(t) => spec_triangle_hit(t, ray, t1),
    }
}

impl Surface {
    pub fn hit(&self, ray: &Ray, t1: i128) -> (r: Option<i128>)
        requires
            wf_surface(*self),
            wf_ray(*ray),
            0 < t1 <= T1_MAX,
        ensures
            opt_eq(r, spec_hit(*self, *ray, t1 as int)),
            r matches Some(t) ==> 0 < t < t1,
    {
        match self {
            Surface::Sphere(b) => b.hit(ray, t1),
            Surface::Triangle(t) => t.hit(ray, t1),
        }
    }
}

/// The scan state after examining the first `n` surfaces: the index of
/// the best surface so far (if any) and its parameter, starting from
/// the sentinel `t1`. Only hits strictly closer than everything seen
/// before are taken, so a hit at exactly `t1` is never selected.
pub open spec fn spec_scan_upto(surfs: Seq<Surface>, ray: Ray, t1: int, n: int) -> (Option<
    int,
>, int)
    decreases n,
{
    if n <= 0 {
        (None, t1)
    } else {
        let prev = spec_scan_upto(surfs, ray, t1, n - 1);
        match spec_hit(surfs[n - 1], ray, t1) {
            Some(t) => if t < prev.1 {
                (Some(n - 1), t)
            } else {
                prev
            },
            None => prev,
        }
    }
}

/// The closest-surface query over the whole scene.
pub open spec fn spec_nearest_hit(surfs: Seq<Surface>, ray: Ray, t1: int) -> (Option<int>, int) {
    spec_scan_upto(surfs, ray, t1, surfs.len() as int)
}

/// No surface is selected exactly when every surface misses or ties
/// the sentinel.
pub proof fn lemma_scan_none(surfs: Seq<Surface>, ray: Ray, t1: int, n: int)
    requires
        0 <= n <= surfs.len(),
    ensures
        spec_scan_upto(surfs, ray, t1, n).0 is None <==> forall|i: int|
            0 <= i < n ==> match #[trigger] spec_hit(surfs[i], ray, t1) {
                Some(t) => t >= t1,
                None => true,
            },
        spec_scan_upto(surfs, ray, t1, n).0 is None ==> spec_scan_upto(surfs, ray, t1, n).1 == t1,
    decreases n,
{
    if n > 0 {
        lemma_scan_none(surfs, ray, t1, n - 1);
    }
}

/// Scan every surface in order and keep the strictly nearest hit.
pub fn nearest_hit(scene: &Scene, ray: &Ray, t1: i128) -> (r: (Option<usize>, i128))
    requires
        wf_scene(*scene),
        wf_ray(*ray),
        0 < t1 <= T1_MAX,
    ensures
        ({
            let s = spec_nearest_hit(scene.surfaces@, *ray, t1 as int);
            &&& (match r.0 {
                Some(k) => s.0 == Some(k as int),
                None => s.0 is None,
            })
            &&& r.1 as int == s.1
        }),
        r.0 matches Some(k) ==> k < scene.surfaces@.len() && 0 <= r.1 <= t1,
        r.0 is None ==> r.1 == t1,
{
    let mut best_i: Option<usize> = None;
    let mut best_t: i128 = t1;
    let n: usize = scene.surfaces.len();
    let mut idx: usize = 0;
    while idx < n
        invariant
            0 <= idx <= n,
            n == scene.surfaces@.len(),
            wf_scene(*scene),
            wf_ray(*ray),
            0 < t1 <= T1_MAX,
            ({
                let s = spec_scan_upto(scene.surfaces@, *ray, t1 as int, idx as int);
                &&& (match best_i {
                    Some(k) => s.0 == Some(k as int),
                    None => s.0 is None,
                })
                &&& best_t as int == s.1
            }),
            best_i matches Some(k) ==> k < idx && 0 <= best_t <= t1,
            best_i is None ==> best_t == t1,
        decreases n - idx,
    {
        let s = &scene.surfaces[idx];
        match s.hit(ray, t1) {
            Some(t) => {
                if t < best_t {
                    best_i = Some(idx);
                    best_t = t;
                }
            },
            None => {},
        }
        idx = idx + 1;
    }
    (best_i, best_t)
}

} // verus!
