//! The tile renderer and compositor.
//!
//! The image is rendered at a supersampled resolution into four
//! independent quadrant buffers; each quadrant's pixels are pure
//! functions of the pixel coordinate, the camera basis, the light,
//! and the read-only scene (up to the shadow sampler's randomness),
//! so the quadrants can be computed in any order or concurrently.
//! The compositor then walks the half-resolution target frame,
//! averages each 2x2 supersample block exactly, and flips the
//! vertical axis so row zero is the top of the image.

use vstd::prelude::*;
use vstd::arithmetic::div_mod::{
    lemma_div_pos_is_pos, lemma_div_multiples_vanish, lemma_fundamental_div_mod_converse_div,
    lemma_fundamental_div_mod_converse_mod,
};
use crate::fixed::{SCALE, div_floor};
use crate::vec3::{Vec3, V3, bounded};
use crate::scene::{Scene, Config, Surface, wf_scene, wf_config, WORLD_MAX, COLOR_MAX};
use crate::camera::{ViewRay, wf_viewray, spec_viewray, spec_camera, calculate_viewray};
use crate::intersect::{spec_nearest_hit, nearest_hit};
use crate::shade::shade_post;

verus! {

/// What one supersampled pixel holds: the exact background color when
/// the primary ray misses every surface, and otherwise a color
/// meeting the shading contract for the nearest surface hit.
pub open spec fn pixel_post(
    surfs: Seq<Surface>,
    vr: ViewRay,
    light: Vec3,
    cfg: Config,
    x: int,
    y: int,
    c: V3,
) -> bool {
    let ray = spec_viewray(x, y, vr, cfg.near as int);
    let scan = spec_nearest_hit(surfs, ray, cfg.t1 as int);
    &&& bounded(c, COLOR_MAX as int)
    &&& match scan.0 {
        Some(k) => shade_post(
            surfs,
            surfs[k],
            ray,
            scan.1,
            light@,
            cfg,
            cfg.max_depth as int,
            c,
        ),
        None => c == cfg.background@,
    }
}

/// A rectangular region of the supersampled image with its dense
/// row-major pixel buffer.
pub struct ImageQuad {
    pub xmin: usize,
    pub xmax: usize,
    pub ymin: usize,
    pub ymax: usize,
    pub img: Vec<Vec3>,
}

impl ImageQuad {
    /// An empty quad covering the given rectangle.
    pub fn new(xmin: usize, xmax: usize, ymin: usize, ymax: usize) -> (q: ImageQuad)
        ensures
            q.xmin == xmin && q.xmax == xmax && q.ymin == ymin && q.ymax == ymax,
            q.img@.len() == 0,
    {
        ImageQuad { xmin, xmax, ymin, ymax, img: Vec::new() }
    }
}

/// Every pixel of a filled quad buffer meets the pixel contract at
/// its row-major coordinates.
pub open spec fn quad_post(
    q: ImageQuad,
    surfs: Seq<Surface>,
    vr: ViewRay,
    light: Vec3,
    cfg: Config,
) -> bool {
    let w = q.xmax - q.xmin;
    &&& q.img@.len() == (q.ymax - q.ymin) * w
    &&& forall|i: int|
        0 <= i < q.img@.len() ==> pixel_post(
            surfs,
            vr,
            light,
            cfg,
            q.xmin + (i % (w as int)),
            q.ymin + (i / (w as int)),
            (#[trigger] q.img@[i])@,
        )
}

/// Render one rectangular region of the supersampled image: cast the
/// primary ray for each pixel, scan for the nearest surface, and
/// shade it (or fall back to the background).
pub fn thread_render(
    scene: &Scene,
    light_pos: Vec3,
    viewray_data: &ViewRay,
    xmin: usize,
    xmax: usize,
    ymin: usize,
    ymax: usize,
    cfg: &Config,
) -> (q: ImageQuad)
    requires
        wf_scene(*scene),
        wf_config(*cfg),
        wf_viewray(*viewray_data),
        bounded(light_pos@, WORLD_MAX as int),
        xmin < xmax <= 8192,
        ymin < ymax <= 8192,
    ensures
        q.xmin == xmin && q.xmax == xmax && q.ymin == ymin && q.ymax == ymax,
        quad_post(q, scene.surfaces@, *viewray_data, light_pos, *cfg),
{
    let w: usize = xmax - xmin;
    let mut image = ImageQuad::new(xmin, xmax, ymin, ymax);
    let mut v: Vec<Vec3> = Vec::new();
    let mut y: usize = ymin;
    while y < ymax
        invariant
            ymin <= y <= ymax,
            w == xmax - xmin,
            xmin < xmax <= 8192,
            ymin < ymax <= 8192,
            wf_scene(*scene),
            wf_config(*cfg),
            wf_viewray(*viewray_data),
            bounded(light_pos@, WORLD_MAX as int),
            v@.len() == (y - ymin) * (w as int),
            forall|i: int|
                0 <= i < v@.len() ==> pixel_post(
                    scene.surfaces@,
                    *viewray_data,
                    light_pos,
                    *cfg,
                    xmin + (i % (w as int)),
                    ymin + (i / (w as int)),
                    (#[trigger] v@[i])@,
                ),
        decreases ymax - y,
    {
        let mut x: usize = xmin;
        while x < xmax
            invariant
                ymin <= y < ymax,
                xmin <= x <= xmax,
                w == xmax - xmin,
                xmin < xmax <= 8192,
                ymin < ymax <= 8192,
                wf_scene(*scene),
                wf_config(*cfg),
                wf_viewray(*viewray_data),
                bounded(light_pos@, WORLD_MAX as int),
                v@.len() == (y - ymin) * (w as int) + (x - xmin),
                forall|i: int|
                    0 <= i < v@.len() ==> pixel_post(
                        scene.surfaces@,
                        *viewray_data,
                        light_pos,
                        *cfg,
                        xmin + (i % (w as int)),
                        ymin + (i / (w as int)),
                        (#[trigger] v@[i])@,
                    ),
            decreases xmax - x,
        {
            let ray = calculate_viewray(x, y, viewray_data, cfg);
            let scan = nearest_hit(scene, &ray, cfg.t1);
            let color = match scan.0 {
                Some(k) => {
                    let surf = scene.surfaces[k];
                    surf.calculate_color(scene, &ray, &light_pos, scan.1, cfg.max_depth, cfg)
                },
                None => cfg.background,
            };
            proof {
                let i0 = v@.len() as int;
                let wi = w as int;
                assert(i0 == (y - ymin) * wi + (x - xmin));
                lemma_fundamental_div_mod_converse_div(i0, wi, (y - ymin) as int, (x - xmin) as int);
                lemma_fundamental_div_mod_converse_mod(i0, wi, (y - ymin) as int, (x - xmin) as int);
                assert(pixel_post(
                    scene.surfaces@,
                    *viewray_data,
                    light_pos,
                    *cfg,
                    x as int,
                    y as int,
                    color@,
                ));
            }
            v.push(color);
            x = x + 1;
        }
        proof {
            assert((y - ymin) * (w as int) + (w as int) == (y + 1 - ymin) * (w as int))
                by (nonlinear_arith);
        }
        y = y + 1;
    }
    image.img = v;
    image
}

/// The exact 2x2 box average, per channel.
pub open spec fn spec_avg4(a: V3, b: V3, c: V3, d: V3) -> V3 {
    V3 {
        x: (a.x + b.x + c.x + d.x) / 4,
        y: (a.y + b.y + c.y + d.y) / 4,
        z: (a.z + b.z + c.z + d.z) / 4,
    }
}

/// A constant 2x2 block averages to exactly that color: the box
/// filter introduces no drift on constant blocks.
pub proof fn lemma_avg4_const(c: V3)
    ensures
        spec_avg4(c, c, c, c) == c,
{
    assert(c.x + c.x + c.x + c.x == 4 * c.x);
    assert(c.y + c.y + c.y + c.y == 4 * c.y);
    assert(c.z + c.z + c.z + c.z == 4 * c.z);
    lemma_div_multiples_vanish(c.x, 4);
    lemma_div_multiples_vanish(c.y, 4);
    lemma_div_multiples_vanish(c.z, 4);
}

/// The exact 2x2 block average read out of a quad buffer at the
/// supersample coordinates `(xs, ys)`: the four row-major entries of
/// the block whose lower corner is `(xs, ys)`.
pub open spec fn quad_block_avg(q: ImageQuad, xs: int, ys: int) -> V3 {
    let w = q.xmax - q.xmin;
    let idx = (ys - q.ymin) * w + (xs - q.xmin);
    spec_avg4(q.img@[idx]@, q.img@[idx + 1]@, q.img@[idx + w]@, q.img@[idx + w + 1]@)
}

/// The quadrant that owns the supersample coordinates `(xs, ys)`
/// under the exact-halving partition.
pub open spec fn owning_quad(
    qa: ImageQuad,
    qb: ImageQuad,
    qc: ImageQuad,
    qd: ImageQuad,
    half: int,
    xs: int,
    ys: int,
) -> ImageQuad {
    if ys < half {
        if xs < half {
            qa
        } else {
            qb
        }
    } else {
        if xs < half {
            qc
        } else {
            qd
        }
    }
}

/// A 2x2 supersample block holding one constant color composites to
/// exactly that color.
pub proof fn lemma_constant_block_composites_exactly(q: ImageQuad, xs: int, ys: int, c: V3)
    requires
        ({
            let w = q.xmax - q.xmin;
            let idx = (ys - q.ymin) * w + (xs - q.xmin);
            &&& q.img@[idx]@ == c
            &&& q.img@[idx + 1]@ == c
            &&& q.img@[idx + w]@ == c
            &&& q.img@[idx + w + 1]@ == c
        }),
    ensures
        quad_block_avg(q, xs, ys) == c,
{
    lemma_avg4_const(c);
}

/// Average a 2x2 block of supersampled colors.
pub fn avg_color(p00: &Vec3, p10: &Vec3, p01: &Vec3, p11: &Vec3) -> (r: Vec3)
    requires
        bounded(p00@, COLOR_MAX as int),
        bounded(p10@, COLOR_MAX as int),
        bounded(p01@, COLOR_MAX as int),
        bounded(p11@, COLOR_MAX as int),
    ensures
        r@ == spec_avg4(p00@, p10@, p01@, p11@),
{
    let x: i128 = div_floor(p00.x + p10.x + p01.x + p11.x, 4);
    let y: i128 = div_floor(p00.y + p10.y + p01.y + p11.y, 4);
    let z: i128 = div_floor(p00.z + p10.z + p01.z + p11.z, 4);
    Vec3 { x, y, z }
}

/// The four supersampled colors of one 2x2 block each meet the pixel
/// contract at their coordinates.
pub open spec fn block_post(
    surfs: Seq<Surface>,
    vr: ViewRay,
    light: Vec3,
    cfg: Config,
    xs: int,
    ys: int,
    c00: V3,
    c10: V3,
    c01: V3,
    c11: V3,
) -> bool {
    &&& pixel_post(surfs, vr, light, cfg, xs, ys, c00)
    &&& pixel_post(surfs, vr, light, cfg, xs + 1, ys, c10)
    &&& pixel_post(surfs, vr, light, cfg, xs, ys + 1, c01)
    &&& pixel_post(surfs, vr, light, cfg, xs + 1, ys + 1, c11)
}

/// Average the 2x2 supersample block at `(xs, ys)` out of a quad
/// buffer that contains it.
fn block_average(
    q: &ImageQuad,
    scene: &Scene,
    vr: &ViewRay,
    light: Vec3,
    cfg: &Config,
    xs: usize,
    ys: usize,
) -> (r: Vec3)
    requires
        quad_post(*q, scene.surfaces@, *vr, light, *cfg),
        q.xmin <= xs,
        xs + 1 < q.xmax,
        q.ymin <= ys,
        ys + 1 < q.ymax,
    ensures
        r@ == quad_block_avg(*q, xs as int, ys as int),
        exists|cs: (V3, V3, V3, V3)|
            (#[trigger] block_post(
                scene.surfaces@,
                *vr,
                light,
                *cfg,
                xs as int,
                ys as int,
                cs.0,
                cs.1,
                cs.2,
                cs.3,
            )) && r@ == spec_avg4(cs.0, cs.1, cs.2, cs.3),
{
    let ghost surfs = scene.surfaces@;
    let len: usize = q.img.len();
    let wq: usize = q.xmax - q.xmin;
    let ry: usize = ys - q.ymin;
    let rx: usize = xs - q.xmin;
    proof {
        lemma_block_index((q.ymax - q.ymin) as int, wq as int, ry as int, rx as int);
        assert((ry as int) * (wq as int) + rx + wq + 1 < len);
    }
    let idx: usize = ry * wq + rx;
    let p00 = &q.img[idx];
    let p10 = &q.img[idx + 1];
    let p01 = &q.img[idx + wq];
    let p11 = &q.img[idx + wq + 1];
    proof {
        let wi = wq as int;
        lemma_fundamental_div_mod_converse_div(idx as int, wi, ry as int, rx as int);
        lemma_fundamental_div_mod_converse_mod(idx as int, wi, ry as int, rx as int);
        lemma_fundamental_div_mod_converse_div(idx + 1, wi, ry as int, rx + 1);
        lemma_fundamental_div_mod_converse_mod(idx + 1, wi, ry as int, rx + 1);
        assert(idx + wi == (ry + 1) * wi + rx) by (nonlinear_arith)
            requires
                idx == ry * wi + rx;
        lemma_fundamental_div_mod_converse_div(idx + wi, wi, ry + 1, rx as int);
        lemma_fundamental_div_mod_converse_mod(idx + wi, wi, ry + 1, rx as int);
        lemma_fundamental_div_mod_converse_div(idx + wi + 1, wi, ry + 1, rx + 1);
        lemma_fundamental_div_mod_converse_mod(idx + wi + 1, wi, ry + 1, rx + 1);
        assert(block_post(surfs, *vr, light, *cfg, xs as int, ys as int, p00@, p10@, p01@, p11@));
    }
    let avg = avg_color(p00, p10, p01, p11);
    proof {
        let cs = (p00@, p10@, p01@, p11@);
        assert(block_post(surfs, *vr, light, *cfg, xs as int, ys as int, cs.0, cs.1, cs.2, cs.3)
            && avg@ == spec_avg4(cs.0, cs.1, cs.2, cs.3));
    }
    avg
}

/// What one output pixel holds: the exact 2x2 box average of four
/// supersampled colors meeting the pixel contract, with the vertical
/// flip mapping output row 0 to the top of the renderer's y-up image.
pub open spec fn frame_post(
    surfs: Seq<Surface>,
    vr: ViewRay,
    light: Vec3,
    cfg: Config,
    row: int,
    col: int,
    c: V3,
) -> bool {
    let half = (cfg.dim / 2) as int;
    let xs = 2 * col;
    let ys = 2 * (half - 1 - row);
    exists|cs: (V3, V3, V3, V3)|
        (#[trigger] block_post(surfs, vr, light, cfg, xs, ys, cs.0, cs.1, cs.2, cs.3)) && c
            == spec_avg4(cs.0, cs.1, cs.2, cs.3)
}

/// Render a full frame: build the camera basis, render the four
/// supersampled quadrants, then composite by exact 2x2 averaging into
/// the half-resolution output with the vertical flip.
pub fn render(scene: &Scene, eye: Vec3, look: Vec3, light_pos: Vec3, cfg: &Config) -> (frame: Vec<
    Vec<Vec3>,
>)
    requires
        wf_scene(*scene),
        wf_config(*cfg),
        bounded(eye@, WORLD_MAX as int),
        bounded(look@, WORLD_MAX as int),
        bounded(light_pos@, WORLD_MAX as int),
    ensures
        frame@.len() == cfg.dim / 2,
        forall|row: int|
            0 <= row < frame@.len() ==> (#[trigger] frame@[row])@.len() == cfg.dim / 2,
        forall|row: int, col: int|
            0 <= row < frame@.len() && 0 <= col < cfg.dim / 2 ==> frame_post(
                scene.surfaces@,
                spec_camera(eye, look, cfg.dim as int),
                light_pos,
                *cfg,
                row,
                col,
                (#[trigger] frame@[row]@[col])@,
            ),
{
    let dim: usize = cfg.dim;
    let half: usize = dim / 2;
    let viewray_data = ViewRay::new(eye, look, dim);
    let qa = thread_render(scene, light_pos, &viewray_data, 0, half, 0, half, cfg);
    let qb = thread_render(scene, light_pos, &viewray_data, half, dim, 0, half, cfg);
    let qc = thread_render(scene, light_pos, &viewray_data, 0, half, half, dim, cfg);
    let qd = thread_render(scene, light_pos, &viewray_data, half, dim, half, dim, cfg);
    composite(scene, &viewray_data, light_pos, cfg, &qa, &qb, &qc, &qd)
}

/// The four quadrants partition the supersampled image exactly,
/// halving both axes.
pub open spec fn quads_cover(
    qa: ImageQuad,
    qb: ImageQuad,
    qc: ImageQuad,
    qd: ImageQuad,
    dim: int,
) -> bool {
    let half = dim / 2;
    &&& qa.xmin == 0 && qa.xmax == half && qa.ymin == 0 && qa.ymax == half
    &&& qb.xmin == half && qb.xmax == dim && qb.ymin == 0 && qb.ymax == half
    &&& qc.xmin == 0 && qc.xmax == half && qc.ymin == half && qc.ymax == dim
    &&& qd.xmin == half && qd.xmax == dim && qd.ymin == half && qd.ymax == dim
}

/// The output pixel at `(row, col)` is the exact 2x2 average of the
/// four entries of the owning quadrant's buffer at the flipped block
/// coordinates.
pub open spec fn frame_from_quads(
    c: V3,
    qa: ImageQuad,
    qb: ImageQuad,
    qc: ImageQuad,
    qd: ImageQuad,
    cfg: Config,
    row: int,
    col: int,
) -> bool {
    let half = (cfg.dim / 2) as int;
    let xs = 2 * col;
    let ys = 2 * (half - 1 - row);
    c == quad_block_avg(owning_quad(qa, qb, qc, qd, half, xs, ys), xs, ys)
}

/// Merge the four quadrant buffers into the final frame: walk the
/// half-resolution target, average each 2x2 supersample block from
/// the quadrant that holds it, and flip the vertical axis.
pub fn composite(
    scene: &Scene,
    viewray_data: &ViewRay,
    light_pos: Vec3,
    cfg: &Config,
    qa: &ImageQuad,
    qb: &ImageQuad,
    qc: &ImageQuad,
    qd: &ImageQuad,
) -> (frame: Vec<Vec<Vec3>>)
    requires
        wf_config(*cfg),
        quads_cover(*qa, *qb, *qc, *qd, cfg.dim as int),
        quad_post(*qa, scene.surfaces@, *viewray_data, light_pos, *cfg),
        quad_post(*qb, scene.surfaces@, *viewray_data, light_pos, *cfg),
        quad_post(*qc, scene.surfaces@, *viewray_data, light_pos, *cfg),
        quad_post(*qd, scene.surfaces@, *viewray_data, light_pos, *cfg),
    ensures
        frame@.len() == cfg.dim / 2,
        forall|row: int|
            0 <= row < frame@.len() ==> (#[trigger] frame@[row])@.len() == cfg.dim / 2,
        forall|row: int, col: int|
            0 <= row < frame@.len() && 0 <= col < cfg.dim / 2 ==> frame_post(
                scene.surfaces@,
                *viewray_data,
                light_pos,
                *cfg,
                row,
                col,
                (#[trigger] frame@[row]@[col])@,
            ),
        forall|row: int, col: int|
            0 <= row < frame@.len() && 0 <= col < cfg.dim / 2 ==> frame_from_quads(
                (#[trigger] frame@[row]@[col])@,
                *qa,
                *qb,
                *qc,
                *qd,
                *cfg,
                row,
                col,
            ),
{
    let dim: usize = cfg.dim;
    let half: usize = dim / 2;
    let ghost surfs = scene.surfaces@;
    let ghost vr = *viewray_data;
    let mut frame: Vec<Vec<Vec3>> = Vec::new();
    let mut row: usize = 0;
    while row < half
        invariant
            0 <= row <= half,
            half == cfg.dim / 2,
            dim == cfg.dim,
            wf_config(*cfg),
            vr == *viewray_data,
            surfs == scene.surfaces@,
            quads_cover(*qa, *qb, *qc, *qd, cfg.dim as int),
            quad_post(*qa, surfs, vr, light_pos, *cfg),
            quad_post(*qb, surfs, vr, light_pos, *cfg),
            quad_post(*qc, surfs, vr, light_pos, *cfg),
            quad_post(*qd, surfs, vr, light_pos, *cfg),
            frame@.len() == row,
            forall|r: int|
                0 <= r < row ==> (#[trigger] frame@[r])@.len() == half,
            forall|r: int, cl: int|
                0 <= r < row && 0 <= cl < half ==> frame_post(
                    surfs,
                    vr,
                    light_pos,
                    *cfg,
                    r,
                    cl,
                    (#[trigger] frame@[r]@[cl])@,
                ),
            forall|r: int, cl: int|
                0 <= r < row && 0 <= cl < half ==> frame_from_quads(
                    (#[trigger] frame@[r]@[cl])@,
                    *qa,
                    *qb,
                    *qc,
                    *qd,
                    *cfg,
                    r,
                    cl,
                ),
        decreases half - row,
    {
        let mut line: Vec<Vec3> = Vec::new();
        let mut col: usize = 0;
        while col < half
            invariant
                0 <= col <= half,
                0 <= row < half,
                half == cfg.dim / 2,
                dim == cfg.dim,
                wf_config(*cfg),
                vr == *viewray_data,
                surfs == scene.surfaces@,
                quads_cover(*qa, *qb, *qc, *qd, cfg.dim as int),
                quad_post(*qa, surfs, vr, light_pos, *cfg),
                quad_post(*qb, surfs, vr, light_pos, *cfg),
                quad_post(*qc, surfs, vr, light_pos, *cfg),
                quad_post(*qd, surfs, vr, light_pos, *cfg),
                line@.len() == col,
                forall|cl: int|
                    0 <= cl < col ==> frame_post(
                        surfs,
                        vr,
                        light_pos,
                        *cfg,
                        row as int,
                        cl,
                        (#[trigger] line@[cl])@,
                    ),
                forall|cl: int|
                    0 <= cl < col ==> frame_from_quads(
                        (#[trigger] line@[cl])@,
                        *qa,
                        *qb,
                        *qc,
                        *qd,
                        *cfg,
                        row as int,
                        cl,
                    ),
            decreases half - col,
        {
            let y_ans: usize = half - 1 - row;
            let xs: usize = 2 * col;
            let ys: usize = 2 * y_ans;
            proof {
                lemma_even_halves(cfg.dim as int, col as int, y_ans as int);
            }
            let q: &ImageQuad = if ys < half {
                if xs < half {
                    qa
                } else {
                    qb
                }
            } else {
                if xs < half {
                    qc
                } else {
                    qd
                }
            };
            let avg = block_average(q, scene, viewray_data, light_pos, cfg, xs, ys);
            proof {
                assert(frame_post(surfs, vr, light_pos, *cfg, row as int, col as int, avg@));
                assert(*q == owning_quad(*qa, *qb, *qc, *qd, half as int, xs as int, ys as int));
                assert(frame_from_quads(avg@, *qa, *qb, *qc, *qd, *cfg, row as int, col as int));
            }
            line.push(avg);
            col = col + 1;
        }
        frame.push(line);
        row = row + 1;
    }
    frame
}

/// With the supersampled dimension a multiple of four, the halves
/// line up: an even supersample coordinate and its successor land in
/// the same quadrant.
proof fn lemma_even_halves(cdim: int, col: int, yans: int)
    requires
        cdim % 4 == 0,
        4 <= cdim,
        0 <= col < cdim / 2,
        0 <= yans < cdim / 2,
    ensures
        cdim == 2 * (cdim / 2),
        (cdim / 2) % 2 == 0,
        2 <= cdim / 2,
        2 * col < cdim / 2 ==> 2 * col + 1 < cdim / 2,
        2 * col >= cdim / 2 ==> 2 * col + 1 < cdim,
        2 * yans < cdim / 2 ==> 2 * yans + 1 < cdim / 2,
        2 * yans >= cdim / 2 ==> 2 * yans + 1 < cdim,
{
    vstd::arithmetic::div_mod::lemma_fundamental_div_mod(cdim, 4);
    let q4 = cdim / 4;
    assert(cdim == 4 * q4);
    assert(cdim == 2 * (2 * q4)) by (nonlinear_arith)
        requires
            cdim == 4 * q4;
    lemma_div_multiples_vanish(2 * q4, 2);
    let half = cdim / 2;
    assert(half == 2 * q4);
    assert(half % 2 == 0) by {
        vstd::arithmetic::div_mod::lemma_mod_multiples_basic(q4, 2);
        assert(q4 * 2 == 2 * q4) by (nonlinear_arith);
    }
    assert(1 <= q4) by (nonlinear_arith)
        requires
            cdim == 4 * q4,
            4 <= cdim;
    assert((2 * col + 1) % 2 == 1) by {
        vstd::arithmetic::div_mod::lemma_fundamental_div_mod_converse_mod(2 * col + 1, 2, col, 1);
    }
    assert((2 * yans + 1) % 2 == 1) by {
        vstd::arithmetic::div_mod::lemma_fundamental_div_mod_converse_mod(2 * yans + 1, 2, yans, 1);
    }
    if 2 * col < half {
        assert(2 * col + 1 != half);
    }
    if 2 * yans < half {
        assert(2 * yans + 1 != half);
    }
}

/// The 2x2 block starting at row `ry`, column `rx` lies inside a
/// buffer of `rows * w` pixels.
proof fn lemma_block_index(rows: int, w: int, ry: int, rx: int)
    requires
        2 <= w,
        0 <= rx <= w - 2,
        0 <= ry <= rows - 2,
    ensures
        0 <= ry * w + rx,
        ry * w + rx + w + 1 < rows * w,
{
    assert(0 <= ry * w) by (nonlinear_arith)
        requires
            0 <= ry,
            0 <= w;
    assert((ry + 2) * w <= rows * w) by (nonlinear_arith)
        requires
            ry + 2 <= rows,
            0 <= w;
    assert(ry * w + rx + w + 1 < (ry + 2) * w) by (nonlinear_arith)
        requires
            rx <= w - 2,
            2 <= w;
}

/// Quantize one channel to an 8-bit value: scale by 255, truncate,
/// and saturate into `[0, 255]`.
pub open spec fn spec_rgb8(x: int) -> int {
    if x <= 0 {
        0
    } else {
        let q = (x * 255) / (SCALE as int);
        if q > 255 {
            255
        } else {
            q
        }
    }
}

/// Quantize a linear color to the three bytes an image encoder takes.
pub fn to_rgb8(c: &Vec3) -> (r: (u8, u8, u8))
    requires
        bounded(c@, COLOR_MAX as int),
    ensures
        r.0 == spec_rgb8(c@.x),
        r.1 == spec_rgb8(c@.y),
        r.2 == spec_rgb8(c@.z),
{
    (rgb8_channel(c.x), rgb8_channel(c.y), rgb8_channel(c.z))
}

fn rgb8_channel(x: i128) -> (r: u8)
    requires
        -COLOR_MAX <= x <= COLOR_MAX,
    ensures
        r == spec_rgb8(x as int),
{
    if x <= 0 {
        0
    } else {
        let q: i128 = div_floor(x * 255, SCALE);
        proof {
            lemma_div_pos_is_pos(x as int * 255, SCALE as int);
        }
        if q > 255 {
            255
        } else {
            q as u8
        }
    }
}

} // verus!
