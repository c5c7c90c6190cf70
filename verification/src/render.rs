//! The per-pixel sampling driver.
//!
//! Every pixel is a pure function of the scene, the camera, the render
//! parameters and its own sampler seed, so pixels may be computed in any
//! order and on any number of workers without changing a single bit of
//! the output.  `render` produces the whole image in row-major order,
//! top row first; `render_pixel` produces any one pixel on its own, for
//! drivers that schedule pixels across workers.
use crate::camera::Camera;
use crate::color::{finalize_pixel, finalize_s, rgb_wf};
use crate::fx;
use crate::fx::{sdiv_s, SCALE};
use crate::hittable::{HittableList, Obj};
use crate::ray::{color_s, Ray};
use crate::rng::{next_state_s, unit_from, Rng};
use crate::vec3::{Color, V3};
use vstd::arithmetic::div_mod::{
    lemma_div_is_ordered, lemma_div_pos_is_pos, lemma_fundamental_div_mod,
    lemma_fundamental_div_mod_converse_div,
};
use vstd::prelude::*;

verus! {

/// Stride between the seeds of consecutive pixels.
pub const SEED_STRIDE: u64 = 0x9E3779B97F4A7C15;

/// The sampler seed of the pixel at flat index `index`.
pub open spec fn pixel_seed_s(seed: u64, index: int) -> u64 {
    (((seed as int) + index * (SEED_STRIDE as int)) % 0x1_0000_0000_0000_0000) as u64
}

/// The accumulated radiance of the first `samples` samples of a pixel,
/// and the sampler state after them.  Each sample jitters the pixel
/// coordinates by a unit draw, maps them to the image plane, and casts
/// the camera ray through the scene.
pub open spec fn sample_loop_s(
    cam: Camera,
    objs: Seq<Obj>,
    row: int,
    col: int,
    width: int,
    height: int,
    samples: nat,
    depth: nat,
    s: u64,
) -> (V3, u64)
    decreases samples,
{
    if samples == 0 {
        (V3 { x: 0, y: 0, z: 0 }, s)
    } else {
        let prev = sample_loop_s(cam, objs, row, col, width, height, (samples - 1) as nat, depth, s);
        let s0 = prev.1;
        let du = unit_from(s0);
        let s1 = next_state_s(s0);
        let dv = unit_from(s1);
        let s2 = next_state_s(s1);
        let u = sdiv_s(col * SCALE + du, width * SCALE);
        let v = sdiv_s((height - 1 - row) * SCALE + dv, height * SCALE);
        let pair = color_s(objs, cam.ger_ray_s(u, v), depth, s2);
        (prev.0.add_s(pair.0), pair.1)
    }
}

/// The finished value of one pixel, from its own seed.
pub open spec fn pixel_s(
    cam: Camera,
    objs: Seq<Obj>,
    row: int,
    col: int,
    width: int,
    height: int,
    samples: nat,
    depth: nat,
    s: u64,
) -> V3 {
    finalize_s(
        sample_loop_s(cam, objs, row, col, width, height, samples, depth, s).0,
        samples as int,
    )
}

/// A normalized screen coordinate: the jittered pixel index over the
/// extent, both at the fixed-point scale.  The result stays within the
/// unit interval.
proof fn lemma_coord_div(numer: int, extent_fx: int)
    requires
        0 <= numer < extent_fx,
        extent_fx >= 1,
    ensures
        0 <= sdiv_s(numer, extent_fx) < SCALE,
{
    fx::lemma_tdiv_mag(numer * SCALE, extent_fx);
    lemma_div_pos_is_pos(numer * SCALE, extent_fx);
    assert(numer * SCALE <= extent_fx * SCALE - SCALE && numer * SCALE >= 0) by (nonlinear_arith)
        requires
            0 <= numer <= extent_fx - 1,
    ;
    lemma_div_is_ordered(numer * SCALE, extent_fx * (SCALE as int) - 1, extent_fx);
    assert((SCALE as int - 1) * extent_fx + (extent_fx - 1) == extent_fx * (SCALE as int) - 1)
        by (nonlinear_arith);
    lemma_fundamental_div_mod_converse_div(
        extent_fx * (SCALE as int) - 1,
        extent_fx,
        SCALE as int - 1,
        extent_fx - 1,
    );
}

/// The accumulated radiance of one pixel, over `samples` jittered
/// camera rays.
pub fn render_pixel(
    cam: &Camera,
    world: &HittableList,
    row: u32,
    col: u32,
    width: u32,
    height: u32,
    samples: u32,
    depth: u8,
    rng: &mut Rng,
) -> (c: Color)
    requires
        cam.camera_wf(),
        world.scene_wf(),
        col < width,
        row < height,
        width <= 0x10_0000,
        height <= 0x10_0000,
        1 <= samples <= 0x10_0000,
    ensures
        c@ == pixel_s(
            *cam,
            world.objects@,
            row as int,
            col as int,
            width as int,
            height as int,
            samples as nat,
            depth as nat,
            old(rng).state,
        ),
        final(rng).state == sample_loop_s(
            *cam,
            world.objects@,
            row as int,
            col as int,
            width as int,
            height as int,
            samples as nat,
            depth as nat,
            old(rng).state,
        ).1,
        rgb_wf(c@),
{
    let mut sum: Color = Color::new(0, 0, 0);
    let mut i: u32 = 0;
    let width_fx: i64 = (width as i64) * SCALE;
    let height_fx: i64 = (height as i64) * SCALE;
    let vrow: i64 = (height as i64) - 1 - (row as i64);
    while i < samples
        invariant
            cam.camera_wf(),
            world.scene_wf(),
            col < width,
            row < height,
            width <= 0x10_0000,
            height <= 0x10_0000,
            1 <= samples <= 0x10_0000,
            width_fx == (width as int) * SCALE,
            height_fx == (height as int) * SCALE,
            vrow == height - 1 - row,
            0 <= i <= samples,
            (sum@, rng.state) == sample_loop_s(
                *cam,
                world.objects@,
                row as int,
                col as int,
                width as int,
                height as int,
                i as nat,
                depth as nat,
                old(rng).state,
            ),
            0 <= sum@.x <= (i as int) * (SCALE as int),
            0 <= sum@.y <= (i as int) * (SCALE as int),
            0 <= sum@.z <= (i as int) * (SCALE as int),
        decreases samples - i,
    {
        let du: i64 = rng.next_unit();
        let dv: i64 = rng.next_unit();
        let nu: i64 = (col as i64) * SCALE + du;
        let nv: i64 = vrow * SCALE + dv;
        proof {
            assert((col as int) * (SCALE as int) + du < (width as int) * (SCALE as int)
                && 0 <= (col as int) * (SCALE as int)) by (nonlinear_arith)
                requires
                    0 <= (col as int) < width as int,
                    0 <= du < SCALE as int,
            ;
            assert((vrow as int) * (SCALE as int) + dv < (height as int) * (SCALE as int)
                && 0 <= (vrow as int) * (SCALE as int)) by (nonlinear_arith)
                requires
                    0 <= (vrow as int) < height as int,
                    0 <= dv < SCALE as int,
            ;
            lemma_coord_div(nu as int, width_fx as int);
            lemma_coord_div(nv as int, height_fx as int);
        }
        let u: i64 = fx::sdiv(nu, width_fx);
        let v: i64 = fx::sdiv(nv, height_fx);
        let r: Ray = cam.ger_ray(u, v);
        let c: Color = r.color(world, depth, rng);
        proof {
            assert((i as int) * (SCALE as int) + (SCALE as int) == (i + 1) * (SCALE as int))
                by (nonlinear_arith);
        }
        sum = sum.add(c);
        i = i + 1;
    }
    finalize_pixel(&sum, samples)
}

/// The whole image: pixel values in row-major order, top row first.
/// Every pixel's value is the pure function `pixel_s` of the scene, the
/// camera, the parameters, and the pixel's own seed, so the buffer does
/// not depend on any evaluation order.
pub fn render(
    cam: &Camera,
    world: &HittableList,
    width: u32,
    height: u32,
    samples: u32,
    depth: u8,
    seed: u64,
) -> (img: Vec<Color>)
    requires
        cam.camera_wf(),
        world.scene_wf(),
        1 <= width <= 0x10_0000,
        1 <= height <= 0x10_0000,
        1 <= samples <= 0x10_0000,
        (width as int) * (height as int) <= 0x1_0000_0000,
    ensures
        img@.len() == (width as int) * (height as int),
        forall|i: int|
            0 <= i < img@.len() ==> (#[trigger] img@[i])@ == pixel_s(
                *cam,
                world.objects@,
                i / (width as int),
                i % (width as int),
                width as int,
                height as int,
                samples as nat,
                depth as nat,
                pixel_seed_s(seed, i),
            ),
        forall|i: int| 0 <= i < img@.len() ==> rgb_wf((#[trigger] img@[i])@),
{
    let total: u64 = (width as u64) * (height as u64);
    let mut img: Vec<Color> = Vec::new();
    let mut idx: u64 = 0;
    proof {
        assert((width as int) * (height as int) >= 0) by (nonlinear_arith)
            requires
                width as int >= 1,
                height as int >= 1,
        ;
    }
    while idx < total
        invariant
            cam.camera_wf(),
            world.scene_wf(),
            1 <= width <= 0x10_0000,
            1 <= height <= 0x10_0000,
            1 <= samples <= 0x10_0000,
            total == (width as int) * (height as int),
            total <= 0x1_0000_0000,
            0 <= idx <= total,
            img@.len() == idx,
            forall|i: int|
                0 <= i < img@.len() ==> (#[trigger] img@[i])@ == pixel_s(
                    *cam,
                    world.objects@,
                    i / (width as int),
                    i % (width as int),
                    width as int,
                    height as int,
                    samples as nat,
                    depth as nat,
                    pixel_seed_s(seed, i),
                ),
            forall|i: int| 0 <= i < img@.len() ==> rgb_wf((#[trigger] img@[i])@),
        decreases total - idx,
    {
        let row: u64 = idx / (width as u64);
        let col: u64 = idx % (width as u64);
        proof {
            lemma_fundamental_div_mod(idx as int, width as int);
            assert((row as int) < (height as int)) by (nonlinear_arith)
                requires
                    (row as int) == (idx as int) / (width as int),
                    (idx as int) < (width as int) * (height as int),
                    width as int >= 1,
                    (idx as int) >= 0,
                    (idx as int) / (width as int) * (width as int) + (idx as int) % (width as int)
                        == idx as int,
                    0 <= (idx as int) % (width as int) < width as int,
            ;
        }
        let mut rng: Rng = Rng::with_seed(seed_at(seed, idx));
        let c: Color = render_pixel(
            cam,
            world,
            row as u32,
            col as u32,
            width,
            height,
            samples,
            depth,
            &mut rng,
        );
        img.push(c);
        idx = idx + 1;
    }
    img
}

/// The seed of the pixel at flat index `index`.
fn seed_at(seed: u64, index: u64) -> (r: u64)
    ensures
        r == pixel_seed_s(seed, index as int),
{
    proof {
        assert((seed as int) + (index as int) * (SEED_STRIDE as int) < u128::MAX)
            by (nonlinear_arith)
            requires
                0 <= seed as int <= u64::MAX,
                0 <= index as int <= u64::MAX,
                SEED_STRIDE as int <= u64::MAX,
        ;
    }
    let t: u128 = (seed as u128) + (index as u128) * (SEED_STRIDE as u128);
    (t % 0x1_0000_0000_0000_0000u128) as u64
}

/// Re-rendering the same scene, camera, parameters and seed produces a
/// bit-for-bit identical pixel buffer: each pixel is the pure function
/// `pixel_s` of those inputs alone, whatever order or worker computed
/// it.
pub proof fn lemma_render_idempotent(
    a: Seq<V3>,
    b: Seq<V3>,
    cam: Camera,
    objs: Seq<Obj>,
    width: int,
    height: int,
    samples: nat,
    depth: nat,
    seed: u64,
)
    requires
        a.len() == width * height,
        b.len() == width * height,
        forall|i: int|
            0 <= i < a.len() ==> #[trigger] a[i] == pixel_s(
                cam,
                objs,
                i / width,
                i % width,
                width,
                height,
                samples,
                depth,
                pixel_seed_s(seed, i),
            ),
        forall|i: int|
            0 <= i < b.len() ==> #[trigger] b[i] == pixel_s(
                cam,
                objs,
                i / width,
                i % width,
                width,
                height,
                samples,
                depth,
                pixel_seed_s(seed, i),
            ),
    ensures
        a =~= b,
{
}

} // verus!
