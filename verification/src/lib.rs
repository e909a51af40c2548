//! A small path tracer over exact fixed-point arithmetic.
//!
//! Every scalar is an `i64` carrying 16 fractional bits (see [`fixed`]), so
//! the whole rendering core — bounding boxes, sphere intersection, the
//! bounding-volume hierarchy, materials, camera and integrator — is specified
//! and verified as integer arithmetic. Randomness is drawn from a caller's
//! generator; everything else is deterministic and pinned by contracts.

pub mod camera;
pub mod cli;
pub mod fixed;
pub mod hittable;
pub mod materials;
pub mod ray;
pub mod rng;
pub mod scene;
pub mod vec;

use vstd::prelude::*;
use crate::camera::Camera;
use crate::fixed::{FX_ONE, fmul, fsqrt, fx_div, fx_sqrt, lemma_fmul_unit, lemma_sqrt_floor_bound,
    lemma_tdiv_mono};
use crate::hittable::bvh::{BvhTree, lemma_tree_spheres_wf};
use crate::hittable::{lemma_linear_hit_range, linear_hit};
use crate::materials::color_unit;
use crate::ray::{Ray, T_LIMIT};
use crate::rng::rand_unit;
use crate::vec::{Color, Vec3, add_spec, norm2_spec, scale_spec, unit_spec};

verus! {

/// The lower bound of every shading query, a little above zero so a
/// scattered ray cannot re-hit the surface it left.
pub const T_EPS: i64 = 66;

/// The channel ceiling applied before quantization.
pub const CLAMP_MAX: i64 = 65470;

/// The analytic background: a vertical blend from white to sky blue by the
/// normalized direction's height, clamped into the unit interval. A ray
/// without direction is black.
pub open spec fn sky_spec(r: Ray) -> Color {
    if norm2_spec(r.direction) == 0 {
        Vec3 { x: 0i64, y: 0i64, z: 0i64 }
    } else {
        let raw = unit_spec(r.direction).y + 65536;
        let t = if raw < 0 {
            0
        } else if raw > 131072 {
            65536
        } else {
            raw / 2
        };
        add_spec(
            scale_spec(Vec3 { x: 65536i64, y: 65536i64, z: 65536i64 }, 65536 - t),
            scale_spec(Vec3 { x: 32768i64, y: 45875i64, z: 65536i64 }, t),
        )
    }
}

/// Multiplying by one whole unit is exact.
proof fn lemma_fmul_one(k: int)
    requires
        0 <= k <= 65536,
    ensures
        fmul(65536, k) == k,
{
    vstd::arithmetic::div_mod::lemma_div_multiples_vanish(k, 65536);
}

fn sky(ray: &Ray) -> (c: Color)
    requires
        ray.wf(),
    ensures
        c == sky_spec(*ray),
        color_unit(c),
{
    let d = ray.direction();
    let n2 = d.norm2();
    if n2 == 0 {
        return Vec3::zeros();
    }
    let unit_dir = d.unit();
    let raw = unit_dir.y + FX_ONE;
    let t: i64 = if raw < 0 {
        0
    } else if raw > 2 * FX_ONE {
        FX_ONE
    } else {
        raw / 2
    };
    proof {
        lemma_fmul_one(65536 - t);
        lemma_fmul_unit(32768, t as int);
        lemma_fmul_unit(45875, t as int);
        lemma_fmul_one(t as int);
    }
    let white = Vec3::new(FX_ONE, FX_ONE, FX_ONE);
    let blue = Vec3::new(32768, 45875, FX_ONE);
    white.scale(FX_ONE - t).add(blue.scale(t))
}

/// The recursive shading integrator: black at the depth limit, the sky on a
/// miss, and otherwise the scattered ray's color attenuated by the surface
/// — or black where the material absorbs. Every channel of the result stays
/// within the unit interval.
pub fn ray_color(ray: &Ray, world: &BvhTree, depth: u32, rng: &mut rand::rngs::SmallRng) -> (c:
    Color)
    requires
        ray.wf(),
        world.wf(),
    ensures
        color_unit(c),
        depth == 0 ==> c == (Vec3 { x: 0i64, y: 0i64, z: 0i64 }),
        depth >= 1 && linear_hit(world.spheres(), *ray, T_EPS as int, T_LIMIT as int) is None
            ==> c == sky_spec(*ray),
        depth == 1 && linear_hit(world.spheres(), *ray, T_EPS as int, T_LIMIT as int) is Some
            ==> c == (Vec3 { x: 0i64, y: 0i64, z: 0i64 }),
    decreases depth,
{
    if depth == 0 {
        return Vec3::zeros();
    }
    match world.hit(ray, T_EPS, T_LIMIT) {
        Some(h) => {
            proof {
                lemma_tree_spheres_wf(*world);
                lemma_linear_hit_range(world.spheres(), *ray, T_EPS as int, T_LIMIT as int);
            }
            match h.material.scatter(ray, &h, rng) {
                Some((scattered, attenuation)) => {
                    let rec = ray_color(&scattered, world, depth - 1, rng);
                    proof {
                        lemma_fmul_unit(attenuation.x as int, rec.x as int);
                        lemma_fmul_unit(attenuation.y as int, rec.y as int);
                        lemma_fmul_unit(attenuation.z as int, rec.z as int);
                        if depth == 1 {
                            assert(attenuation.x as int * 0 == 0);
                            assert(attenuation.y as int * 0 == 0);
                            assert(attenuation.z as int * 0 == 0);
                        }
                    }
                    attenuation.mul(rec)
                },
                None => Vec3::zeros(),
            }
        },
        None => sky(ray),
    }
}

/// One accumulated channel scaled to the sample mean, gamma-corrected by a
/// square root, clamped just under one, and quantized to eight bits.
pub open spec fn quantize_spec(acc: int, samples: int) -> int {
    let mean = acc / samples;
    let g = fsqrt(mean);
    let c = if g > 65470 { 65470 } else { g };
    (256 * c) / 65536
}

pub fn quantize_channel(acc: i64, samples: u32) -> (b: u8)
    requires
        1 <= samples,
        0 <= acc <= samples * 65536,
    ensures
        b == quantize_spec(acc as int, samples as int),
{
    let mean = acc / (samples as i64);
    proof {
        vstd::arithmetic::div_mod::lemma_div_pos_is_pos(acc as int, samples as int);
        vstd::arithmetic::div_mod::lemma_div_is_ordered(acc as int, samples as int * 65536,
            samples as int);
        vstd::arithmetic::div_mod::lemma_div_multiples_vanish(65536, samples as int);
    }
    let g = fx_sqrt(mean);
    proof {
        lemma_sqrt_floor_bound(mean as int * 65536, 65537);
    }
    let c: i64 = if g > CLAMP_MAX {
        CLAMP_MAX
    } else {
        g
    };
    ((256 * c) / 65536) as u8
}

/// Render one image row at raster height `y` (row zero is the bottom of the
/// image): for each pixel, average the given number of jittered samples and
/// quantize the three channels.
pub fn render_row(
    world: &BvhTree,
    camera: &Camera,
    y: u32,
    width: u32,
    height: u32,
    samples: u32,
    depth: u32,
    rng: &mut rand::rngs::SmallRng,
) -> (row: Vec<u8>)
    requires
        world.wf(),
        camera.wf(),
        2 <= width <= 16384,
        2 <= height <= 16384,
        y < height,
        1 <= samples <= 0x100000,
    ensures
        row.len() == 3 * width,
{
    let mut row: Vec<u8> = Vec::new();
    let mut x: u32 = 0;
    while x < width
        invariant
            0 <= x <= width,
            row.len() == 3 * x,
            world.wf(),
            camera.wf(),
            2 <= width <= 16384,
            2 <= height <= 16384,
            y < height,
            1 <= samples <= 0x100000,
        decreases width - x,
    {
        let mut ax: i64 = 0;
        let mut ay: i64 = 0;
        let mut az: i64 = 0;
        let mut k: u32 = 0;
        while k < samples
            invariant
                0 <= k <= samples,
                0 <= ax <= k * 65536,
                0 <= ay <= k * 65536,
                0 <= az <= k * 65536,
                world.wf(),
                camera.wf(),
                2 <= width <= 16384,
                2 <= height <= 16384,
                y < height,
                x < width,
                1 <= samples <= 0x100000,
            decreases samples - k,
        {
            let u = pixel_coord(x, width, rng);
            let v = pixel_coord(y, height, rng);
            let ray = camera.get_ray(u, v, rng);
            let c = ray_color(&ray, world, depth, rng);
            ax = ax + c.x;
            ay = ay + c.y;
            az = az + c.z;
            k = k + 1;
        }
        row.push(quantize_channel(ax, samples));
        row.push(quantize_channel(ay, samples));
        row.push(quantize_channel(az, samples));
        x = x + 1;
    }
    row
}

/// The jittered normalized coordinate of pixel `i` of `n`, clamped into the
/// unit interval.
fn pixel_coord(i: u32, n: u32, rng: &mut rand::rngs::SmallRng) -> (c: i64)
    requires
        2 <= n <= 16384,
        i < n,
    ensures
        0 <= c <= FX_ONE,
{
    let jitter = rand_unit(rng);
    let num = (i as i64) * FX_ONE + jitter;
    let den = ((n - 1) as i64) * FX_ONE;
    let raw = fx_div(num, den);
    proof {
        lemma_tdiv_mono(0, num as int * 65536, den as int);
    }
    if raw > FX_ONE {
        FX_ONE
    } else {
        raw
    }
}

/// Render the whole image into a flat row-major byte buffer, three channels
/// per pixel, top row first, regardless of how callers schedule the rows.
pub fn render(
    world: &BvhTree,
    camera: &Camera,
    width: u32,
    height: u32,
    samples: u32,
    depth: u32,
    rng: &mut rand::rngs::SmallRng,
) -> (pixels: Vec<u8>)
    requires
        world.wf(),
        camera.wf(),
        2 <= width <= 16384,
        2 <= height <= 16384,
        1 <= samples <= 0x100000,
    ensures
        pixels.len() == 3 * width * height,
{
    let mut pixels: Vec<u8> = Vec::new();
    let mut yi: u32 = 0;
    while yi < height
        invariant
            0 <= yi <= height,
            pixels.len() == 3 * width * yi,
            world.wf(),
            camera.wf(),
            2 <= width <= 16384,
            2 <= height <= 16384,
            1 <= samples <= 0x100000,
        decreases height - yi,
    {
        let y = height - 1 - yi;
        let mut r = render_row(world, camera, y, width, height, samples, depth, rng);
        pixels.append(&mut r);
        proof {
            assert(3 * width * (yi + 1) == 3 * width * yi + 3 * width) by (nonlinear_arith);
        }
        yi = yi + 1;
    }
    pixels
}

} // verus!
