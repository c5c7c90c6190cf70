//! Final pixel mapping: average the accumulated samples, apply gamma
//! correction, clamp, and quantize to 8-bit channels.
use crate::fx;
use crate::fx::{sqrt_fx_s, tdiv};
use crate::vec3::{Color, V3};
use vstd::prelude::*;

verus! {

/// Upper clamp of a finished channel, just below one, so that the 8-bit
/// quantization never reaches 256.
pub const CLAMP_MAX: i64 = 65470;

/// One channel of the final pixel value: the sample average,
/// gamma-corrected by a square root and clamped into `[0, CLAMP_MAX]`.
pub open spec fn finalize1_s(c: int, samples: int) -> int {
    let avg = tdiv(c, samples);
    let g = sqrt_fx_s(avg);
    if g > CLAMP_MAX {
        CLAMP_MAX as int
    } else if g < 0 {
        0
    } else {
        g
    }
}

/// The final value of a pixel from its accumulated sample sum.
pub open spec fn finalize_s(sum: V3, samples: int) -> V3 {
    V3 {
        x: finalize1_s(sum.x, samples),
        y: finalize1_s(sum.y, samples),
        z: finalize1_s(sum.z, samples),
    }
}

/// A finished pixel channel: within `[0, CLAMP_MAX]`.
pub open spec fn rgb_wf(c: V3) -> bool {
    0 <= c.x <= CLAMP_MAX && 0 <= c.y <= CLAMP_MAX && 0 <= c.z <= CLAMP_MAX
}

/// One channel: divide by the sample count, gamma-correct, clamp.
fn finalize1(c: i64, samples: u32) -> (r: i64)
    requires
        samples >= 1,
        c >= 0,
    ensures
        r == finalize1_s(c as int, samples as int),
        0 <= r <= CLAMP_MAX,
{
    let avg: i64 = ((c as u128) / (samples as u128)) as i64;
    proof {
        fx::lemma_tdiv_mag(c as int, samples as int);
        vstd::arithmetic::div_mod::lemma_div_nonincreasing(c as int, samples as int);
        vstd::arithmetic::div_mod::lemma_div_pos_is_pos(c as int, samples as int);
    }
    let g: i64 = fx::sqrt_fx(avg);
    if g > CLAMP_MAX {
        CLAMP_MAX
    } else {
        g
    }
}

/// The final value of a pixel from its accumulated sample sum: divide
/// each channel by the number of samples, take the square root (gamma 2
/// correction) and clamp just below one.
pub fn finalize_pixel(sum: &Color, samples: u32) -> (c: Color)
    requires
        samples >= 1,
        sum@.x >= 0,
        sum@.y >= 0,
        sum@.z >= 0,
    ensures
        c@ == finalize_s(sum@, samples as int),
        rgb_wf(c@),
{
    Color {
        x: finalize1(sum.x, samples),
        y: finalize1(sum.y, samples),
        z: finalize1(sum.z, samples),
    }
}

/// One quantized channel: the top eight bits of a finished channel.
pub open spec fn byte_of(c: int) -> int {
    c / 256
}

/// Quantize a finished pixel to three 8-bit channels.
pub fn to_rgb8(c: &Color) -> (r: (u8, u8, u8))
    requires
        rgb_wf(c@),
    ensures
        r.0 == byte_of(c@.x),
        r.1 == byte_of(c@.y),
        r.2 == byte_of(c@.z),
{
    (
        ((c.x as u64) / 256) as u8,
        ((c.y as u64) / 256) as u8,
        ((c.z as u64) / 256) as u8,
    )
}

} // verus!
