//! Color model: an RGB triple of fixed-point scalars and its quantization
//! to 8-bit device pixels.
//!
//! Color arithmetic is unbounded — a channel may leave [0, 1] freely
//! while colors are combined.  Clamping happens only at quantization,
//! which maps a channel at or above 1.0 to 255, at or below 0.0 to 0,
//! and otherwise rounds `255 * v` to the nearest integer.

use vstd::prelude::*;

use crate::scalar::{fx_mul, fxabs, lemma_round_div_bound, round_div, SCALE};

verus! {

/// An RGB triple of fixed-point scalars.
pub type Color = (i64, i64, i64);

/// A device pixel: three 8-bit channels.
pub type Pixel = [u8; 3];

/// Largest value of an 8-bit channel.
pub const RBG_MAX_INT: u8 = 255;

/// Fixed-point value of a fully saturated channel: 1.0.
pub const MAX_COLOR: i64 = SCALE;

/// Fixed-point value of an empty channel: 0.0.
pub const MIN_COLOR: i64 = 0;

/// Clamp-then-round quantization of one channel to 8 bits.
pub open spec fn quantize_channel(v: int) -> int {
    if v >= SCALE {
        255
    } else if v <= 0 {
        0
    } else {
        round_div(255 * v, SCALE as int)
    }
}

/// Creates a tuple representing a Color.
pub fn color(r: i64, g: i64, b: i64) -> (c: Color)
    ensures
        c == (r, g, b),
{
    (r, g, b)
}

/// Adds two Colors together.
pub fn add_colors(left: Color, right: Color) -> (c: Color)
    requires
        i64::MIN <= left.0 + right.0 <= i64::MAX,
        i64::MIN <= left.1 + right.1 <= i64::MAX,
        i64::MIN <= left.2 + right.2 <= i64::MAX,
    ensures
        c.0 == left.0 + right.0,
        c.1 == left.1 + right.1,
        c.2 == left.2 + right.2,
{
    (left.0 + right.0, left.1 + right.1, left.2 + right.2)
}

/// Subtracts the right Color from the left Color.
pub fn subtract_colors(left: Color, right: Color) -> (c: Color)
    requires
        i64::MIN <= left.0 - right.0 <= i64::MAX,
        i64::MIN <= left.1 - right.1 <= i64::MAX,
        i64::MIN <= left.2 - right.2 <= i64::MAX,
    ensures
        c.0 == left.0 - right.0,
        c.1 == left.1 - right.1,
        c.2 == left.2 - right.2,
{
    (left.0 - right.0, left.1 - right.1, left.2 - right.2)
}

/// Multiplies a Color by a scalar, channel by channel.
pub fn multiply_by_scalar(tup: Color, scalar: i64) -> (c: Color)
    requires
        fxabs(tup.0 * scalar) <= i64::MAX as int * SCALE as int,
        fxabs(tup.1 * scalar) <= i64::MAX as int * SCALE as int,
        fxabs(tup.2 * scalar) <= i64::MAX as int * SCALE as int,
    ensures
        c.0 == round_div(tup.0 * scalar, SCALE as int),
        c.1 == round_div(tup.1 * scalar, SCALE as int),
        c.2 == round_div(tup.2 * scalar, SCALE as int),
{
    (fx_mul(tup.0, scalar), fx_mul(tup.1, scalar), fx_mul(tup.2, scalar))
}

/// Multiplies two Colors, channel by channel.
pub fn multiply_by_color(left: Color, right: Color) -> (c: Color)
    requires
        fxabs(left.0 * right.0) <= i64::MAX as int * SCALE as int,
        fxabs(left.1 * right.1) <= i64::MAX as int * SCALE as int,
        fxabs(left.2 * right.2) <= i64::MAX as int * SCALE as int,
    ensures
        c.0 == round_div(left.0 * right.0, SCALE as int),
        c.1 == round_div(left.1 * right.1, SCALE as int),
        c.2 == round_div(left.2 * right.2, SCALE as int),
{
    (fx_mul(left.0, right.0), fx_mul(left.1, right.1), fx_mul(left.2, right.2))
}

/// Quantizes one channel to 8 bits under the clamp-then-round policy.
fn quantize_one(v: i64) -> (r: u8)
    ensures
        r as int == quantize_channel(v as int),
{
    if v >= MAX_COLOR {
        RBG_MAX_INT
    } else if v <= MIN_COLOR {
        0
    } else {
        proof {
            lemma_round_div_bound(255 * v as int, SCALE as int, 255);
            crate::scalar::lemma_round_div_nonneg(255 * v as int, SCALE as int);
        }
        let q: u64 = (255 * v as u64 + SCALE as u64 / 2) / SCALE as u64;
        q as u8
    }
}

/// Creates a Pixel from a Color.
pub fn color_into_pixel(c: Color) -> (p: Pixel)
    ensures
        p@[0] == quantize_channel(c.0 as int),
        p@[1] == quantize_channel(c.1 as int),
        p@[2] == quantize_channel(c.2 as int),
{
    [quantize_one(c.0), quantize_one(c.1), quantize_one(c.2)]
}

/// A channel at or above full saturation quantizes to 255, and a channel
/// at or below zero quantizes to 0, whatever its magnitude.
pub proof fn lemma_quantize_clamps(v: int)
    ensures
        v >= SCALE ==> quantize_channel(v) == 255,
        v <= 0 ==> quantize_channel(v) == 0,
        0 <= quantize_channel(v) <= 255,
{
    if 0 < v < SCALE {
        lemma_round_div_bound(255 * v, SCALE as int, 255);
        crate::scalar::lemma_round_div_nonneg(255 * v, SCALE as int);
    }
}

} // verus!
