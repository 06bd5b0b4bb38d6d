//! Colors with fixed-point channels.
//!
//! A channel holds `value * SCALE` with `SCALE` standing for full
//! intensity.  Construction clamps into `[0, SCALE]`; accumulation (sums
//! of samples, attenuated bounce light) may exceed `SCALE` and is clamped
//! only on conversion to an output pixel byte.

use vstd::prelude::*;
use crate::fx::{SCALE, tdiv};
use crate::fx::lemma_mul_abs_bound;

verus! {

#[derive(Clone, Copy, Debug, PartialEq, Eq, Structural)]
pub struct Color {
    pub r: i64,
    pub g: i64,
    pub b: i64,
}

/// All channels nonnegative.
pub open spec fn nonneg(c: Color) -> bool {
    &&& 0 <= c.r
    &&& 0 <= c.g
    &&& 0 <= c.b
}

/// All channels at most `m`.
pub open spec fn bounded(c: Color, m: int) -> bool {
    &&& c.r <= m
    &&& c.g <= m
    &&& c.b <= m
}

/// Clamp into the displayable range `[0, SCALE]`.
pub open spec fn spec_clamp(v: int) -> int {
    if v < 0 {
        0
    } else if v > SCALE {
        SCALE as int
    } else {
        v
    }
}

/// The color a `new` call builds: each channel clamped.
pub open spec fn spec_color_new(r: i64, g: i64, b: i64) -> Color {
    Color { r: spec_clamp(r as int) as i64, g: spec_clamp(g as int) as i64, b: spec_clamp(b as int) as i64 }
}

/// The channel a hex byte turns into: `byte * SCALE / 255`.
pub open spec fn spec_hex_channel(byte: int) -> int {
    byte * (SCALE as int) / 255
}

/// Componentwise sum.
pub open spec fn spec_color_add(a: Color, b: Color) -> Color {
    Color { r: (a.r + b.r) as i64, g: (a.g + b.g) as i64, b: (a.b + b.b) as i64 }
}

/// Componentwise attenuation: each channel of `c` scaled by the matching
/// albedo channel (a fixed-point factor in `[0, SCALE]`).
pub open spec fn spec_attenuate(albedo: Color, c: Color) -> Color {
    Color {
        r: tdiv(albedo.r * c.r, SCALE as int) as i64,
        g: tdiv(albedo.g * c.g, SCALE as int) as i64,
        b: tdiv(albedo.b * c.b, SCALE as int) as i64,
    }
}

fn clamp_channel(v: i64) -> (r: i64)
    ensures
        r as int == spec_clamp(v as int),
{
    if v < 0 {
        0
    } else if v > SCALE {
        SCALE
    } else {
        v
    }
}

impl Color {
    /// A color from fixed-point channels, clamped into `[0, SCALE]`.
    pub fn new(r: i64, g: i64, b: i64) -> (c: Color)
        ensures
            c == spec_color_new(r, g, b),
            nonneg(c),
            bounded(c, SCALE as int),
    {
        Color { r: clamp_channel(r), g: clamp_channel(g), b: clamp_channel(b) }
    }

    /// A color from a packed `0xRRGGBB` value.
    pub fn hex(value: u32) -> (c: Color)
        ensures
            c.r as int == spec_hex_channel(((value >> 16u32) & 0xff) as int),
            c.g as int == spec_hex_channel(((value >> 8u32) & 0xff) as int),
            c.b as int == spec_hex_channel((value & 0xff) as int),
            nonneg(c),
            bounded(c, SCALE as int),
    {
        let rb = ((value >> 16u32) & 0xff) as i64;
        let gb = ((value >> 8u32) & 0xff) as i64;
        let bb = (value & 0xff) as i64;
        assert((value >> 16u32) & 0xff <= 255 && (value >> 8u32) & 0xff <= 255 && value & 0xff
            <= 255) by (bit_vector);
        proof {
            lemma_hex_channel_bounds(rb as int);
            lemma_hex_channel_bounds(gb as int);
            lemma_hex_channel_bounds(bb as int);
        }
        Color { r: rb * SCALE / 255, g: gb * SCALE / 255, b: bb * SCALE / 255 }
    }

    /// Componentwise sum; accumulation does not clamp.
    pub fn add(&self, other: &Color) -> (c: Color)
        requires
            self.r + other.r <= i64::MAX,
            self.g + other.g <= i64::MAX,
            self.b + other.b <= i64::MAX,
            i64::MIN <= self.r + other.r,
            i64::MIN <= self.g + other.g,
            i64::MIN <= self.b + other.b,
        ensures
            c == spec_color_add(*self, *other),
    {
        Color { r: self.r + other.r, g: self.g + other.g, b: self.b + other.b }
    }

    /// Attenuates `other` by this color taken as an albedo.
    pub fn attenuate(&self, other: &Color) -> (c: Color)
        requires
            nonneg(*self),
            bounded(*self, SCALE as int),
            nonneg(*other),
            bounded(*other, 0x1000_0000_0000_0000),
        ensures
            c == spec_attenuate(*self, *other),
            nonneg(c),
            c.r <= other.r,
            c.g <= other.g,
            c.b <= other.b,
    {
        let r = attenuate_channel(self.r, other.r);
        let g = attenuate_channel(self.g, other.g);
        let b = attenuate_channel(self.b, other.b);
        Color { r, g, b }
    }

    /// One output byte per channel, clamping to displayable range first.
    pub fn to_rgb8(&self) -> (rgb: (u8, u8, u8))
        ensures
            rgb.0 as int == spec_clamp(self.r as int) * 255 / (SCALE as int),
            rgb.1 as int == spec_clamp(self.g as int) * 255 / (SCALE as int),
            rgb.2 as int == spec_clamp(self.b as int) * 255 / (SCALE as int),
    {
        (byte_channel(self.r), byte_channel(self.g), byte_channel(self.b))
    }
}

fn attenuate_channel(a: i64, v: i64) -> (r: i64)
    requires
        0 <= a <= SCALE,
        0 <= v <= 0x1000_0000_0000_0000,
    ensures
        r as int == tdiv(a * v, SCALE as int),
        0 <= r <= v,
{
    proof {
        lemma_mul_abs_bound(a as int, SCALE as int, v as int, 0x1000_0000_0000_0000);
        assert(0 <= a * v <= v * (SCALE as int)) by (nonlinear_arith)
            requires
                0 <= a <= SCALE,
                0 <= v,
        ;
        assert(a * v / (SCALE as int) <= v) by (nonlinear_arith)
            requires
                0 <= a * v <= v * (SCALE as int),
                SCALE >= 1,
                0 <= v,
        ;
    }
    ((a as i128) * (v as i128) / (SCALE as i128)) as i64
}

fn byte_channel(v: i64) -> (r: u8)
    ensures
        r as int == spec_clamp(v as int) * 255 / (SCALE as int),
{
    let c = clamp_channel(v);
    proof {
        assert(0 <= c * 255 <= 255 * (SCALE as int)) by (nonlinear_arith)
            requires
                0 <= c <= SCALE,
        ;
        assert(c * 255 / (SCALE as int) <= 255) by (nonlinear_arith)
            requires
                0 <= c * 255 <= 255 * (SCALE as int),
                SCALE >= 1,
        ;
    }
    (c * 255 / SCALE) as u8
}

proof fn lemma_hex_channel_bounds(byte: int)
    requires
        0 <= byte <= 255,
    ensures
        0 <= spec_hex_channel(byte) <= SCALE,
{
    assert(0 <= byte * (SCALE as int) <= 255 * (SCALE as int)) by (nonlinear_arith)
        requires
            0 <= byte <= 255,
            SCALE >= 1,
    ;
    assert(byte * (SCALE as int) / 255 <= SCALE) by (nonlinear_arith)
        requires
            0 <= byte * (SCALE as int) <= 255 * (SCALE as int),
    ;
}

} // verus!
