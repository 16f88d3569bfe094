use vstd::prelude::*;

use crate::geometry::{clamp_intensity, clamp_intensity_exec, INTENSITY_ONE};

verus! {

/// An RGB color whose channels always lie in `0..=255`.
#[derive(Clone, Copy, Debug, PartialEq, Eq, Structural)]
pub struct Color {
    pub r: u8,
    pub g: u8,
    pub b: u8,
}

/// Clamps a mathematical integer into the range of one color channel.
pub open spec fn clamp_channel(v: int) -> u8 {
    if v < 0 {
        0
    } else if v > 255 {
        255
    } else {
        v as u8
    }
}

/// `c` scaled by the intensity `h`, clamped into `0..=INTENSITY_ONE`.
pub open spec fn shade_of(c: Color, h: int) -> Color {
    let k = clamp_intensity(h);
    Color {
        r: clamp_channel(c.r * k / INTENSITY_ONE as int),
        g: clamp_channel(c.g * k / INTENSITY_ONE as int),
        b: clamp_channel(c.b * k / INTENSITY_ONE as int),
    }
}

/// `c` multiplied by the scalar `s / INTENSITY_ONE` (a negative scalar counts as zero),
/// each channel rounded down and then clamped into `0..=255`.
pub open spec fn scale_of(c: Color, s: int) -> Color {
    let k = if s < 0 {
        0
    } else {
        s
    };
    Color {
        r: clamp_channel(c.r * k / INTENSITY_ONE as int),
        g: clamp_channel(c.g * k / INTENSITY_ONE as int),
        b: clamp_channel(c.b * k / INTENSITY_ONE as int),
    }
}

/// One channel times the nonnegative scalar `k / INTENSITY_ONE`, clamped.
fn scale_channel(c: u8, k: i64) -> (r: u8)
    requires
        k >= 0,
    ensures
        r == clamp_channel(c * k / INTENSITY_ONE as int),
{
    assert(0 <= c * k <= 255 * 0x8000_0000_0000_0000) by (nonlinear_arith)
        requires
            0 <= c <= 255,
            0 <= k <= 0x8000_0000_0000_0000,
    ;
    let q: i128 = (c as i128 * k as i128) / (INTENSITY_ONE as i128);
    if q > 255 {
        255
    } else {
        q as u8
    }
}

proof fn lemma_scaled_channel(c: u8, k: int)
    requires
        0 <= k <= INTENSITY_ONE,
    ensures
        0 <= c * k <= 255 * INTENSITY_ONE,
        0 <= c * k / INTENSITY_ONE as int <= 255,
{
    assert(0 <= c * k <= 255 * INTENSITY_ONE) by (nonlinear_arith)
        requires
            0 <= c <= 255,
            0 <= k <= INTENSITY_ONE,
    ;
}

fn channel_of(v: i64) -> (r: u8)
    ensures
        r == clamp_channel(v as int),
{
    if v < 0 {
        0
    } else if v > 255 {
        255
    } else {
        v as u8
    }
}

impl Color {
    /// Builds a color, clamping each channel into `0..=255`.
    pub fn new(r: i64, g: i64, b: i64) -> (c: Color)
        ensures
            c.r == clamp_channel(r as int),
            c.g == clamp_channel(g as int),
            c.b == clamp_channel(b as int),
    {
        Color { r: channel_of(r), g: channel_of(g), b: channel_of(b) }
    }

    /// This color multiplied by the scalar `s / INTENSITY_ONE`: each channel scaled, rounded
    /// down, then clamped into `0..=255`. A scalar above one brightens; a negative one gives
    /// black.
    pub fn scale(self, s: i64) -> (c: Color)
        ensures
            c == scale_of(self, s as int),
    {
        let k: i64 = if s < 0 {
            0
        } else {
            s
        };
        Color { r: scale_channel(self.r, k), g: scale_channel(self.g, k), b: scale_channel(self.b, k) }
    }

    /// This color shaded by the intensity `h`, first clamped into `0..=INTENSITY_ONE` (the
    /// gradient fill's shading), each channel rounded down: never brighter than the color.
    pub fn shade(self, h: i64) -> (c: Color)
        ensures
            c == shade_of(self, h as int),
    {
        let k = clamp_intensity_exec(h);
        proof {
            lemma_scaled_channel(self.r, k as int);
            lemma_scaled_channel(self.g, k as int);
            lemma_scaled_channel(self.b, k as int);
        }
        Color {
            r: channel_of(self.r as i64 * k / INTENSITY_ONE),
            g: channel_of(self.g as i64 * k / INTENSITY_ONE),
            b: channel_of(self.b as i64 * k / INTENSITY_ONE),
        }
    }
}

pub open spec fn black_spec() -> Color {
    Color { r: 0, g: 0, b: 0 }
}

/// Black.
pub fn black() -> (c: Color)
    ensures
        c == black_spec(),
{
    Color { r: 0, g: 0, b: 0 }
}

/// White.
pub fn white() -> (c: Color)
    ensures
        c == (Color { r: 255, g: 255, b: 255 }),
{
    Color { r: 255, g: 255, b: 255 }
}

/// Red.
pub fn red() -> (c: Color)
    ensures
        c == (Color { r: 255, g: 0, b: 0 }),
{
    Color { r: 255, g: 0, b: 0 }
}

/// Green.
pub fn green() -> (c: Color)
    ensures
        c == (Color { r: 0, g: 255, b: 0 }),
{
    Color { r: 0, g: 255, b: 0 }
}

/// Blue.
pub fn blue() -> (c: Color)
    ensures
        c == (Color { r: 0, g: 0, b: 255 }),
{
    Color { r: 0, g: 0, b: 255 }
}

/// Yellow.
pub fn yellow() -> (c: Color)
    ensures
        c == (Color { r: 255, g: 255, b: 0 }),
{
    Color { r: 255, g: 255, b: 0 }
}

/// Cyan.
pub fn cyan() -> (c: Color)
    ensures
        c == (Color { r: 0, g: 255, b: 255 }),
{
    Color { r: 0, g: 255, b: 255 }
}

/// Gray.
pub fn gray() -> (c: Color)
    ensures
        c == (Color { r: 128, g: 128, b: 128 }),
{
    Color { r: 128, g: 128, b: 128 }
}

/// Purple.
pub fn purple() -> (c: Color)
    ensures
        c == (Color { r: 123, g: 50, b: 220 }),
{
    Color { r: 123, g: 50, b: 220 }
}

} // verus!
