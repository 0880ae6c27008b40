//! Colours of three 8-bit channels and their saturating arithmetic.

use crate::fixed::{clamp, clamp_to, floor_div, UNIT};
use vstd::prelude::*;

verus! {

/// A channel scaled by `factor` thousandths, limited to the channel range.
pub open spec fn channel_scale(c: int, factor: int) -> int {
    clamp(c * factor / (UNIT as int), 0, 255)
}

/// The sum of two channels, limited to the channel range.
pub open spec fn channel_add(a: int, b: int) -> int {
    clamp(a + b, 0, 255)
}

/// The product of two channels, brought back to the channel range: 255
/// stands for one.
pub open spec fn channel_multiply(a: int, b: int) -> int {
    a * b / 255
}

/// The channel `t` thousandths of the way from `a` to `b`, rounded to the
/// nearest value; `t` is first limited to the range from zero to one whole.
pub open spec fn channel_lerp(a: int, b: int, t: int) -> int {
    let t = clamp(t, 0, UNIT as int);
    (a * (UNIT - t) + b * t + UNIT / 2) / (UNIT as int)
}

/// An RGB colour with 8 bits per channel.
#[derive(Clone, Copy, Debug, PartialEq, Eq, Structural)]
pub struct Color {
    pub r: u8,
    pub g: u8,
    pub b: u8,
}

impl Color {
    /// The packed form: red in bits 16 to 23, green in bits 8 to 15, blue in
    /// bits 0 to 7.
    pub open spec fn spec_to_hex(self) -> int {
        self.r * 65536 + self.g * 256 + self.b
    }

    /// The colour held in the low 24 bits of `hex`.
    pub open spec fn spec_from_hex(hex: int) -> Color {
        Color {
            r: ((hex / 65536) % 256) as u8,
            g: ((hex / 256) % 256) as u8,
            b: (hex % 256) as u8,
        }
    }

    /// Every channel scaled by `factor` thousandths and limited to the channel
    /// range.
    pub open spec fn spec_scale(self, factor: int) -> Color {
        Color {
            r: channel_scale(self.r as int, factor) as u8,
            g: channel_scale(self.g as int, factor) as u8,
            b: channel_scale(self.b as int, factor) as u8,
        }
    }

    /// The channel-wise sum, limited to the channel range.
    pub open spec fn spec_blend_add(self, other: Color) -> Color {
        Color {
            r: channel_add(self.r as int, other.r as int) as u8,
            g: channel_add(self.g as int, other.g as int) as u8,
            b: channel_add(self.b as int, other.b as int) as u8,
        }
    }

    /// The channel-wise product, 255 standing for one.
    pub open spec fn spec_blend_multiply(self, other: Color) -> Color {
        Color {
            r: channel_multiply(self.r as int, other.r as int) as u8,
            g: channel_multiply(self.g as int, other.g as int) as u8,
            b: channel_multiply(self.b as int, other.b as int) as u8,
        }
    }

    /// The colour `t` thousandths of the way from this colour to `other`.
    pub open spec fn spec_lerp(self, other: Color, t: int) -> Color {
        Color {
            r: channel_lerp(self.r as int, other.r as int, t) as u8,
            g: channel_lerp(self.g as int, other.g as int, t) as u8,
            b: channel_lerp(self.b as int, other.b as int, t) as u8,
        }
    }

    /// The colour with the given channels.
    pub fn new(r: u8, g: u8, b: u8) -> (c: Color)
        ensures
            c == (Color { r, g, b }),
    {
        Color { r, g, b }
    }

    /// Black: every channel zero.
    pub fn black() -> (c: Color)
        ensures
            c == (Color { r: 0, g: 0, b: 0 }),
    {
        Color { r: 0, g: 0, b: 0 }
    }

    /// Unpacks the low 24 bits of `hex`; the top 8 bits are ignored.
    pub fn from_hex(hex: u32) -> (c: Color)
        ensures
            c == Color::spec_from_hex(hex as int),
    {
        Color {
            r: ((hex / 65536) % 256) as u8,
            g: ((hex / 256) % 256) as u8,
            b: (hex % 256) as u8,
        }
    }

    /// Packs the colour into one integer below 2^24.
    pub fn to_hex(&self) -> (hex: u32)
        ensures
            hex == self.spec_to_hex(),
            hex < 0x100_0000,
    {
        (self.r as u32) * 65536 + (self.g as u32) * 256 + (self.b as u32)
    }

    /// Multiplies every channel by `factor` thousandths and saturates: a
    /// negative factor gives black, a large one stops at 255.
    pub fn scale(&self, factor: i32) -> (c: Color)
        ensures
            c == self.spec_scale(factor as int),
    {
        self.scale_by(factor as i128)
    }

    pub(crate) fn scale_by(&self, factor: i128) -> (c: Color)
        ensures
            c == self.spec_scale(factor as int),
    {
        Color {
            r: scale_channel(self.r, factor),
            g: scale_channel(self.g, factor),
            b: scale_channel(self.b, factor),
        }
    }

    /// Adds channel by channel and saturates at 255.
    pub fn blend_add(&self, other: &Color) -> (c: Color)
        ensures
            c == self.spec_blend_add(*other),
    {
        Color {
            r: add_channel(self.r, other.r),
            g: add_channel(self.g, other.g),
            b: add_channel(self.b, other.b),
        }
    }

    /// Multiplies channel by channel, 255 standing for one.
    pub fn blend_multiply(&self, other: &Color) -> (c: Color)
        ensures
            c == self.spec_blend_multiply(*other),
    {
        Color {
            r: multiply_channel(self.r, other.r),
            g: multiply_channel(self.g, other.g),
            b: multiply_channel(self.b, other.b),
        }
    }

    /// Moves `t` thousandths of the way from this colour to `other`; a `t`
    /// outside the range from zero to one whole is taken as the nearer end.
    pub fn lerp(&self, other: &Color, t: i32) -> (c: Color)
        ensures
            c == self.spec_lerp(*other, t as int),
    {
        self.lerp_by(other, t as i128)
    }

    pub(crate) fn lerp_by(&self, other: &Color, t: i128) -> (c: Color)
        ensures
            c == self.spec_lerp(*other, t as int),
    {
        Color {
            r: lerp_channel(self.r, other.r, t),
            g: lerp_channel(self.g, other.g, t),
            b: lerp_channel(self.b, other.b, t),
        }
    }

    /// Packing a colour and unpacking the result gives the colour back.
    pub proof fn lemma_hex_round_trip(self)
        ensures
            Color::spec_from_hex(self.spec_to_hex()) == self,
            0 <= self.spec_to_hex() < 0x100_0000,
    {
    }

    /// Unpacking an integer below 2^24 and packing the result gives the
    /// integer back.
    pub proof fn lemma_hex_round_trip_packed(hex: int)
        requires
            0 <= hex < 0x100_0000,
        ensures
            Color::spec_from_hex(hex).spec_to_hex() == hex,
    {
    }

    /// White is the identity of the multiplicative blend, on either side.
    pub proof fn lemma_multiply_white(self)
        ensures
            (Color { r: 255, g: 255, b: 255 }).spec_blend_multiply(self) == self,
            self.spec_blend_multiply(Color { r: 255, g: 255, b: 255 }) == self,
    {
    }

    /// The additive blend never leaves a channel below either of its inputs.
    pub proof fn lemma_add_saturates(self, other: Color)
        ensures
            self.spec_blend_add(other).r >= self.r,
            self.spec_blend_add(other).r >= other.r,
            self.spec_blend_add(other).g >= self.g,
            self.spec_blend_add(other).g >= other.g,
            self.spec_blend_add(other).b >= self.b,
            self.spec_blend_add(other).b >= other.b,
            self.r + other.r >= 255 ==> self.spec_blend_add(other).r == 255,
            self.g + other.g >= 255 ==> self.spec_blend_add(other).g == 255,
            self.b + other.b >= 255 ==> self.spec_blend_add(other).b == 255,
    {
    }

    /// Interpolation starts at this colour and ends at the other one.
    pub proof fn lemma_lerp_ends(self, other: Color, t: int)
        ensures
            t <= 0 ==> self.spec_lerp(other, t) == self,
            t >= UNIT ==> self.spec_lerp(other, t) == other,
    {
        lemma_channel_lerp_ends(self.r as int, other.r as int, t);
        lemma_channel_lerp_ends(self.g as int, other.g as int, t);
        lemma_channel_lerp_ends(self.b as int, other.b as int, t);
    }

    /// Scaling by one whole changes nothing; scaling by zero or less gives
    /// black.
    pub proof fn lemma_scale_ends(self, factor: int)
        ensures
            factor == UNIT ==> self.spec_scale(factor) == self,
            factor <= 0 ==> self.spec_scale(factor) == (Color { r: 0, g: 0, b: 0 }),
    {
        lemma_channel_scale_ends(self.r as int, factor);
        lemma_channel_scale_ends(self.g as int, factor);
        lemma_channel_scale_ends(self.b as int, factor);
    }
}

proof fn lemma_channel_scale_ends(c: int, factor: int)
    requires
        0 <= c <= 255,
    ensures
        factor == UNIT ==> channel_scale(c, factor) == c,
        factor <= 0 ==> channel_scale(c, factor) == 0,
{
    if factor <= 0 {
        assert(c * factor <= 0) by (nonlinear_arith)
            requires
                0 <= c,
                factor <= 0,
        ;
    }
}

proof fn lemma_channel_lerp_ends(a: int, b: int, t: int)
    requires
        0 <= a <= 255,
        0 <= b <= 255,
    ensures
        t <= 0 ==> channel_lerp(a, b, t) == a,
        t >= UNIT ==> channel_lerp(a, b, t) == b,
{
    let t = clamp(t, 0, UNIT as int);
    if t == 0 {
        assert(a * (1000 - t) + b * t == a * 1000) by (nonlinear_arith)
            requires
                t == 0,
        ;
    } else if t == 1000 {
        assert(a * (1000 - t) + b * t == b * 1000) by (nonlinear_arith)
            requires
                t == 1000,
        ;
    }
}

/// Every interpolated channel lies between its two ends.
pub proof fn lemma_channel_lerp_bounds(a: int, b: int, t: int)
    requires
        0 <= a <= 255,
        0 <= b <= 255,
    ensures
        a <= b ==> a <= channel_lerp(a, b, t) <= b,
        b <= a ==> b <= channel_lerp(a, b, t) <= a,
{
    let t = clamp(t, 0, UNIT as int);
    assert(a * (1000 - t) + b * t == a * 1000 + (b - a) * t) by (nonlinear_arith);
    if a <= b {
        assert(0 <= (b - a) * t <= (b - a) * 1000) by (nonlinear_arith)
            requires
                0 <= t <= 1000,
                a <= b,
        ;
    } else {
        assert((b - a) * 1000 <= (b - a) * t <= 0) by (nonlinear_arith)
            requires
                0 <= t <= 1000,
                b <= a,
        ;
    }
}

/// Beyond the factor at which the weakest lit channel saturates, and below
/// zero, the factor makes no difference.
proof fn lemma_channel_scale_limits(c: int, factor: int)
    requires
        0 <= c <= 255,
    ensures
        channel_scale(c, factor) == channel_scale(c, clamp(factor, 0, 255_000)),
{
    if factor < 0 {
        lemma_channel_scale_ends(c, factor);
        lemma_channel_scale_ends(c, 0);
    } else if factor > 255_000 {
        assert(c * factor >= c * 255_000) by (nonlinear_arith)
            requires
                c >= 0,
                factor > 255_000,
        ;
        assert(c == 0 ==> c * factor == 0) by (nonlinear_arith);
    }
}

fn scale_channel(c: u8, factor: i128) -> (r: u8)
    ensures
        r == channel_scale(c as int, factor as int),
{
    proof {
        lemma_channel_scale_limits(c as int, factor as int);
    }
    let limited: i128 = clamp_to(factor, 0, 255_000);
    assert(0 <= (c as int) * (limited as int) <= 255 * 255_000) by (nonlinear_arith)
        requires
            0 <= c <= 255,
            0 <= limited <= 255_000,
    ;
    let product: i128 = (c as i128) * limited;
    let scaled: i128 = floor_div(product, UNIT as i128);
    clamp_to(scaled, 0, 255) as u8
}

fn add_channel(a: u8, b: u8) -> (r: u8)
    ensures
        r == channel_add(a as int, b as int),
{
    let sum: u16 = a as u16 + b as u16;
    if sum > 255 {
        255
    } else {
        sum as u8
    }
}

fn multiply_channel(a: u8, b: u8) -> (r: u8)
    ensures
        r == channel_multiply(a as int, b as int),
{
    assert(0 <= (a as int) * (b as int) <= 255 * 255) by (nonlinear_arith)
        requires
            0 <= a <= 255,
            0 <= b <= 255,
    ;
    let product: u32 = (a as u32) * (b as u32);
    (product / 255) as u8
}

fn lerp_channel(a: u8, b: u8, t: i128) -> (r: u8)
    ensures
        r == channel_lerp(a as int, b as int, t as int),
{
    let t: i128 = clamp_to(t, 0, UNIT as i128);
    proof {
        lemma_channel_lerp_bounds(a as int, b as int, t as int);
    }
    assert(0 <= (a as int) * (UNIT - t) <= 255 * 1000) by (nonlinear_arith)
        requires
            0 <= a <= 255,
            0 <= UNIT - t <= 1000,
    ;
    assert(0 <= (b as int) * (t as int) <= 255 * 1000) by (nonlinear_arith)
        requires
            0 <= b <= 255,
            0 <= t <= 1000,
    ;
    let mixed: i128 = (a as i128) * (UNIT as i128 - t) + (b as i128) * t + 500;
    (mixed / 1000) as u8
}

/// The channel nearest to `v`.
pub(crate) fn channel(v: i128) -> (c: u8)
    ensures
        c == clamp(v as int, 0, 255),
{
    clamp_to(v, 0, 255) as u8
}

} // verus!
