//! Colors with 8-bit channels.
//!
//! The channel operations are defined by mapping each channel to the unit
//! interval, doing exact real arithmetic there, clamping to the unit
//! interval, and truncating back to an 8-bit channel. On integers that
//! comes to the closed forms below.

use vstd::prelude::*;
use crate::fixed::{Fixed, SCALE, tdiv};

verus! {

/// The mathematical model of a color: three channels in `0..=255`.
pub ghost struct ColorV {
    pub r: u8,
    pub g: u8,
    pub b: u8,
}

/// One channel of the elementwise product: `(a/255)*(b/255)` truncated
/// back to an 8-bit channel, which is `a*b/255` rounded down.
pub open spec fn channel_product(a: u8, b: u8) -> u8 {
    ((a * b) / 255) as u8
}

pub open spec fn color_direct(a: ColorV, b: ColorV) -> ColorV {
    ColorV {
        r: channel_product(a.r, b.r),
        g: channel_product(a.g, b.g),
        b: channel_product(a.b, b.b),
    }
}

/// One channel scaled by a fixed-point factor `m/SCALE`, clamped to the
/// unit interval and truncated back to an 8-bit channel.
pub open spec fn channel_scale(c: u8, m: int) -> u8 {
    let scaled = tdiv(c * m, SCALE as int);
    if scaled < 0 {
        0
    } else if scaled > 255 {
        255
    } else {
        scaled as u8
    }
}

pub open spec fn color_scale(a: ColorV, m: int) -> ColorV {
    ColorV { r: channel_scale(a.r, m), g: channel_scale(a.g, m), b: channel_scale(a.b, m) }
}

/// An 8-bit-per-channel color value.
#[derive(Debug, Clone, Copy, PartialEq, Eq, Structural)]
pub struct Color {
    r: u8,
    g: u8,
    b: u8,
}

impl View for Color {
    type V = ColorV;

    closed spec fn view(&self) -> ColorV {
        ColorV { r: self.r, g: self.g, b: self.b }
    }
}

impl Color {
    pub fn new(r: u8, g: u8, b: u8) -> (c: Color)
        ensures
            c@ == (ColorV { r, g, b }),
    {
        Color { r, g, b }
    }

    pub fn black() -> (c: Color)
        ensures
            c@ == (ColorV { r: 0, g: 0, b: 0 }),
    {
        Color { r: 0, g: 0, b: 0 }
    }

    pub fn white() -> (c: Color)
        ensures
            c@ == (ColorV { r: 255, g: 255, b: 255 }),
    {
        Color { r: 255, g: 255, b: 255 }
    }

    /// Elementwise product in the unit cube.
    pub fn direct_product(self, other: Color) -> (c: Color)
        ensures
            c@ == color_direct(self@, other@),
    {
        Color {
            r: product_channel(self.r, other.r),
            g: product_channel(self.g, other.g),
            b: product_channel(self.b, other.b),
        }
    }

    /// Scale every channel by the factor `multiplier`, clamping to the
    /// representable range.
    pub fn scale(self, multiplier: Fixed) -> (c: Color)
        ensures
            c@ == color_scale(self@, multiplier@),
    {
        Color {
            r: scale_channel(self.r, multiplier),
            g: scale_channel(self.g, multiplier),
            b: scale_channel(self.b, multiplier),
        }
    }

    pub fn ppm(self) -> (p: PpmColor)
        ensures
            p@ == self@,
    {
        PpmColor(self)
    }
}

fn product_channel(a: u8, b: u8) -> (r: u8)
    ensures
        r == channel_product(a, b),
{
    proof {
        assert(a * b <= 255 * 255) by (nonlinear_arith)
            requires
                a <= 255,
                b <= 255,
        ;
        vstd::arithmetic::div_mod::lemma_div_is_ordered(a as int * b as int, 65025, 255);
        vstd::arithmetic::div_mod::lemma_div_pos_is_pos(a as int * b as int, 255);
    }
    let p: u32 = (a as u32) * (b as u32);
    (p / 255) as u8
}

fn scale_channel(c: u8, m: Fixed) -> (r: u8)
    ensures
        r == channel_scale(c, m@),
{
    proof {
        crate::fixed::lemma_fixed_in_range(m);
        assert(-0x80000000000000000000 <= (c as int) * (m@) <= 0x80000000000000000000)
            by (nonlinear_arith)
            requires
                0 <= c <= 255,
                -0x8000000000000000 <= m@ <= 0x7fffffffffffffff,
        ;
    }
    let p: i128 = (c as i128) * (m.raw() as i128);
    let q: i128 = if p >= 0 {
        ((p as u128) / (SCALE as u128)) as i128
    } else {
        let neg: u128 = ((-p) as u128) / (SCALE as u128);
        proof {
            vstd::arithmetic::div_mod::lemma_div_nonincreasing((-p) as int, SCALE as int);
            vstd::arithmetic::div_mod::lemma_div_pos_is_pos((-p) as int, SCALE as int);
        }
        -(neg as i128)
    };
    if q < 0 {
        0
    } else if q > 255 {
        255
    } else {
        q as u8
    }
}

/// White is the identity of the elementwise product: multiplying any
/// color by full-intensity white returns it unchanged.
pub proof fn lemma_white_direct_identity(c: ColorV)
    ensures
        color_direct(ColorV { r: 255, g: 255, b: 255 }, c) == c,
        color_direct(c, ColorV { r: 255, g: 255, b: 255 }) == c,
{
    lemma_channel_white(c.r);
    lemma_channel_white(c.g);
    lemma_channel_white(c.b);
}

proof fn lemma_channel_white(a: u8)
    ensures
        channel_product(255, a) == a,
        channel_product(a, 255) == a,
{
    assert((a * 255) / 255 == a) by (nonlinear_arith);
    assert((255 * a) / 255 == a) by (nonlinear_arith);
}

/// The decimal digits of `n`, as ASCII bytes, most significant first.
pub open spec fn dec_bytes(n: nat) -> Seq<u8>
    decreases n,
{
    if n < 10 {
        seq![(48 + n) as u8]
    } else {
        dec_bytes(n / 10) + seq![(48 + n % 10) as u8]
    }
}

/// Append the decimal digits of `n` to `out`.
pub fn push_dec(n: u32, out: &mut Vec<u8>)
    ensures
        final(out)@ == old(out)@ + dec_bytes(n as nat),
    decreases n,
{
    if n < 10 {
        out.push(48 + n as u8);
    } else {
        push_dec(n / 10, out);
        out.push(48 + (n % 10) as u8);
    }
}

/// The `R G B` text of one pixel, as it stands on its line in a PPM file.
pub open spec fn ppm_triple(c: ColorV) -> Seq<u8> {
    dec_bytes(c.r as nat) + seq![32u8] + dec_bytes(c.g as nat) + seq![32u8] + dec_bytes(
        c.b as nat,
    )
}

/// A color waiting to be written out in PPM text form.
#[derive(Debug, Clone, Copy)]
pub struct PpmColor(Color);

impl View for PpmColor {
    type V = ColorV;

    closed spec fn view(&self) -> ColorV {
        self.0@
    }
}

impl PpmColor {
    /// The `R G B` bytes of this pixel.
    pub fn bytes(&self) -> (r: Vec<u8>)
        ensures
            r@ == ppm_triple(self@),
    {
        let mut out: Vec<u8> = Vec::new();
        push_dec(self.0.r as u32, &mut out);
        out.push(32);
        push_dec(self.0.g as u32, &mut out);
        out.push(32);
        push_dec(self.0.b as u32, &mut out);
        out
    }
}

} // verus!
