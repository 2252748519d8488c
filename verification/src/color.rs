//! Colors of three 8-bit channels, with the weighted blend the shader uses
//! to mix a surface color with the color bounced back from deeper along
//! the path.

use vstd::prelude::*;

verus! {

use crate::math::lemma_div_le;
use vstd::arithmetic::mul::lemma_mul_inequality;

/// A color as red, green and blue channel values in `[0, 255]`.
#[derive(Clone, Copy, PartialEq, Eq, Structural, Debug)]
pub struct Color {
    pub r: u8,
    pub g: u8,
    pub b: u8,
}

impl Color {
    /// The weighted mix of `a` and `b`: per channel, `num` parts of `a`
    /// and `den - num` parts of `b`, out of `den`, rounded down.
    pub open spec fn spec_blend(a: Color, num: int, den: int, b: Color) -> Color {
        Color {
            r: ((a.r * num + b.r * (den - num)) / den) as u8,
            g: ((a.g * num + b.g * (den - num)) / den) as u8,
            b: ((a.b * num + b.b * (den - num)) / den) as u8,
        }
    }

    /// A color from its three channel values.
    pub fn new(r: u8, g: u8, b: u8) -> (c: Color)
        ensures
            c == (Color { r, g, b }),
    {
        Color { r, g, b }
    }

    /// Mixes `num` parts of `a` with `den - num` parts of `b`.
    pub fn blend(a: Color, num: u32, den: u32, b: Color) -> (c: Color)
        requires
            0 < den <= 65536,
            num <= den,
        ensures
            c == Color::spec_blend(a, num as int, den as int, b),
    {
        let cr = blend_channel(a.r, num, den, b.r);
        let cg = blend_channel(a.g, num, den, b.g);
        let cb = blend_channel(a.b, num, den, b.b);
        Color { r: cr, g: cg, b: cb }
    }
}

/// One channel of the weighted mix, with the sum shown to stay under 255
/// times the total weight.
fn blend_channel(a: u8, num: u32, den: u32, b: u8) -> (c: u8)
    requires
        0 < den <= 65536,
        num <= den,
    ensures
        c as int == (a * num + b * (den - num)) / (den as int),
{
    proof {
        lemma_mul_inequality(a as int, 255, num as int);
        lemma_mul_inequality(b as int, 255, (den - num) as int);
        assert(255 * num + 255 * (den - num) == 255 * den) by (nonlinear_arith);
        lemma_div_le(a as int * num as int + b as int * (den - num) as int, 255, den as int);
    }
    let sum = (a as u32) * num + (b as u32) * (den - num);
    (sum / den) as u8
}

} // verus!
