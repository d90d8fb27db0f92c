//! Colors: three fixed-point channels, modelled by the same `V3` spec
//! triple as vectors (`x`, `y`, `z` standing for `r`, `g`, `b`).

use vstd::prelude::*;
use crate::fx;
use crate::fx::{SCALE, clamped, sqrt_fx, fits_i64};
use crate::rng::rand_unit;
use crate::vec3::{V3, add3, hadamard3, scale3, v3_fits};

verus! {

#[derive(Clone, Copy, Debug, PartialEq, Eq, Structural)]
pub struct Color {
    pub r: i64,
    pub g: i64,
    pub b: i64,
}

impl View for Color {
    type V = V3;

    open spec fn view(&self) -> V3 {
        V3 { x: self.r as int, y: self.g as int, z: self.b as int }
    }
}

/// Every channel within `[0, 1]` in fixed point.
pub open spec fn color_in_01(c: V3) -> bool {
    0 <= c.x <= SCALE && 0 <= c.y <= SCALE && 0 <= c.z <= SCALE
}

pub open spec fn black3() -> V3 {
    V3 { x: 0, y: 0, z: 0 }
}

pub open spec fn white3() -> V3 {
    V3 { x: SCALE as int, y: SCALE as int, z: SCALE as int }
}

impl Color {
    pub fn new(r: i64, g: i64, b: i64) -> (c: Color)
        ensures
            c@ == (V3 { x: r as int, y: g as int, z: b as int }),
    {
        Color { r, g, b }
    }

    pub fn black() -> (c: Color)
        ensures
            c@ == black3(),
    {
        Color { r: 0, g: 0, b: 0 }
    }

    /// A color with every channel drawn uniformly from `[0, 1)`.
    pub fn random(rng: &mut rand::rngs::SmallRng) -> (c: Color)
        ensures
            color_in_01(c@),
            c@.x < SCALE && c@.y < SCALE && c@.z < SCALE,
    {
        let r: i64 = rand_unit(rng);
        let g: i64 = rand_unit(rng);
        let b: i64 = rand_unit(rng);
        Color { r, g, b }
    }

    pub fn add(self, o: Color) -> (c: Color)
        requires
            v3_fits(add3(self@, o@)),
        ensures
            c@ == add3(self@, o@),
    {
        Color { r: self.r + o.r, g: self.g + o.g, b: self.b + o.b }
    }

    /// Channelwise product: attenuation of one color by another.
    pub fn hadamard(self, o: Color) -> (c: Color)
        requires
            v3_fits(hadamard3(self@, o@)),
        ensures
            c@ == hadamard3(self@, o@),
    {
        Color {
            r: fx::fmul(self.r, o.r),
            g: fx::fmul(self.g, o.g),
            b: fx::fmul(self.b, o.b),
        }
    }

    /// Scale every channel by the fixed-point factor `s`.
    pub fn scale(self, s: i64) -> (c: Color)
        requires
            v3_fits(scale3(self@, s as int)),
        ensures
            c@ == scale3(self@, s as int),
    {
        Color {
            r: fx::fmul(self.r, s),
            g: fx::fmul(self.g, s),
            b: fx::fmul(self.b, s),
        }
    }
}

/// Attenuating a color in `[0, 1]` by a color in `[0, 1]` stays in
/// `[0, 1]`.
pub proof fn lemma_hadamard_in_01(a: V3, b: V3)
    requires
        color_in_01(a),
        color_in_01(b),
    ensures
        color_in_01(hadamard3(a, b)),
{
    fx::lemma_mul_fx_unit(a.x, b.x);
    fx::lemma_mul_fx_unit(a.y, b.y);
    fx::lemma_mul_fx_unit(a.z, b.z);
}

/// What one output channel is: the accumulated channel divided by the
/// sample count, gamma-corrected by a square root, clamped to
/// `[0, 0.999]`, and quantized to 8 bits.
pub open spec fn channel_fx(x: int, n: int) -> int {
    clamped(sqrt_fx(x / n), 0, 65470) / 256
}

/// Quantize one accumulated color channel to an 8-bit value.
pub fn map_color_value(x: i64, samples_per_pixel: u32) -> (r: u8)
    requires
        x >= 0,
        samples_per_pixel >= 1,
    ensures
        r as int == channel_fx(x as int, samples_per_pixel as int),
{
    let n: u64 = samples_per_pixel as u64;
    let avg: u64 = (x as u64) / n;
    proof {
        assert(avg <= x as u64) by (nonlinear_arith)
            requires
                avg == (x as u64) / n,
                n >= 1,
        ;
    }
    let gamma: i64 = fx::fsqrt(avg as i64);
    let c: i64 = fx::fclamp(gamma, 0, 65470);
    ((c as u64) / 256) as u8
}

} // verus!
