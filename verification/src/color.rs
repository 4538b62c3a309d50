//! Additive/multiplicative RGB colors.
//!
//! Channels are fixed-point scalars; a channel value of `SCALE` is full
//! intensity.  Channels may exceed full intensity while light contributions
//! are being summed: nothing clamps until the final 8-bit conversion at
//! [`Color::to_u8_triple`], which is the only output boundary.

use vstd::prelude::*;

use crate::fixed::{clamp01, fmul, fx_clamp01, fx_mul, iabs, lemma_fmul_bound, tdiv, SCALE};

verus! {

/// Channel magnitudes fed to a product must stay below this bound, so the
/// fixed-point intermediates fit in an `i64`.
pub const C_ARG_MAX: i64 = 0x60_0000_0000;

/// The mathematical value of a color: its channels as plain integers.
pub struct C3 {
    pub r: int,
    pub g: int,
    pub b: int,
}

/// An RGB color with fixed-point channels.
#[derive(Clone, Copy, PartialEq, Eq, Structural, Debug)]
pub struct Color(pub i64, pub i64, pub i64);

impl View for Color {
    type V = C3;

    open spec fn view(&self) -> C3 {
        C3 { r: self.0 as int, g: self.1 as int, b: self.2 as int }
    }
}

pub open spec fn c_zero() -> C3 {
    C3 { r: 0, g: 0, b: 0 }
}

pub open spec fn c_add(a: C3, b: C3) -> C3 {
    C3 { r: a.r + b.r, g: a.g + b.g, b: a.b + b.b }
}

/// Channel-wise product, as of a light color with a material color.
pub open spec fn c_mul(a: C3, b: C3) -> C3 {
    C3 { r: fmul(a.r, b.r), g: fmul(a.g, b.g), b: fmul(a.b, b.b) }
}

/// Channel-wise product with a scalar.
pub open spec fn c_scale(a: C3, s: int) -> C3 {
    C3 { r: fmul(a.r, s), g: fmul(a.g, s), b: fmul(a.b, s) }
}

/// All channels lie in [0, m].
pub open spec fn c_in_range(c: C3, m: int) -> bool {
    &&& 0 <= c.r <= m
    &&& 0 <= c.g <= m
    &&& 0 <= c.b <= m
}

/// An 8-bit channel: the fixed-point channel clamped into [0, 1], scaled
/// by 255 and truncated.
pub open spec fn chan_to_u8(c: int) -> int {
    clamp01(c) * 255 / (SCALE as int)
}

impl Color {
    pub fn new(r: i64, g: i64, b: i64) -> (c: Color)
        ensures
            c@ == (C3 { r: r as int, g: g as int, b: b as int }),
    {
        Color(r, g, b)
    }

    /// Black: every channel zero.
    pub fn black() -> (c: Color)
        ensures
            c@ == c_zero(),
    {
        Color(0, 0, 0)
    }

    /// White: every channel at full intensity.
    pub fn white() -> (c: Color)
        ensures
            c@ == (C3 { r: SCALE as int, g: SCALE as int, b: SCALE as int }),
    {
        Color(SCALE, SCALE, SCALE)
    }

    /// Channel-wise sum; nothing saturates here (see the module note).
    pub fn add(&self, other: &Color) -> (c: Color)
        requires
            iabs(self@.r) <= 0x3fff_ffff_ffff_ffff,
            iabs(self@.g) <= 0x3fff_ffff_ffff_ffff,
            iabs(self@.b) <= 0x3fff_ffff_ffff_ffff,
            iabs(other@.r) <= 0x3fff_ffff_ffff_ffff,
            iabs(other@.g) <= 0x3fff_ffff_ffff_ffff,
            iabs(other@.b) <= 0x3fff_ffff_ffff_ffff,
        ensures
            c@ == c_add(self@, other@),
    {
        Color(self.0 + other.0, self.1 + other.1, self.2 + other.2)
    }

    /// Channel-wise product.
    pub fn mul(&self, other: &Color) -> (c: Color)
        requires
            iabs(self@.r) <= C_ARG_MAX as int,
            iabs(self@.g) <= C_ARG_MAX as int,
            iabs(self@.b) <= C_ARG_MAX as int,
            iabs(other@.r) <= C_ARG_MAX as int,
            iabs(other@.g) <= C_ARG_MAX as int,
            iabs(other@.b) <= C_ARG_MAX as int,
        ensures
            c@ == c_mul(self@, other@),
    {
        proof {
            lemma_fmul_bound(self@.r, other@.r, C_ARG_MAX as int, C_ARG_MAX as int);
            lemma_fmul_bound(self@.g, other@.g, C_ARG_MAX as int, C_ARG_MAX as int);
            lemma_fmul_bound(self@.b, other@.b, C_ARG_MAX as int, C_ARG_MAX as int);
        }
        Color(fx_mul(self.0, other.0), fx_mul(self.1, other.1), fx_mul(self.2, other.2))
    }

    /// Channel-wise product with a fixed-point scalar.
    pub fn scale(&self, s: i64) -> (c: Color)
        requires
            iabs(self@.r) <= C_ARG_MAX as int,
            iabs(self@.g) <= C_ARG_MAX as int,
            iabs(self@.b) <= C_ARG_MAX as int,
            iabs(s as int) <= C_ARG_MAX as int,
        ensures
            c@ == c_scale(self@, s as int),
    {
        proof {
            lemma_fmul_bound(self@.r, s as int, C_ARG_MAX as int, C_ARG_MAX as int);
            lemma_fmul_bound(self@.g, s as int, C_ARG_MAX as int, C_ARG_MAX as int);
            lemma_fmul_bound(self@.b, s as int, C_ARG_MAX as int, C_ARG_MAX as int);
        }
        Color(fx_mul(self.0, s), fx_mul(self.1, s), fx_mul(self.2, s))
    }

    /// Mean of the three channels, rounded toward zero.
    pub fn intensity(&self) -> (r: i64)
        requires
            iabs(self@.r) <= 0x1fff_ffff_ffff_ffff,
            iabs(self@.g) <= 0x1fff_ffff_ffff_ffff,
            iabs(self@.b) <= 0x1fff_ffff_ffff_ffff,
        ensures
            r as int == tdiv(self@.r + self@.g + self@.b, 3),
    {
        let sum = self.0 + self.1 + self.2;
        if sum >= 0 {
            sum / 3
        } else {
            -((-sum) / 3)
        }
    }

    /// Clamp each channel into [0, 1] and convert to 8 bits per channel.
    /// This is the single place where clamping happens.
    pub fn to_u8_triple(&self) -> (t: (u8, u8, u8))
        ensures
            t.0 as int == chan_to_u8(self@.r),
            t.1 as int == chan_to_u8(self@.g),
            t.2 as int == chan_to_u8(self@.b),
    {
        let cr = fx_clamp01(self.0);
        let cg = fx_clamp01(self.1);
        let cb = fx_clamp01(self.2);
        let r8 = ((cr as u64 * 255) / 65536) as u8;
        let g8 = ((cg as u64 * 255) / 65536) as u8;
        let b8 = ((cb as u64 * 255) / 65536) as u8;
        (r8, g8, b8)
    }
}

} // verus!
