//! Pure conversion kernels between RGB and the HSL, HSV and CMYK
//! color spaces.
//!
//! Every real number here is an IEEE-754 binary64 bit pattern (see
//! [`crate::softfloat`]), and each kernel's contract states the exact
//! value it returns as a composition of the spec-level arithmetic, so
//! the kernels behave precisely like the usual floating-point
//! formulations of these conversions.

use vstd::prelude::*;
use crate::softfloat::ONE_BITS;
use crate::softfloat::POS_ZERO;
use crate::softfloat::sf_abs;
use crate::softfloat::sf_add;
use crate::softfloat::sf_div;
use crate::softfloat::sf_fmod;
use crate::softfloat::sf_from_int;
use crate::softfloat::sf_le;
use crate::softfloat::sf_lt;
use crate::softfloat::sf_max;
use crate::softfloat::sf_min;
use crate::softfloat::sf_mul;
use crate::softfloat::sf_num_eq;
use crate::softfloat::sf_round;
use crate::softfloat::sf_sub;
use crate::softfloat::sf_to_u8;
use crate::softfloat::spec_abs;
use crate::softfloat::spec_add;
use crate::softfloat::spec_div;
use crate::softfloat::spec_fmod;
use crate::softfloat::spec_from_int;
use crate::softfloat::spec_le;
use crate::softfloat::spec_lt;
use crate::softfloat::spec_max;
use crate::softfloat::spec_min;
use crate::softfloat::spec_mul;
use crate::softfloat::spec_num_eq;
use crate::softfloat::spec_round;
use crate::softfloat::spec_sub;
use crate::softfloat::spec_to_u8;

verus! {

/// Bit pattern of 0.5.
pub const HALF_BITS: u64 = 0x3FE0000000000000;

/// Bit pattern of 2.0.
pub const TWO_BITS: u64 = 0x4000000000000000;

/// Bit pattern of 4.0.
pub const FOUR_BITS: u64 = 0x4010000000000000;

/// Bit pattern of 6.0.
pub const SIX_BITS: u64 = 0x4018000000000000;

/// Bit pattern of 60.0.
pub const SIXTY_BITS: u64 = 0x404E000000000000;

/// Bit pattern of 100.0.
pub const HUNDRED_BITS: u64 = 0x4059000000000000;

/// Bit pattern of 120.0.
pub const B120_BITS: u64 = 0x405E000000000000;

/// Bit pattern of 180.0.
pub const B180_BITS: u64 = 0x4066800000000000;

/// Bit pattern of 240.0.
pub const B240_BITS: u64 = 0x406E000000000000;

/// Bit pattern of 255.0.
pub const B255_BITS: u64 = 0x406FE00000000000;

/// Bit pattern of 300.0.
pub const B300_BITS: u64 = 0x4072C00000000000;

/// Bit pattern of 360.0.
pub const B360_BITS: u64 = 0x4076800000000000;

// ---------------------------------------------------------------------
// Shared helpers.
// ---------------------------------------------------------------------

/// A byte channel scaled into the unit interval: `n / 255`.
pub open spec fn spec_channel_unit(n: u8) -> u64 {
    spec_div(spec_from_int(n as nat), B255_BITS)
}

pub fn channel_unit(n: u8) -> (r: u64)
    ensures
        r == spec_channel_unit(n),
{
    let f = sf_from_int(n as u64);
    sf_div(f, B255_BITS)
}

/// A unit-interval value scaled back to a byte: `round(x * 255)`,
/// saturating at the byte bounds.
pub open spec fn spec_unit_channel(x: u64) -> u8 {
    spec_to_u8(spec_round(spec_mul(x, B255_BITS)))
}

pub fn unit_channel_bits(x: u64) -> (r: u8)
    ensures
        r == spec_unit_channel(x),
{
    let m = sf_mul(x, B255_BITS);
    let rd = sf_round(m);
    sf_to_u8(rd)
}

/// Rounding to two decimal places: `round(x * 100) / 100`.
pub open spec fn spec_round2(x: u64) -> u64 {
    spec_div(spec_round(spec_mul(x, HUNDRED_BITS)), HUNDRED_BITS)
}

pub fn round2_bits(x: u64) -> (r: u64)
    ensures
        r == spec_round2(x),
{
    let m = sf_mul(x, HUNDRED_BITS);
    let rd = sf_round(m);
    sf_div(rd, HUNDRED_BITS)
}

// ---------------------------------------------------------------------
// RGB to HSL.
// ---------------------------------------------------------------------

/// Hue, as the standard max-channel sector formula computes it for the
/// unit-scaled channels `r`, `g`, `b` with extremes `mx` and `delta`.
/// Zero when the color is achromatic (`delta` zero).
pub open spec fn spec_hue(r: u64, g: u64, b: u64, mx: u64, delta: u64) -> u64 {
    if spec_num_eq(mx, r) {
        spec_mul(SIXTY_BITS, spec_fmod(spec_div(spec_sub(g, b), delta), SIX_BITS))
    } else if spec_num_eq(mx, g) {
        spec_mul(SIXTY_BITS, spec_add(spec_div(spec_sub(b, r), delta), TWO_BITS))
    } else if spec_num_eq(mx, b) {
        spec_mul(SIXTY_BITS, spec_add(spec_div(spec_sub(r, g), delta), FOUR_BITS))
    } else {
        POS_ZERO
    }
}

fn hue_sector(r: u64, g: u64, b: u64, mx: u64, delta: u64) -> (h: u64)
    ensures
        h == spec_hue(r, g, b, mx, delta),
{
    if sf_num_eq(mx, r) {
        sf_mul(SIXTY_BITS, sf_fmod(sf_div(sf_sub(g, b), delta), SIX_BITS))
    } else if sf_num_eq(mx, g) {
        sf_mul(SIXTY_BITS, sf_add(sf_div(sf_sub(b, r), delta), TWO_BITS))
    } else if sf_num_eq(mx, b) {
        sf_mul(SIXTY_BITS, sf_add(sf_div(sf_sub(r, g), delta), FOUR_BITS))
    } else {
        POS_ZERO
    }
}

/// The hue/saturation/lightness view of an RGB color.
///
/// Hue is the sector formula in degrees, normalized into `[0, 360)`
/// by adding a full turn when the sector formula comes out negative;
/// saturation is `delta / (1 - |2l - 1|)`, lightness is
/// `(max + min) / 2`; an achromatic color reports hue and saturation
/// exactly zero.
#[verifier::opaque]
pub open spec fn spec_rgb2hsl(color: (u8, u8, u8)) -> (u64, u64, u64) {
    let r = spec_channel_unit(color.0);
    let g = spec_channel_unit(color.1);
    let b = spec_channel_unit(color.2);
    let mx = spec_max(spec_max(r, g), b);
    let mn = spec_min(spec_min(r, g), b);
    let l = spec_div(spec_add(mx, mn), TWO_BITS);
    let delta = spec_sub(mx, mn);
    if spec_num_eq(delta, POS_ZERO) {
        (POS_ZERO, POS_ZERO, l)
    } else {
        let s = spec_div(delta, spec_sub(ONE_BITS, spec_abs(spec_sub(spec_mul(TWO_BITS, l), ONE_BITS))));
        let h0 = spec_hue(r, g, b, mx, delta);
        let h = if spec_lt(h0, POS_ZERO) {
            spec_add(h0, B360_BITS)
        } else {
            h0
        };
        (h, s, l)
    }
}

/// Convert an RGB byte triple to HSL bit patterns.
pub fn rgb2hsl(color: (u8, u8, u8)) -> (hsl: (u64, u64, u64))
    ensures
        hsl == spec_rgb2hsl(color),
{
    proof {
        reveal(spec_rgb2hsl);
    }
    let r = channel_unit(color.0);
    let g = channel_unit(color.1);
    let b = channel_unit(color.2);
    let mx = sf_max(sf_max(r, g), b);
    let mn = sf_min(sf_min(r, g), b);
    let l = sf_div(sf_add(mx, mn), TWO_BITS);
    let delta = sf_sub(mx, mn);
    if sf_num_eq(delta, POS_ZERO) {
        (POS_ZERO, POS_ZERO, l)
    } else {
        let s = sf_div(delta, sf_sub(ONE_BITS, sf_abs(sf_sub(sf_mul(TWO_BITS, l), ONE_BITS))));
        let h0 = hue_sector(r, g, b, mx, delta);
        let h = if sf_lt(h0, POS_ZERO) {
            sf_add(h0, B360_BITS)
        } else {
            h0
        };
        (h, s, l)
    }
}

// ---------------------------------------------------------------------
// HSL to RGB.
// ---------------------------------------------------------------------

/// The chroma sector base values `(c', x', 0)` permuted by which sixth
/// of the hue circle `h` falls in; `None` when `h` lies outside
/// `[0, 360)`, including exactly 360, which is rejected rather than
/// wrapped.
pub open spec fn spec_sector(h: u64, c: u64, x: u64) -> Option<(u64, u64, u64)> {
    if spec_le(POS_ZERO, h) && spec_lt(h, SIXTY_BITS) {
        Some((c, x, POS_ZERO))
    } else if spec_le(SIXTY_BITS, h) && spec_lt(h, B120_BITS) {
        Some((x, c, POS_ZERO))
    } else if spec_le(B120_BITS, h) && spec_lt(h, B180_BITS) {
        Some((POS_ZERO, c, x))
    } else if spec_le(B180_BITS, h) && spec_lt(h, B240_BITS) {
        Some((POS_ZERO, x, c))
    } else if spec_le(B240_BITS, h) && spec_lt(h, B300_BITS) {
        Some((x, POS_ZERO, c))
    } else if spec_le(B300_BITS, h) && spec_lt(h, B360_BITS) {
        Some((c, POS_ZERO, x))
    } else {
        None
    }
}

fn sector(h: u64, c: u64, x: u64) -> (t: Option<(u64, u64, u64)>)
    ensures
        t == spec_sector(h, c, x),
{
    if sf_le(POS_ZERO, h) && sf_lt(h, SIXTY_BITS) {
        Some((c, x, POS_ZERO))
    } else if sf_le(SIXTY_BITS, h) && sf_lt(h, B120_BITS) {
        Some((x, c, POS_ZERO))
    } else if sf_le(B120_BITS, h) && sf_lt(h, B180_BITS) {
        Some((POS_ZERO, c, x))
    } else if sf_le(B180_BITS, h) && sf_lt(h, B240_BITS) {
        Some((POS_ZERO, x, c))
    } else if sf_le(B240_BITS, h) && sf_lt(h, B300_BITS) {
        Some((x, POS_ZERO, c))
    } else if sf_le(B300_BITS, h) && sf_lt(h, B360_BITS) {
        Some((c, POS_ZERO, x))
    } else {
        None
    }
}

/// The within-sector offset `1 - |((h / 60) mod 2) - 1|` shared by the
/// HSL and HSV inverses.
pub open spec fn spec_sector_offset(h: u64) -> u64 {
    spec_sub(ONE_BITS, spec_abs(spec_sub(spec_fmod(spec_div(h, SIXTY_BITS), TWO_BITS), ONE_BITS)))
}

fn sector_offset(h: u64) -> (r: u64)
    ensures
        r == spec_sector_offset(h),
{
    sf_sub(ONE_BITS, sf_abs(sf_sub(sf_fmod(sf_div(h, SIXTY_BITS), TWO_BITS), ONE_BITS)))
}

/// The RGB bytes for an HSL triple: chroma `(1 - |2l - 1|) s`, the
/// sector permutation, then each channel shifted by `l - c/2` and
/// scaled to a byte.  `None` exactly when the hue lies outside
/// `[0, 360)`.
#[verifier::opaque]
pub open spec fn spec_hsl2rgb(color: (u64, u64, u64)) -> Option<(u8, u8, u8)> {
    let h = color.0;
    let s = color.1;
    let l = color.2;
    let c = spec_mul(spec_sub(ONE_BITS, spec_abs(spec_sub(spec_mul(TWO_BITS, l), ONE_BITS))), s);
    let x = spec_mul(c, spec_sector_offset(h));
    let m = spec_sub(l, spec_div(c, TWO_BITS));
    match spec_sector(h, c, x) {
        Some(t) => Some(
            (
                spec_unit_channel(spec_add(t.0, m)),
                spec_unit_channel(spec_add(t.1, m)),
                spec_unit_channel(spec_add(t.2, m)),
            ),
        ),
        None => None,
    }
}

/// Convert an HSL triple of bit patterns to RGB bytes; hue 360 or any
/// hue outside `[0, 360)` is invalid input and yields `None`.
pub fn hsl2rgb(color: (u64, u64, u64)) -> (rgb: Option<(u8, u8, u8)>)
    ensures
        rgb == spec_hsl2rgb(color),
{
    proof {
        reveal(spec_hsl2rgb);
    }
    let (h, s, l) = color;
    let c = sf_mul(sf_sub(ONE_BITS, sf_abs(sf_sub(sf_mul(TWO_BITS, l), ONE_BITS))), s);
    let x = sf_mul(c, sector_offset(h));
    let m = sf_sub(l, sf_div(c, TWO_BITS));
    match sector(h, c, x) {
        Some(t) => Some(
            (
                unit_channel_bits(sf_add(t.0, m)),
                unit_channel_bits(sf_add(t.1, m)),
                unit_channel_bits(sf_add(t.2, m)),
            ),
        ),
        None => None,
    }
}

// ---------------------------------------------------------------------
// RGB to HSV.
// ---------------------------------------------------------------------

/// The hue/saturation/value view of an RGB color: the same sector hue
/// as HSL but wrapped into `[0, 360)` when negative, saturation
/// `delta / max` (zero for black), value `max`.
#[verifier::opaque]
pub open spec fn spec_rgb2hsv(color: (u8, u8, u8)) -> (u64, u64, u64) {
    let r = spec_channel_unit(color.0);
    let g = spec_channel_unit(color.1);
    let b = spec_channel_unit(color.2);
    let mx = spec_max(spec_max(r, g), b);
    let mn = spec_min(spec_min(r, g), b);
    let delta = spec_sub(mx, mn);
    if spec_num_eq(delta, POS_ZERO) {
        (POS_ZERO, POS_ZERO, mx)
    } else {
        let h0 = spec_hue(r, g, b, mx, delta);
        let h = if spec_num_eq(mx, r) && spec_lt(h0, POS_ZERO) {
            spec_add(h0, B360_BITS)
        } else {
            h0
        };
        (h, spec_div(delta, mx), mx)
    }
}

/// Convert an RGB byte triple to HSV bit patterns.
pub fn rgb2hsv(color: (u8, u8, u8)) -> (hsv: (u64, u64, u64))
    ensures
        hsv == spec_rgb2hsv(color),
{
    proof {
        reveal(spec_rgb2hsv);
    }
    let r = channel_unit(color.0);
    let g = channel_unit(color.1);
    let b = channel_unit(color.2);
    let mx = sf_max(sf_max(r, g), b);
    let mn = sf_min(sf_min(r, g), b);
    let delta = sf_sub(mx, mn);
    if sf_num_eq(delta, POS_ZERO) {
        (POS_ZERO, POS_ZERO, mx)
    } else {
        let h0 = hue_sector(r, g, b, mx, delta);
        let h = if sf_num_eq(mx, r) && sf_lt(h0, POS_ZERO) {
            sf_add(h0, B360_BITS)
        } else {
            h0
        };
        (h, sf_div(delta, mx), mx)
    }
}

// ---------------------------------------------------------------------
// HSV to RGB.
// ---------------------------------------------------------------------

/// The RGB bytes for an HSV triple: chroma `v * s`, the sector
/// permutation, then each channel shifted by `v - c` and scaled to a
/// byte.  `None` exactly when the hue lies outside `[0, 360)`.
#[verifier::opaque]
pub open spec fn spec_hsv2rgb(color: (u64, u64, u64)) -> Option<(u8, u8, u8)> {
    let h = color.0;
    let s = color.1;
    let v = color.2;
    let c = spec_mul(v, s);
    let x = spec_mul(c, spec_sector_offset(h));
    let m = spec_sub(v, c);
    match spec_sector(h, c, x) {
        Some(t) => Some(
            (
                spec_unit_channel(spec_add(t.0, m)),
                spec_unit_channel(spec_add(t.1, m)),
                spec_unit_channel(spec_add(t.2, m)),
            ),
        ),
        None => None,
    }
}

/// Convert an HSV triple of bit patterns to RGB bytes; hue 360 or any
/// hue outside `[0, 360)` is invalid input and yields `None`.
pub fn hsv2rgb(color: (u64, u64, u64)) -> (rgb: Option<(u8, u8, u8)>)
    ensures
        rgb == spec_hsv2rgb(color),
{
    proof {
        reveal(spec_hsv2rgb);
    }
    let (h, s, v) = color;
    let c = sf_mul(v, s);
    let x = sf_mul(c, sector_offset(h));
    let m = sf_sub(v, c);
    match sector(h, c, x) {
        Some(t) => Some(
            (
                unit_channel_bits(sf_add(t.0, m)),
                unit_channel_bits(sf_add(t.1, m)),
                unit_channel_bits(sf_add(t.2, m)),
            ),
        ),
        None => None,
    }
}

// ---------------------------------------------------------------------
// RGB to CMYK and back.
// ---------------------------------------------------------------------

/// The cyan/magenta/yellow/black view of an RGB color: black is
/// `1 - max`, each ink is `(1 - channel - k)(1 - k)` (zero times zero
/// for pure black, avoiding the divide), and all four are rounded to
/// two decimals.
#[verifier::opaque]
pub open spec fn spec_rgb2cmyk(color: (u8, u8, u8)) -> (u64, u64, u64, u64) {
    let r = spec_channel_unit(color.0);
    let g = spec_channel_unit(color.1);
    let b = spec_channel_unit(color.2);
    let k = spec_sub(ONE_BITS, spec_max(spec_max(r, g), b));
    let ik = spec_sub(ONE_BITS, k);
    let c = spec_mul(spec_sub(spec_sub(ONE_BITS, r), k), ik);
    let m = spec_mul(spec_sub(spec_sub(ONE_BITS, g), k), ik);
    let y = spec_mul(spec_sub(spec_sub(ONE_BITS, b), k), ik);
    (spec_round2(c), spec_round2(m), spec_round2(y), spec_round2(k))
}

/// Convert an RGB byte triple to CMYK bit patterns.
pub fn rgb2cmyk(color: (u8, u8, u8)) -> (cmyk: (u64, u64, u64, u64))
    ensures
        cmyk == spec_rgb2cmyk(color),
{
    proof {
        reveal(spec_rgb2cmyk);
    }
    let r = channel_unit(color.0);
    let g = channel_unit(color.1);
    let b = channel_unit(color.2);
    let k = sf_sub(ONE_BITS, sf_max(sf_max(r, g), b));
    let ik = sf_sub(ONE_BITS, k);
    let c = sf_mul(sf_sub(sf_sub(ONE_BITS, r), k), ik);
    let m = sf_mul(sf_sub(sf_sub(ONE_BITS, g), k), ik);
    let y = sf_mul(sf_sub(sf_sub(ONE_BITS, b), k), ik);
    (round2_bits(c), round2_bits(m), round2_bits(y), round2_bits(k))
}

/// The RGB bytes for a CMYK quadruple: each channel is
/// `round((1 - ink)(1 - k) * 255)`.
#[verifier::opaque]
pub open spec fn spec_cmyk2rgb(color: (u64, u64, u64, u64)) -> (u8, u8, u8) {
    let ik = spec_sub(ONE_BITS, color.3);
    (
        spec_unit_channel(spec_mul(spec_sub(ONE_BITS, color.0), ik)),
        spec_unit_channel(spec_mul(spec_sub(ONE_BITS, color.1), ik)),
        spec_unit_channel(spec_mul(spec_sub(ONE_BITS, color.2), ik)),
    )
}

/// Convert a CMYK quadruple of bit patterns to RGB bytes.
pub fn cmyk2rgb(color: (u64, u64, u64, u64)) -> (rgb: (u8, u8, u8))
    ensures
        rgb == spec_cmyk2rgb(color),
{
    proof {
        reveal(spec_cmyk2rgb);
    }
    let (c, m, y, k) = color;
    let ik = sf_sub(ONE_BITS, k);
    (
        unit_channel_bits(sf_mul(sf_sub(ONE_BITS, c), ik)),
        unit_channel_bits(sf_mul(sf_sub(ONE_BITS, m), ik)),
        unit_channel_bits(sf_mul(sf_sub(ONE_BITS, y), ik)),
    )
}

} // verus!
