//! The per-pixel blend policy: normalized distance from the image center,
//! the signed offset from the mask boundary, the blend factor that the
//! fuzz band assigns to that offset, and per-channel mixing.
//!
//! Geometry: a pixel `(x, y)` of a `w` by `h` image maps to the normalized
//! point `((2x - w) / h, (2y - h) / h)`; the vertical extent of the image
//! is `[-1, 1]` and the horizontal extent is scaled by the aspect ratio,
//! so a mask of radius `circle_size` is a geometric circle. All values are
//! fixed point: the integer `SCALE` stands for the real value 1.

use vstd::prelude::*;

use crate::SCALE;
use crate::math::{isqrt, sqrt_floor};

verus! {

/// Squared distance of pixel `(x, y)` from the center of a `w` by `h`
/// image, in normalized coordinates scaled by `h` (so the true squared
/// distance is this value divided by `h * h`).
pub open spec fn dist2_of(x: int, y: int, w: int, h: int) -> int {
    (2 * x - w) * (2 * x - w) + (2 * y - h) * (2 * y - h)
}

/// Normalized distance of pixel `(x, y)` from the image center, as a
/// fixed-point value: the floor of `SCALE * sqrt(dist2_of) / h`.
pub open spec fn scaled_dist(x: int, y: int, w: int, h: int) -> int {
    sqrt_floor((SCALE as int) * (SCALE as int) * dist2_of(x, y, w, h)) / h
}

/// The blend factor of pixel `(x, y)`: the fraction of the background
/// pixel in the mix, as a fixed-point value in `[0, SCALE]`.
///
/// With `fuzz == 0` the edge is hard: zero inside the mask (offset at
/// most zero), full otherwise. With nonzero `fuzz` the factor ramps up
/// linearly over a band of width `|fuzz|` and is clamped to `[0, SCALE]`;
/// a negative fuzz acts as its absolute value.
pub open spec fn blend_of(x: int, y: int, w: int, h: int, circle: int, fuzz: int) -> int {
    let offset = scaled_dist(x, y, w, h) - circle;
    if offset <= 0 {
        0
    } else if fuzz == 0 {
        SCALE as int
    } else {
        let q = offset * (SCALE as int) / (vstd::math::abs(fuzz) as int);
        if q >= SCALE as int {
            SCALE as int
        } else {
            q
        }
    }
}

/// One channel's mix: `a * (1 - blend) + b * blend`, rounded to the
/// nearest integer (halves rounding up), where `blend` is fixed point.
pub open spec fn mix_of(a: int, b: int, blend: int) -> int {
    (a * (SCALE as int - blend) + b * blend + (SCALE as int) / 2) / (SCALE as int)
}

/// The fixed-point normalized distance of pixel `(x, y)` from the center
/// of a `w` by `h` image.
pub fn scaled_distance(x: u32, y: u32, w: u32, h: u32) -> (r: u64)
    requires
        1 <= w,
        1 <= h,
        x < w,
        y < h,
    ensures
        r == scaled_dist(x as int, y as int, w as int, h as int),
{
    let dx: i64 = 2 * (x as i64) - (w as i64);
    let dy: i64 = 2 * (y as i64) - (h as i64);
    proof {
        assert(dx * dx + dy * dy == dist2_of(x as int, y as int, w as int, h as int));
        assert(0 <= dx * dx <= 0x1_0000_0000_0000_0000 && 0 <= dy * dy
            <= 0x1_0000_0000_0000_0000) by (nonlinear_arith)
            requires
                -0x1_0000_0000 <= dx <= 0x1_0000_0000,
                -0x1_0000_0000 <= dy <= 0x1_0000_0000,
        ;
    }
    let d2: u128 = (dx as i128 * dx as i128 + dy as i128 * dy as i128) as u128;
    proof {
        assert((SCALE as u128) * (SCALE as u128) == 1_000_000_000_000 && (SCALE as u128) * (
        SCALE as u128) * d2 <= u128::MAX) by (nonlinear_arith)
            requires
                d2 <= 0x2_0000_0000_0000_0000,
                SCALE == 1_000_000u32,
        ;
    }
    let n: u128 = (SCALE as u128) * (SCALE as u128) * d2;
    let s: u64 = isqrt(n);
    s / (h as u64)
}

/// The blend factor of pixel `(x, y)` under mask radius `circle` and fuzz
/// band width `fuzz` (both fixed point; `fuzz` may be zero or negative).
pub fn blend_factor(x: u32, y: u32, w: u32, h: u32, circle: i64, fuzz: i64) -> (r: u32)
    requires
        1 <= w,
        1 <= h,
        x < w,
        y < h,
    ensures
        r == blend_of(x as int, y as int, w as int, h as int, circle as int, fuzz as int),
        r <= SCALE,
{
    let d: u64 = scaled_distance(x, y, w, h);
    let offset: i128 = d as i128 - circle as i128;
    if offset <= 0 {
        0
    } else if fuzz == 0 {
        SCALE
    } else {
        let af: u128 = (if fuzz < 0 {
            -(fuzz as i128)
        } else {
            fuzz as i128
        }) as u128;
        let off: u128 = offset as u128;
        proof {
            assert(af == vstd::math::abs(fuzz as int));
            assert(off * (SCALE as u128) <= u128::MAX) by (nonlinear_arith)
                requires
                    0 < off < 0x2_0000_0000_0000_0000,
                    SCALE == 1_000_000u32,
            ;
        }
        let q: u128 = off * (SCALE as u128) / af;
        if q >= SCALE as u128 {
            SCALE
        } else {
            q as u32
        }
    }
}

/// One channel's mix of a main value `a` and a background value `b`
/// under a clamped fixed-point blend factor.
pub fn mix_subpixel(a: u16, b: u16, blend: u32) -> (r: u16)
    requires
        blend <= SCALE,
    ensures
        r == mix_of(a as int, b as int, blend as int),
{
    let keep: u32 = SCALE - blend;
    proof {
        assert(0 <= (a as int) * (keep as int) <= 0xffff * 1_000_000 && 0 <= (b as int) * (
        blend as int) <= 0xffff * 1_000_000 && (a as int) * (keep as int) + (b as int) * (
        blend as int) <= 0xffff * 1_000_000) by (nonlinear_arith)
            requires
                0 <= a <= 0xffff,
                0 <= b <= 0xffff,
                0 <= blend <= 1_000_000,
                0 <= keep <= 1_000_000,
                keep + blend == 1_000_000,
        ;
    }
    let num: u64 = (a as u64) * (keep as u64) + (b as u64) * (blend as u64) + SCALE as u64 / 2;
    let r64: u64 = num / (SCALE as u64);
    proof {
        assert(num / (SCALE as u64) <= 0xffff) by (nonlinear_arith)
            requires
                num <= 0xffff * 1_000_000 + 500_000,
                SCALE == 1_000_000u32,
        ;
    }
    r64 as u16
}

} // verus!
