//! The laws of the blend policy, stated and proved once over the spec
//! model: what the mask degenerates to at its extremes, that a hard edge
//! is binary, that the blend factor grows with distance, that it depends
//! on distance alone, and that channels mix independently.

use vstd::prelude::*;

use crate::SCALE;
use crate::blend::{blend_of, dist2_of, mix_of, scaled_dist};
use crate::math::{lemma_sqrt_floor, lemma_sqrt_floor_monotone, lemma_sqrt_floor_square,
    sqrt_floor};
use crate::raster::{idx_of, lemma_idx_decompose};
use vstd::arithmetic::div_mod::{lemma_div_is_ordered, lemma_div_multiples_vanish,
    lemma_div_pos_is_pos, lemma_fundamental_div_mod_converse};

verus! {

/// A blend factor of zero keeps the main value; a full blend factor
/// takes the background value; mixing is exact at the two extremes.
pub proof fn lemma_mix_extremes(a: int, b: int)
    ensures
        mix_of(a, b, 0) == a,
        mix_of(a, b, SCALE as int) == b,
{
    lemma_fundamental_div_mod_converse(a * (SCALE as int) + (SCALE as int) / 2, SCALE as int, a, (
    SCALE as int) / 2);
    lemma_fundamental_div_mod_converse(b * (SCALE as int) + (SCALE as int) / 2, SCALE as int, b, (
    SCALE as int) / 2);
}

/// The squared distance of an in-range pixel is nonnegative and its
/// normalized distance is nonnegative.
pub proof fn lemma_dist_nonneg(x: int, y: int, w: int, h: int)
    requires
        0 <= x < w,
        0 <= y < h,
    ensures
        dist2_of(x, y, w, h) >= 0,
        scaled_dist(x, y, w, h) >= 0,
{
    let dx = 2 * x - w;
    let dy = 2 * y - h;
    assert(dx * dx >= 0 && dy * dy >= 0) by (nonlinear_arith);
    let n = (SCALE as int) * (SCALE as int) * dist2_of(x, y, w, h);
    assert((SCALE as int) * (SCALE as int) * dist2_of(x, y, w, h) >= 0) by (nonlinear_arith)
        requires
            dist2_of(x, y, w, h) >= 0,
            SCALE == 1_000_000u32,
    ;
    lemma_sqrt_floor(n);
    lemma_div_pos_is_pos(sqrt_floor(n), h);
}

/// The blend factor always lies in `[0, SCALE]`.
pub proof fn lemma_blend_in_range(x: int, y: int, w: int, h: int, circle: int, fuzz: int)
    requires
        0 <= x < w,
        0 <= y < h,
    ensures
        0 <= blend_of(x, y, w, h, circle, fuzz) <= SCALE,
{
    lemma_dist_nonneg(x, y, w, h);
    let offset = scaled_dist(x, y, w, h) - circle;
    if offset > 0 && fuzz != 0 {
        let af = vstd::math::abs(fuzz) as int;
        assert(offset * (SCALE as int) >= 0) by (nonlinear_arith)
            requires
                offset > 0,
                SCALE == 1_000_000u32,
        ;
        lemma_div_pos_is_pos(offset * (SCALE as int), af);
    }
}

/// Hard edge: with zero fuzz the blend factor is binary — every pixel is
/// either pure main or pure background.
pub proof fn lemma_hard_edge(x: int, y: int, w: int, h: int, circle: int)
    requires
        0 <= x < w,
        0 <= y < h,
    ensures
        blend_of(x, y, w, h, circle, 0) == 0 || blend_of(x, y, w, h, circle, 0) == SCALE,
{
}

/// Degenerate mask, fully background: with a hard edge and a negative
/// mask radius every pixel blends fully, so every mixed channel equals
/// the background channel.
pub proof fn lemma_fully_background(
    x: int,
    y: int,
    w: int,
    h: int,
    circle: int,
    a: int,
    b: int,
)
    requires
        0 <= x < w,
        0 <= y < h,
        circle < 0,
    ensures
        blend_of(x, y, w, h, circle, 0) == SCALE,
        mix_of(a, b, blend_of(x, y, w, h, circle, 0)) == b,
{
    lemma_dist_nonneg(x, y, w, h);
    lemma_mix_extremes(a, b);
}

/// Degenerate mask, fully main: with a hard edge and a mask radius at
/// least the image's largest normalized distance (any radius with
/// `circle * h >= SCALE * (w + h)` is enough) no pixel blends at all, so
/// every mixed channel keeps the main channel.
pub proof fn lemma_fully_main(x: int, y: int, w: int, h: int, circle: int, a: int, b: int)
    requires
        0 <= x < w,
        0 <= y < h,
        circle * h >= (SCALE as int) * (w + h),
    ensures
        blend_of(x, y, w, h, circle, 0) == 0,
        mix_of(a, b, blend_of(x, y, w, h, circle, 0)) == a,
{
    let s = SCALE as int;
    let d2 = dist2_of(x, y, w, h);
    let n = s * s * d2;
    let k = s * (w + h);
    assert(0 <= d2 && n <= k * k) by (nonlinear_arith)
        requires
            0 <= x < w,
            0 <= y < h,
            d2 == dist2_of(x, y, w, h),
            n == s * s * d2,
            k == s * (w + h),
            s == 1_000_000,
    ;
    lemma_sqrt_floor(n);
    lemma_sqrt_floor_monotone(n, k * k);
    lemma_sqrt_floor_square(k);
    assert(sqrt_floor(n) <= k <= circle * h);
    lemma_div_is_ordered(sqrt_floor(n), circle * h, h);
    assert((circle * h) / h == circle) by (nonlinear_arith)
        requires
            h >= 1,
    ;
    lemma_mix_extremes(a, b);
}

/// Inside the mask: a pixel whose normalized distance does not exceed
/// the mask radius has a zero blend factor and keeps its main value,
/// whatever the fuzz band.
pub proof fn lemma_inside_mask(
    x: int,
    y: int,
    w: int,
    h: int,
    circle: int,
    fuzz: int,
    a: int,
    b: int,
)
    requires
        0 <= x < w,
        0 <= y < h,
        scaled_dist(x, y, w, h) <= circle,
    ensures
        blend_of(x, y, w, h, circle, fuzz) == 0,
        mix_of(a, b, blend_of(x, y, w, h, circle, fuzz)) == a,
{
    lemma_mix_extremes(a, b);
}

/// Outside the fuzz band: a pixel whose normalized distance exceeds the
/// mask radius by at least the band width blends fully and takes the
/// background value.
pub proof fn lemma_outside_band(
    x: int,
    y: int,
    w: int,
    h: int,
    circle: int,
    fuzz: int,
    a: int,
    b: int,
)
    requires
        0 <= x < w,
        0 <= y < h,
        fuzz != 0,
        scaled_dist(x, y, w, h) >= circle + vstd::math::abs(fuzz),
    ensures
        blend_of(x, y, w, h, circle, fuzz) == SCALE,
        mix_of(a, b, blend_of(x, y, w, h, circle, fuzz)) == b,
{
    let s = SCALE as int;
    let af = vstd::math::abs(fuzz) as int;
    let offset = scaled_dist(x, y, w, h) - circle;
    assert(af * s <= offset * s) by (nonlinear_arith)
        requires
            0 < af <= offset,
            s == 1_000_000,
    ;
    lemma_div_is_ordered(af * s, offset * s, af);
    lemma_div_multiples_vanish(s, af);
    lemma_mix_extremes(a, b);
}

/// Monotone blend: with a positive mask radius and a positive fuzz band,
/// a pixel farther from the center never blends less than a nearer one.
pub proof fn lemma_blend_monotone(
    x1: int,
    y1: int,
    x2: int,
    y2: int,
    w: int,
    h: int,
    circle: int,
    fuzz: int,
)
    requires
        0 <= x1 < w,
        0 <= y1 < h,
        0 <= x2 < w,
        0 <= y2 < h,
        circle > 0,
        fuzz > 0,
        dist2_of(x1, y1, w, h) <= dist2_of(x2, y2, w, h),
    ensures
        blend_of(x1, y1, w, h, circle, fuzz) <= blend_of(x2, y2, w, h, circle, fuzz),
{
    let s = SCALE as int;
    let d2a = dist2_of(x1, y1, w, h);
    let d2b = dist2_of(x2, y2, w, h);
    lemma_dist_nonneg(x1, y1, w, h);
    lemma_dist_nonneg(x2, y2, w, h);
    assert(s * s * d2a <= s * s * d2b) by (nonlinear_arith)
        requires
            d2a <= d2b,
            s == 1_000_000,
    ;
    lemma_sqrt_floor_monotone(s * s * d2a, s * s * d2b);
    lemma_div_is_ordered(sqrt_floor(s * s * d2a), sqrt_floor(s * s * d2b), h);
    let sd1 = scaled_dist(x1, y1, w, h);
    let sd2 = scaled_dist(x2, y2, w, h);
    assert(sd1 <= sd2);
    let o1 = sd1 - circle;
    let o2 = sd2 - circle;
    lemma_blend_in_range(x1, y1, w, h, circle, fuzz);
    lemma_blend_in_range(x2, y2, w, h, circle, fuzz);
    if o1 > 0 && o2 > 0 {
        let af = vstd::math::abs(fuzz) as int;
        assert(o1 * s <= o2 * s) by (nonlinear_arith)
            requires
                o1 <= o2,
                s == 1_000_000,
        ;
        lemma_div_is_ordered(o1 * s, o2 * s, af);
    }
}

/// Rotational symmetry: the blend factor is a function of the squared
/// normalized distance alone — two pixels at the same distance from the
/// center blend identically, whatever the mask radius and fuzz.
pub proof fn lemma_blend_symmetry(
    x1: int,
    y1: int,
    x2: int,
    y2: int,
    w: int,
    h: int,
    circle: int,
    fuzz: int,
)
    requires
        dist2_of(x1, y1, w, h) == dist2_of(x2, y2, w, h),
    ensures
        blend_of(x1, y1, w, h, circle, fuzz) == blend_of(x2, y2, w, h, circle, fuzz),
{
    assert(scaled_dist(x1, y1, w, h) == scaled_dist(x2, y2, w, h));
}

/// Channel independence: a channel's mixed value depends only on that
/// channel's main and background values and the blend factor, never on
/// any other channel.
pub proof fn lemma_channel_independence(a1: int, b1: int, a2: int, b2: int, blend: int)
    requires
        a1 == a2,
        b1 == b2,
    ensures
        mix_of(a1, b1, blend) == mix_of(a2, b2, blend),
{
}

/// Whole-image corollary of the fully-background law: an output buffer
/// that mixes every channel under a hard edge and a negative mask radius
/// is the background buffer, subpixel for subpixel.
pub proof fn lemma_image_fully_background(
    out: Seq<u16>,
    main: Seq<u16>,
    back: Seq<u16>,
    w: int,
    h: int,
    ch: int,
    circle: int,
)
    requires
        1 <= w,
        1 <= h,
        1 <= ch,
        out.len() == w * h * ch,
        main.len() == w * h * ch,
        back.len() == w * h * ch,
        circle < 0,
        forall|x: int, y: int, c: int|
            0 <= x < w && 0 <= y < h && 0 <= c < ch ==> out[#[trigger] idx_of(x, y, c, w, ch)]
                == mix_of(main[idx_of(x, y, c, w, ch)] as int, back[idx_of(x, y, c, w, ch)] as int,
            blend_of(x, y, w, h, circle, 0)),
    ensures
        out == back,
{
    assert forall|i: int| 0 <= i < out.len() implies out[i] == back[i] by {
        lemma_idx_decompose(i, w, h, ch);
        let x = (i / ch) % w;
        let y = (i / ch) / w;
        lemma_fully_background(x, y, w, h, circle, main[i] as int, back[i] as int);
    }
    assert(out =~= back);
}

/// Whole-image corollary of the fully-main law: an output buffer that
/// mixes every channel under a hard edge and a mask radius covering the
/// whole image is the main buffer, subpixel for subpixel.
pub proof fn lemma_image_fully_main(
    out: Seq<u16>,
    main: Seq<u16>,
    back: Seq<u16>,
    w: int,
    h: int,
    ch: int,
    circle: int,
)
    requires
        1 <= w,
        1 <= h,
        1 <= ch,
        out.len() == w * h * ch,
        main.len() == w * h * ch,
        back.len() == w * h * ch,
        circle * h >= (SCALE as int) * (w + h),
        forall|x: int, y: int, c: int|
            0 <= x < w && 0 <= y < h && 0 <= c < ch ==> out[#[trigger] idx_of(x, y, c, w, ch)]
                == mix_of(main[idx_of(x, y, c, w, ch)] as int, back[idx_of(x, y, c, w, ch)] as int,
            blend_of(x, y, w, h, circle, 0)),
    ensures
        out == main,
{
    assert forall|i: int| 0 <= i < out.len() implies out[i] == main[i] by {
        lemma_idx_decompose(i, w, h, ch);
        let x = (i / ch) % w;
        let y = (i / ch) / w;
        lemma_fully_main(x, y, w, h, circle, main[i] as int, back[i] as int);
    }
    assert(out =~= main);
}

} // verus!
