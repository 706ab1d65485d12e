//! The image model: a 2D grid of pixels, each pixel an ordered tuple of
//! `channels` subpixel values, stored row-major and channel-interleaved
//! in one flat buffer.

use vstd::prelude::*;

use vstd::arithmetic::div_mod::{lemma_div_pos_is_pos, lemma_fundamental_div_mod,
    lemma_fundamental_div_mod_converse, lemma_mod_bound, lemma_multiply_divide_lt};

verus! {

/// Flat buffer position of channel `c` of pixel `(x, y)` in an image of
/// width `w` with `ch` channels.
pub open spec fn idx_of(x: int, y: int, c: int, w: int, ch: int) -> int {
    (y * w + x) * ch + c
}

/// A raster image: `width * height` pixels, `channels` subpixels each.
pub struct Image {
    pub width: u32,
    pub height: u32,
    pub channels: u32,
    pub data: Vec<u16>,
}

impl Image {
    /// Well-formed: nonzero dimensions and a buffer of exactly
    /// `width * height * channels` subpixels.
    pub open spec fn wf(self) -> bool {
        1 <= self.width && 1 <= self.height && 1 <= self.channels && self.data@.len() == (
        self.width as int) * (self.height as int) * (self.channels as int)
    }

    /// The buffer position of channel `c` of pixel `(x, y)`.
    pub open spec fn idx(self, x: int, y: int, c: int) -> int {
        idx_of(x, y, c, self.width as int, self.channels as int)
    }

    /// Builds an image over the given buffer; `None` exactly when a
    /// dimension is zero or the buffer length is not
    /// `width * height * channels`.
    pub fn from_vec(width: u32, height: u32, channels: u32, data: Vec<u16>) -> (r: Option<Image>)
        ensures
            r is Some <==> 1 <= width && 1 <= height && 1 <= channels && data@.len() == (
            width as int) * (height as int) * (channels as int),
            r matches Some(img) ==> img.wf() && img.width == width && img.height == height
                && img.channels == channels && img.data@ == data@,
    {
        if width == 0 || height == 0 || channels == 0 {
            return None;
        }
        let _n: usize = data.len();
        let wh = match (width as usize).checked_mul(height as usize) {
            Some(v) => v,
            None => {
                proof {
                    lemma_size_monotone(width as int, height as int, channels as int, data@.len() as int);
                }
                return None;
            },
        };
        let whc = match wh.checked_mul(channels as usize) {
            Some(v) => v,
            None => {
                proof {
                    lemma_size_monotone(width as int, height as int, channels as int, data@.len() as int);
                }
                return None;
            },
        };
        if data.len() == whc {
            Some(Image { width, height, channels, data })
        } else {
            None
        }
    }

    /// An image of the given dimensions with every subpixel set to
    /// `value`.
    pub fn new_filled(width: u32, height: u32, channels: u32, value: u16) -> (r: Option<Image>)
        ensures
            r is Some <==> 1 <= width && 1 <= height && 1 <= channels && (width as int) * (
            height as int) * (channels as int) <= usize::MAX,
            r matches Some(img) ==> img.wf() && img.width == width && img.height == height
                && img.channels == channels && forall|i: int|
                0 <= i < img.data@.len() ==> img.data@[i] == value,
    {
        if width == 0 || height == 0 || channels == 0 {
            return None;
        }
        let wh = match (width as usize).checked_mul(height as usize) {
            Some(v) => v,
            None => {
                proof {
                    lemma_size_monotone(width as int, height as int, channels as int, usize::MAX as int);
                }
                return None;
            },
        };
        let whc = match wh.checked_mul(channels as usize) {
            Some(v) => v,
            None => {
                proof {
                    lemma_size_monotone(width as int, height as int, channels as int, usize::MAX as int);
                }
                return None;
            },
        };
        let mut data: Vec<u16> = Vec::new();
        let mut i: usize = 0;
        while i < whc
            invariant
                i <= whc,
                data@.len() == i,
                forall|j: int| 0 <= j < i ==> data@[j] == value,
            decreases whc - i,
        {
            data.push(value);
            i = i + 1;
        }
        Some(Image { width, height, channels, data })
    }

    /// The value of channel `c` of pixel `(x, y)`.
    pub fn get(&self, x: u32, y: u32, c: u32) -> (r: u16)
        requires
            self.wf(),
            x < self.width,
            y < self.height,
            c < self.channels,
        ensures
            r == self.data@[self.idx(x as int, y as int, c as int)],
    {
        let _n: usize = self.data.len();
        proof {
            lemma_idx_bounds(x as int, y as int, c as int, self.width as int, self.height as int,
                self.channels as int);
        }
        let i: usize = ((y as usize) * (self.width as usize) + (x as usize)) * (
        self.channels as usize) + (c as usize);
        self.data[i]
    }

    /// Overwrites channel `c` of pixel `(x, y)` with `value`.
    pub fn set(&mut self, x: u32, y: u32, c: u32, value: u16)
        requires
            old(self).wf(),
            x < old(self).width,
            y < old(self).height,
            c < old(self).channels,
        ensures
            final(self).wf(),
            final(self).width == old(self).width,
            final(self).height == old(self).height,
            final(self).channels == old(self).channels,
            final(self).data@ == old(self).data@.update(
                old(self).idx(x as int, y as int, c as int), value),
    {
        let _n: usize = self.data.len();
        proof {
            lemma_idx_bounds(x as int, y as int, c as int, self.width as int, self.height as int,
                self.channels as int);
        }
        let i: usize = ((y as usize) * (self.width as usize) + (x as usize)) * (
        self.channels as usize) + (c as usize);
        self.data.set(i, value);
    }
}

/// A buffer position computed from in-range coordinates lies inside the
/// buffer (and the computation does not overflow).
pub proof fn lemma_idx_bounds(x: int, y: int, c: int, w: int, h: int, ch: int)
    by (nonlinear_arith)
    requires
        0 <= x < w,
        0 <= y < h,
        0 <= c < ch,
    ensures
        0 <= y * w + x < w * h,
        h * w == w * h,
        w * h <= w * h * ch,
        0 <= idx_of(x, y, c, w, ch) < w * h * ch,
{
}

/// If a product of positive dimensions overflows `usize`, no buffer of
/// length at most `usize::MAX` can match it.
proof fn lemma_size_monotone(w: int, h: int, ch: int, len: int)
    by (nonlinear_arith)
    requires
        1 <= w,
        1 <= h,
        1 <= ch,
    ensures
        w * h <= w * h * ch,
        len <= usize::MAX && w * h > usize::MAX ==> len != w * h * ch,
        len <= usize::MAX && w * h * ch > usize::MAX ==> len != w * h * ch,
{
}

/// Distinct in-range coordinate triples occupy distinct buffer positions.
pub proof fn lemma_idx_inj(
    x1: int,
    y1: int,
    c1: int,
    x2: int,
    y2: int,
    c2: int,
    w: int,
    h: int,
    ch: int,
)
    requires
        0 <= x1 < w,
        0 <= y1 < h,
        0 <= c1 < ch,
        0 <= x2 < w,
        0 <= y2 < h,
        0 <= c2 < ch,
        idx_of(x1, y1, c1, w, ch) == idx_of(x2, y2, c2, w, ch),
    ensures
        x1 == x2 && y1 == y2 && c1 == c2,
{
    let i = idx_of(x1, y1, c1, w, ch);
    lemma_fundamental_div_mod_converse(i, ch, y1 * w + x1, c1);
    lemma_fundamental_div_mod_converse(i, ch, y2 * w + x2, c2);
    assert(y1 * w + x1 == y2 * w + x2);
    lemma_fundamental_div_mod_converse(y1 * w + x1, w, y1, x1);
    lemma_fundamental_div_mod_converse(y1 * w + x1, w, y2, x2);
}

/// Every buffer position below `w * h * ch` is the position of exactly
/// the in-range coordinate triple recovered by division and remainder.
pub proof fn lemma_idx_decompose(i: int, w: int, h: int, ch: int)
    requires
        1 <= w,
        1 <= h,
        1 <= ch,
        0 <= i < w * h * ch,
    ensures
        0 <= i % ch < ch,
        0 <= (i / ch) % w < w,
        0 <= (i / ch) / w < h,
        idx_of((i / ch) % w, (i / ch) / w, i % ch, w, ch) == i,
{
    lemma_mod_bound(i, ch);
    lemma_fundamental_div_mod(i, ch);
    lemma_div_pos_is_pos(i, ch);
    assert(w * h * ch == ch * (w * h)) by (nonlinear_arith);
    lemma_multiply_divide_lt(i, ch, w * h);
    let p = i / ch;
    lemma_mod_bound(p, w);
    lemma_fundamental_div_mod(p, w);
    lemma_div_pos_is_pos(p, w);
    lemma_multiply_divide_lt(p, w, h);
    assert(((p / w) * w + p % w) * ch + i % ch == i) by (nonlinear_arith)
        requires
            i == ch * p + i % ch,
            p == w * (p / w) + p % w,
    ;
}

} // verus!
