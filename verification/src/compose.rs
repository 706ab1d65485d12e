//! The compositor: resamples the background image to the main image's
//! dimensions and then mixes the two, pixel by pixel, under the radial
//! blend policy of [`crate::blend`].

use vstd::prelude::*;

use crate::blend::{blend_factor, blend_of, mix_of, mix_subpixel};
use crate::raster::{idx_of, lemma_idx_bounds, lemma_idx_inj, Image};

verus! {

/// Channel `c`'s plane of `img`: one value per pixel, pixel-major.
pub open spec fn plane_of(img: Image, c: int) -> Seq<u16> {
    Seq::new(((img.width as int) * (img.height as int)) as nat,
        |p: int| img.data@[p * (img.channels as int) + c])
}

/// The pixels, pixel-major, of the Catmull-Rom resampling of a
/// one-channel `w0` by `h0` plane to `w` by `h`. The resampling is a
/// fixed function of the plane and the four dimensions; its values are
/// not described further here.
pub uninterp spec fn catmullrom_resized(src: Seq<u16>, w0: int, h0: int, w: int, h: int) -> Seq<
    u16,
>;

/// Relies on `image::imageops::resize` with the `CatmullRom` filter (and
/// on `ImageBuffer::from_raw` / `into_raw` to carry the plane in and
/// out): the result has exactly the requested dimensions, depends only on
/// the source plane and the four dimensions, and is a plain copy of the
/// source when the dimensions do not change.
#[verifier::external_body]
fn resize_plane(src: &Vec<u16>, w0: u32, h0: u32, w: u32, h: u32) -> (r: Vec<u16>)
    requires
        1 <= w0,
        1 <= h0,
        1 <= w,
        1 <= h,
        src@.len() == (w0 as int) * (h0 as int),
        (w as int) * (h as int) <= usize::MAX,
    ensures
        r@.len() == (w as int) * (h as int),
        r@ == catmullrom_resized(src@, w0 as int, h0 as int, w as int, h as int),
        w == w0 && h == h0 ==> r@ == src@,
{
    let buf: image::ImageBuffer<image::Luma<u16>, Vec<u16>> = image::ImageBuffer::from_raw(
        w0,
        h0,
        src.clone(),
    ).unwrap();
    image::imageops::resize(&buf, w, h, image::imageops::FilterType::CatmullRom).into_raw()
}

/// In-range pixel and channel indices stay inside a plane-interleaved
/// buffer.
proof fn lemma_plane_idx_bounds(p: int, c: int, np: int, ch: int)
    by (nonlinear_arith)
    requires
        0 <= p < np,
        0 <= c < ch,
    ensures
        0 <= p * ch + c < np * ch,
        p * ch + c < (p + 1) * ch <= np * ch,
{
}

/// Channel `c` of `img` as a flat plane, pixel-major.
#[verifier::loop_isolation(false)]
fn extract_plane(img: &Image, c: u32) -> (r: Vec<u16>)
    requires
        img.wf(),
        c < img.channels,
    ensures
        r@ == plane_of(*img, c as int),
        r@.len() == (img.width as int) * (img.height as int),
{
    let _n: usize = img.data.len();
    proof {
        lemma_idx_bounds(0, 0, 0, img.width as int, img.height as int, img.channels as int);
    }
    let np: usize = (img.width as usize) * (img.height as usize);
    let ch: usize = img.channels as usize;
    let mut out: Vec<u16> = Vec::new();
    let mut p: usize = 0;
    while p < np
        invariant
            img.wf(),
            c < img.channels,
            np == (img.width as int) * (img.height as int),
            ch == img.channels,
            p <= np,
            out@.len() == p,
            forall|j: int|
                0 <= j < p ==> out@[j] == img.data@[j * (img.channels as int) + c],
        decreases np - p,
    {
        proof {
            lemma_plane_idx_bounds(p as int, c as int, np as int, ch as int);
        }
        out.push(img.data[p * ch + c as usize]);
        p = p + 1;
    }
    proof {
        assert(out@ =~= plane_of(*img, c as int));
    }
    out
}

/// One image out of per-channel planes of equal dimensions.
#[verifier::loop_isolation(false)]
fn interleave_planes(planes: &Vec<Vec<u16>>, w: u32, h: u32) -> (r: Image)
    requires
        1 <= w,
        1 <= h,
        1 <= planes@.len() <= u32::MAX,
        forall|i: int| 0 <= i < planes@.len() ==> (#[trigger] planes@[i])@.len() == (w as int) * (
        h as int),
        (w as int) * (h as int) * (planes@.len() as int) <= usize::MAX,
    ensures
        r.wf(),
        r.width == w,
        r.height == h,
        r.channels == planes@.len(),
        forall|p: int, c: int|
            0 <= p < (w as int) * (h as int) && 0 <= c < planes@.len() ==> r.data@[p * (
            planes@.len() as int) + c] == #[trigger] (planes@[c])@[p],
{
    proof {
        lemma_idx_bounds(0, 0, 0, w as int, h as int, planes@.len() as int);
    }
    let np: usize = (w as usize) * (h as usize);
    let ch: usize = planes.len();
    let mut data: Vec<u16> = Vec::new();
    let mut p: usize = 0;
    proof {
        assert(0 * (ch as int) == 0) by (nonlinear_arith);
    }
    while p < np
        invariant
            1 <= ch <= u32::MAX,
            ch == planes@.len(),
            np == (w as int) * (h as int),
            forall|i: int| 0 <= i < planes@.len() ==> (#[trigger] planes@[i])@.len() == np,
            p <= np,
            data@.len() == p * ch,
            forall|p2: int, c2: int|
                0 <= p2 < p && 0 <= c2 < ch ==> data@[p2 * ch + c2] == #[trigger] (
                planes@[c2])@[p2],
        decreases np - p,
    {
        let mut c: usize = 0;
        while c < ch
            invariant
                1 <= ch <= u32::MAX,
                ch == planes@.len(),
                np == (w as int) * (h as int),
                forall|i: int| 0 <= i < planes@.len() ==> (#[trigger] planes@[i])@.len() == np,
                p < np,
                c <= ch,
                data@.len() == p * ch + c,
                forall|p2: int, c2: int|
                    0 <= p2 < p && 0 <= c2 < ch ==> data@[p2 * ch + c2] == #[trigger] (
                    planes@[c2])@[p2],
                forall|c2: int|
                    0 <= c2 < c ==> data@[p * ch + c2] == (#[trigger] planes@[c2])@[p as int],
            decreases ch - c,
        {
            data.push(planes[c][p]);
            proof {
                assert forall|p2: int, c2: int|
                    0 <= p2 < p && 0 <= c2 < ch implies data@[p2 * ch + c2] == #[trigger] (
                planes@[c2])@[p2] by {
                    lemma_plane_idx_bounds(p2, c2, p as int, ch as int);
                }
            }
            c = c + 1;
        }
        proof {
            assert((p + 1) * ch == p * ch + ch) by (nonlinear_arith);
        }
        p = p + 1;
    }
    Image { width: w, height: h, channels: ch as u32, data }
}

/// Mixes `back` into `main` under the radial mask: every channel of every
/// pixel `(x, y)` becomes the blend of the two images' values there, with
/// the blend factor that `circle` and `fuzz` assign to `(x, y)`.
#[verifier::loop_isolation(false)]
pub fn composite(main: &mut Image, back: &Image, circle: i64, fuzz: i64)
    requires
        old(main).wf(),
        back.wf(),
        back.width == old(main).width,
        back.height == old(main).height,
        back.channels == old(main).channels,
    ensures
        final(main).wf(),
        final(main).width == old(main).width,
        final(main).height == old(main).height,
        final(main).channels == old(main).channels,
        forall|x: int, y: int, c: int|
            0 <= x < old(main).width && 0 <= y < old(main).height && 0 <= c < old(main).channels
                ==> final(main).data@[idx_of(x, y, c, old(main).width as int,
            old(main).channels as int)] == mix_of(
                old(main).data@[idx_of(x, y, c, old(main).width as int,
                old(main).channels as int)] as int,
                back.data@[idx_of(x, y, c, old(main).width as int, old(main).channels as int)] as int,
                blend_of(x, y, old(main).width as int, old(main).height as int, circle as int,
                fuzz as int),
            ),
{
    let w: u32 = main.width;
    let h: u32 = main.height;
    let ch: u32 = main.channels;
    let ghost wi = w as int;
    let ghost chi = ch as int;
    let mut y: u32 = 0;
    while y < h
        invariant
            y <= h,
            main.wf(),
            main.width == w,
            main.height == h,
            main.channels == ch,
            forall|x2: int, y2: int, c2: int|
                0 <= x2 < w && 0 <= y2 < h && 0 <= c2 < ch && y2 < y ==> main.data@[#[trigger] idx_of(
                x2, y2, c2, wi, chi)] == mix_of(old(main).data@[idx_of(x2, y2, c2, wi, chi)] as int,
                back.data@[idx_of(x2, y2, c2, wi, chi)] as int, blend_of(x2, y2, w as int, h as int,
                circle as int, fuzz as int)),
            forall|x2: int, y2: int, c2: int|
                0 <= x2 < w && 0 <= y2 < h && 0 <= c2 < ch && y2 >= y ==> main.data@[#[trigger] idx_of(
                x2, y2, c2, wi, chi)] == old(main).data@[idx_of(x2, y2, c2, wi, chi)],
        decreases h - y,
    {
        let mut x: u32 = 0;
        while x < w
            invariant
                x <= w,
                y < h,
                main.wf(),
                main.width == w,
                main.height == h,
                main.channels == ch,
                forall|x2: int, y2: int, c2: int|
                    0 <= x2 < w && 0 <= y2 < h && 0 <= c2 < ch && (y2 < y || (y2 == y && x2 < x))
                        ==> main.data@[#[trigger] idx_of(x2, y2, c2, wi, chi)] == mix_of(
                    old(main).data@[idx_of(x2, y2, c2, wi, chi)] as int, back.data@[idx_of(x2, y2, c2,
                    wi, chi)] as int, blend_of(x2, y2, w as int, h as int, circle as int, fuzz as int)),
                forall|x2: int, y2: int, c2: int|
                    0 <= x2 < w && 0 <= y2 < h && 0 <= c2 < ch && (y2 > y || (y2 == y && x2 >= x))
                        ==> main.data@[#[trigger] idx_of(x2, y2, c2, wi, chi)] == old(
                    main).data@[idx_of(x2, y2, c2, wi, chi)],
            decreases w - x,
        {
            let bl: u32 = blend_factor(x, y, w, h, circle, fuzz);
            let mut c: u32 = 0;
            while c < ch
                invariant
                    c <= ch,
                    x < w,
                    y < h,
                    main.wf(),
                    main.width == w,
                    main.height == h,
                    main.channels == ch,
                    forall|x2: int, y2: int, c2: int|
                        0 <= x2 < w && 0 <= y2 < h && 0 <= c2 < ch && (y2 < y || (y2 == y && x2
                            < x) || (y2 == y && x2 == x && c2 < c)) ==> main.data@[#[trigger] idx_of(
                        x2, y2, c2, wi, chi)] == mix_of(old(main).data@[idx_of(x2, y2, c2, wi,
                        chi)] as int, back.data@[idx_of(x2, y2, c2, wi, chi)] as int, blend_of(x2, y2, w as int,
                        h as int, circle as int, fuzz as int)),
                    forall|x2: int, y2: int, c2: int|
                        0 <= x2 < w && 0 <= y2 < h && 0 <= c2 < ch && (y2 > y || (y2 == y && x2
                            > x) || (y2 == y && x2 == x && c2 >= c)) ==> main.data@[#[trigger] idx_of(
                        x2, y2, c2, wi, chi)] == old(main).data@[idx_of(x2, y2, c2, wi, chi)],
                decreases ch - c,
            {
                let ghost prev = *main;
                let a: u16 = main.get(x, y, c);
                let b: u16 = back.get(x, y, c);
                let v: u16 = mix_subpixel(a, b, bl);
                main.set(x, y, c, v);
                proof {
                    let xi = x as int;
                    let yi = y as int;
                    let ci = c as int;
                    let hi = h as int;
                    lemma_idx_bounds(xi, yi, ci, wi, hi, chi);
                    let iw = idx_of(xi, yi, ci, wi, chi);
                    assert(main.data@ == prev.data@.update(iw, v));
                    assert(main.data@[iw] == v);
                    assert(v == mix_of(old(main).data@[iw] as int, back.data@[iw] as int,
                        blend_of(xi, yi, w as int, hi, circle as int, fuzz as int)));
                    assert forall|x2: int, y2: int, c2: int|
                        0 <= x2 < w && 0 <= y2 < h && 0 <= c2 < ch && (y2 < y || (y2 == y && x2
                            < x) || (y2 == y && x2 == x && c2 < ci + 1)) implies main.data@[#[trigger] idx_of(
                        x2, y2, c2, wi, chi)] == mix_of(old(main).data@[idx_of(x2, y2, c2, wi,
                        chi)] as int, back.data@[idx_of(x2, y2, c2, wi, chi)] as int, blend_of(x2,
                        y2, w as int, hi, circle as int, fuzz as int)) by {
                        lemma_idx_bounds(x2, y2, c2, wi, hi, chi);
                        if !(x2 == xi && y2 == yi && c2 == ci) {
                            if idx_of(x2, y2, c2, wi, chi) == iw {
                                lemma_idx_inj(x2, y2, c2, xi, yi, ci, wi, hi, chi);
                            }
                            assert(main.data@[idx_of(x2, y2, c2, wi, chi)] == prev.data@[idx_of(
                            x2, y2, c2, wi, chi)]);
                        }
                    }
                    assert forall|x2: int, y2: int, c2: int|
                        0 <= x2 < w && 0 <= y2 < h && 0 <= c2 < ch && (y2 > y || (y2 == y && x2
                            > x) || (y2 == y && x2 == x && c2 >= ci + 1)) implies main.data@[#[trigger] idx_of(
                        x2, y2, c2, wi, chi)] == old(main).data@[idx_of(x2, y2, c2, wi, chi)] by {
                        lemma_idx_bounds(x2, y2, c2, wi, hi, chi);
                        if idx_of(x2, y2, c2, wi, chi) == iw {
                            lemma_idx_inj(x2, y2, c2, xi, yi, ci, wi, hi, chi);
                        }
                        assert(main.data@[idx_of(x2, y2, c2, wi, chi)] == prev.data@[idx_of(x2,
                            y2, c2, wi, chi)]);
                    }
                }
                c = c + 1;
            }
            x = x + 1;
        }
        y = y + 1;
    }
}

/// The whole compositor: resamples `back` to `main`'s dimensions with the
/// Catmull-Rom filter (channel plane by channel plane) and mixes it into
/// `main` under the radial mask given by `circle` and `fuzz`.
#[verifier::loop_isolation(false)]
pub fn combine(main: Image, back: Image, circle: i64, fuzz: i64) -> (r: Image)
    requires
        main.wf(),
        back.wf(),
        back.channels == main.channels,
    ensures
        r.wf(),
        r.width == main.width,
        r.height == main.height,
        r.channels == main.channels,
        forall|x: int, y: int, c: int|
            0 <= x < main.width && 0 <= y < main.height && 0 <= c < main.channels
                ==> r.data@[#[trigger] idx_of(x, y, c, main.width as int, main.channels as int)]
                == mix_of(
                main.data@[idx_of(x, y, c, main.width as int, main.channels as int)] as int,
                catmullrom_resized(plane_of(back, c), back.width as int, back.height as int,
                main.width as int, main.height as int)[y * (main.width as int) + x] as int,
                blend_of(x, y, main.width as int, main.height as int, circle as int, fuzz as int),
            ),
        back.width == main.width && back.height == main.height ==> forall|c: int|
            0 <= c < main.channels ==> #[trigger] catmullrom_resized(plane_of(back, c),
            back.width as int, back.height as int, main.width as int, main.height as int)
            == plane_of(back, c),
{
    let ghost main0 = main;
    let w: u32 = main.width;
    let h: u32 = main.height;
    let ch: u32 = main.channels;
    let _n: usize = main.data.len();
    proof {
        lemma_idx_bounds(0, 0, 0, w as int, h as int, ch as int);
    }
    let mut planes: Vec<Vec<u16>> = Vec::new();
    let mut c: u32 = 0;
    while c < ch
        invariant
            c <= ch,
            planes@.len() == c,
            forall|i: int|
                0 <= i < c ==> (#[trigger] planes@[i])@ == catmullrom_resized(plane_of(back, i),
                back.width as int, back.height as int, w as int, h as int),
            forall|i: int|
                0 <= i < c ==> (#[trigger] planes@[i])@.len() == (w as int) * (h as int),
            back.width == w && back.height == h ==> forall|i: int|
                0 <= i < c ==> #[trigger] catmullrom_resized(plane_of(back, i),
                back.width as int, back.height as int, w as int, h as int) == plane_of(back, i),
        decreases ch - c,
    {
        let src: Vec<u16> = extract_plane(&back, c);
        let rp: Vec<u16> = resize_plane(&src, back.width, back.height, w, h);
        planes.push(rp);
        c = c + 1;
    }
    let resized: Image = interleave_planes(&planes, w, h);
    let mut out: Image = main;
    composite(&mut out, &resized, circle, fuzz);
    proof {
        let wi = w as int;
        let hi = h as int;
        let chi = ch as int;
        assert forall|x: int, y: int, c2: int|
            0 <= x < w && 0 <= y < h && 0 <= c2 < ch implies out.data@[#[trigger] idx_of(x, y,
        c2, wi, chi)] == mix_of(main0.data@[idx_of(x, y, c2, wi, chi)] as int, catmullrom_resized(
            plane_of(back, c2), back.width as int, back.height as int, wi, hi)[y * wi + x] as int,
            blend_of(x, y, wi, hi, circle as int, fuzz as int)) by {
            lemma_idx_bounds(x, y, c2, wi, hi, chi);
            let p = y * wi + x;
            assert(idx_of(x, y, c2, wi, chi) == p * chi + c2);
            assert(resized.data@[p * chi + c2] == (planes@[c2])@[p]);
            assert((planes@[c2])@[p] == catmullrom_resized(plane_of(back, c2),
                back.width as int, back.height as int, wi, hi)[p]);
        }
    }
    out
}

} // verus!
