use radial_composite::blend::{blend_factor, mix_subpixel, scaled_distance};
use radial_composite::compose::{combine, composite};
use radial_composite::math::isqrt;
use radial_composite::raster::Image;
use radial_composite::SCALE;

/// Builds a single-channel image with every subpixel set to `value`.
fn filled(width: u32, height: u32, channels: u32, value: u16) -> Image {
    Image::new_filled(width, height, channels, value).unwrap()
}

#[test]
fn output_dimensions_match_main() {
    let main = filled(3, 2, 2, 40);
    let back = filled(5, 4, 2, 7);
    let out = combine(main, back, 500_000, 10_000);
    assert_eq!(out.width, 3);
    assert_eq!(out.height, 2);
    assert_eq!(out.channels, 2);
    assert_eq!(out.data.len(), 3 * 2 * 2);
}

#[test]
fn huge_circle_hard_edge_keeps_main() {
    // circle_size 10 covers the whole 4x4 image; a hard edge keeps every
    // main pixel.
    let main = filled(4, 4, 1, 200);
    let back = filled(4, 4, 1, 0);
    let out = combine(main, back, 10_000_000, 0);
    assert!(out.data.iter().all(|&v| v == 200));
}

#[test]
fn negative_circle_hard_edge_takes_background() {
    // circle_size -1 puts every pixel outside the mask; a hard edge takes
    // every background pixel.
    let main = filled(4, 4, 1, 200);
    let back = filled(4, 4, 1, 0);
    let out = combine(main, back, -1_000_000, 0);
    assert!(out.data.iter().all(|&v| v == 0));
}

#[test]
fn hard_edge_is_binary() {
    // With zero fuzz every output channel equals one input or the other:
    // the main value inside the mask, the background value outside.
    let main = filled(4, 4, 1, 200);
    let back = filled(4, 4, 1, 50);
    let out = combine(main, back, 500_000, 0);
    for y in 0..4u32 {
        for x in 0..4u32 {
            let dx = 2 * x as i64 - 4;
            let dy = 2 * y as i64 - 4;
            let d2 = dx * dx + dy * dy;
            // Normalized distance is sqrt(d2)/4; it is <= 0.5 exactly
            // when d2 <= 4.
            let expected = if d2 <= 4 { 200 } else { 50 };
            assert_eq!(out.get(x, y, 0), expected, "pixel ({x},{y})");
        }
    }
}

#[test]
fn fuzzy_two_by_two_corner_and_center() {
    // 2x2 image, circle_size 0, edge_fuzz 1: the corner pixel lies at
    // normalized distance ~1.41, so its blend clamps to 1 (pure
    // background); the pixel nearest the center maps exactly onto the
    // origin, so it keeps the main value.
    let main = filled(2, 2, 1, 200);
    let back = filled(2, 2, 1, 100);
    let out = combine(main, back, 0, 1_000_000);
    assert_eq!(out.get(0, 0, 0), 100);
    assert_eq!(out.get(1, 0, 0), 100);
    assert_eq!(out.get(0, 1, 0), 100);
    assert_eq!(out.get(1, 1, 0), 200);
}

#[test]
fn fuzzy_genuine_mix() {
    // circle_size -0.5 with edge_fuzz 1 gives the center pixel of a 2x2
    // image a blend factor of exactly one half: a true linear mix.
    let main = filled(2, 2, 1, 200);
    let back = filled(2, 2, 1, 100);
    let out = combine(main, back, -500_000, 1_000_000);
    assert_eq!(out.get(1, 1, 0), 150);
    assert_eq!(out.get(0, 0, 0), 100);
}

#[test]
fn blend_factor_monotone_in_distance() {
    // Walking outward from the image center, the blend factor never
    // decreases.
    let mut last = 0u32;
    for x in 50..101u32 {
        let b = blend_factor(x, 50, 101, 101, 500_000, 200_000);
        assert!(b >= last, "blend dropped at x={x}");
        last = b;
    }
}

#[test]
fn blend_factor_symmetric() {
    // Pixels at equal normalized distance from the center blend equally,
    // whatever their direction.
    let b1 = blend_factor(10, 20, 64, 64, 500_000, 300_000);
    let b2 = blend_factor(20, 10, 64, 64, 500_000, 300_000);
    let b3 = blend_factor(54, 20, 64, 64, 500_000, 300_000);
    assert_eq!(b1, b2);
    assert_eq!(b1, b3);
}

#[test]
fn channels_mix_independently() {
    // Changing only channel 1 of the inputs leaves channel 0 of the
    // output untouched.
    let mut main1 = filled(2, 2, 2, 50);
    let mut main2 = filled(2, 2, 2, 50);
    for y in 0..2u32 {
        for x in 0..2u32 {
            main1.set(x, y, 1, 60);
            main2.set(x, y, 1, 99);
        }
    }
    let back1 = filled(2, 2, 2, 10);
    let back2 = filled(2, 2, 2, 10);
    let out1 = combine(main1, back1, -500_000, 1_000_000);
    let out2 = combine(main2, back2, -500_000, 1_000_000);
    for y in 0..2u32 {
        for x in 0..2u32 {
            assert_eq!(out1.get(x, y, 0), out2.get(x, y, 0));
        }
    }
    assert_ne!(out1.get(1, 1, 1), out2.get(1, 1, 1));
}

#[test]
fn mix_subpixel_exact_values() {
    assert_eq!(mix_subpixel(200, 100, 500_000), 150);
    assert_eq!(mix_subpixel(200, 0, 0), 200);
    assert_eq!(mix_subpixel(200, 0, SCALE), 0);
    // Halves round up: 0.5 becomes 1.
    assert_eq!(mix_subpixel(1, 0, 500_000), 1);
    assert_eq!(mix_subpixel(0, 1, 500_000), 1);
    assert_eq!(mix_subpixel(65535, 0, 0), 65535);
    assert_eq!(mix_subpixel(0, 65535, SCALE), 65535);
}

#[test]
fn negative_fuzz_acts_as_absolute() {
    let pos = blend_factor(0, 0, 2, 2, 0, 1_000_000);
    let neg = blend_factor(0, 0, 2, 2, 0, -1_000_000);
    assert_eq!(pos, neg);
    let pos2 = blend_factor(3, 7, 16, 16, 300_000, 400_000);
    let neg2 = blend_factor(3, 7, 16, 16, 300_000, -400_000);
    assert_eq!(pos2, neg2);
}

#[test]
fn isqrt_exact_values() {
    assert_eq!(isqrt(0), 0);
    assert_eq!(isqrt(1), 1);
    assert_eq!(isqrt(15), 3);
    assert_eq!(isqrt(16), 4);
    assert_eq!(isqrt(8_000_000_000_000), 2_828_427);
    assert_eq!(isqrt(u128::MAX), u64::MAX);
}

#[test]
fn scaled_distance_exact_values() {
    // Corner of a 2x2 image: sqrt(8)/2 ~ 1.414213.
    assert_eq!(scaled_distance(0, 0, 2, 2), 1_414_213);
    // The pixel mapping onto the origin.
    assert_eq!(scaled_distance(1, 1, 2, 2), 0);
    // Left edge of a square image at mid height: distance exactly 1.
    assert_eq!(scaled_distance(0, 50, 100, 100), 1_000_000);
}

#[test]
fn from_vec_checks_shape() {
    let img = Image::from_vec(2, 3, 1, vec![1, 2, 3, 4, 5, 6]).unwrap();
    assert_eq!(img.width, 2);
    assert_eq!(img.height, 3);
    assert_eq!(img.channels, 1);
    assert_eq!(img.get(1, 2, 0), 6);
    assert!(Image::from_vec(2, 3, 1, vec![1, 2, 3]).is_none());
    assert!(Image::from_vec(0, 3, 1, vec![]).is_none());
    assert!(Image::from_vec(2, 0, 1, vec![]).is_none());
    assert!(Image::from_vec(2, 3, 0, vec![]).is_none());
}

#[test]
fn new_filled_fills() {
    let img = filled(3, 3, 2, 17);
    assert_eq!(img.data.len(), 18);
    assert!(img.data.iter().all(|&v| v == 17));
    assert!(Image::new_filled(0, 3, 1, 0).is_none());
}

#[test]
fn set_then_get() {
    let mut img = filled(4, 4, 3, 0);
    img.set(2, 3, 1, 4321);
    assert_eq!(img.get(2, 3, 1), 4321);
    assert_eq!(img.get(2, 3, 0), 0);
    assert_eq!(img.get(2, 3, 2), 0);
    assert_eq!(img.get(3, 2, 1), 0);
}

#[test]
fn composite_in_place_matches_combine() {
    // composite on an already-sized background agrees with combine when
    // the background needs no resampling.
    let main = filled(4, 4, 1, 200);
    let back = filled(4, 4, 1, 50);
    let mut in_place = filled(4, 4, 1, 200);
    let sized_back = filled(4, 4, 1, 50);
    composite(&mut in_place, &sized_back, 500_000, 250_000);
    let out = combine(main, back, 500_000, 250_000);
    assert_eq!(in_place.data, out.data);
}

#[test]
fn background_is_resampled_to_main_size() {
    // A 1x1 background must be stretched to 2x2 before mixing; with the
    // mask fully open the output is the stretched background. This fails
    // if the resampling step hands its input back unchanged.
    let main = filled(2, 2, 1, 200);
    let back = filled(1, 1, 1, 7);
    let out = combine(main, back, -1_000_000, 0);
    assert_eq!(out.data.len(), 4);
    assert!(out.data.iter().all(|&v| v == 7));
}

#[test]
fn multichannel_background_takeover() {
    // Three channels, background of another size: with a negative mask
    // radius and a hard edge every channel of every pixel becomes the
    // (constant) resampled background value.
    let main = filled(3, 2, 3, 500);
    let back = filled(5, 4, 3, 80);
    let out = combine(main, back, -2_000_000, 0);
    assert!(out.data.iter().all(|&v| v == 80));
}
