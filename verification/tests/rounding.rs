use dither::geometry::{CropOrigin, FitOptions, cover_rect};
use dither::resize::scaled_size;
use dither::rounding::{rne, whole};

/// The width a square photo of side `side` keeps at `zoom`, as single-precision arithmetic computes it.
fn zoomed_in_floats(side: u32, zoom: f32) -> u32 {
    let zoom = if zoom.is_finite() { zoom.max(1.0) } else { 1.0 };
    if zoom > 1.0 { ((side as f32 / zoom).round() as u32).clamp(1, side) } else { side }
}

/// One side scaled by `factor`, as double-precision arithmetic computes it.
fn scaled_in_floats(side: u32, factor: f64) -> u32 {
    let factor = if factor.is_finite() && factor > 0.0 { factor } else { 1.0 };
    ((f64::from(side) * factor).round() as u32).max(1)
}

/// The width `cover_rect` keeps of a square photo, centred.
fn zoomed(side: u32, zoom: f32) -> u32 {
    cover_rect((side, side), (1, 1), CropOrigin::Center, f64::from(zoom).to_bits()).2
}

/// The width `scaled_size` gives a `side` wide photo.
fn scaled(side: u32, factor: f64) -> u32 {
    scaled_size((side, 1), (1, 1), FitOptions::default(), factor.to_bits()).0
}

/// A small deterministic generator, so the sweeps below are the same on every run.
fn next(state: &mut u64) -> u64 {
    *state = state.wrapping_mul(6364136223846793005).wrapping_add(1442695040888963407);
    *state >> 11
}

#[test]
fn a_zoom_divides_at_single_precision() {
    // The next single above two: the single-precision quotient is a hair under 500.5, so it rounds down, where a zoom
    // of exactly two gives 500.5 and rounds up.
    let above_two = f32::from_bits(0x4000_0001);
    assert_eq!(zoomed(1001, above_two), 500);
    assert_eq!(zoomed(1001, above_two), zoomed_in_floats(1001, above_two));
    // 2.0000001 is nearer two than the next single, so it is two.
    assert_eq!(zoomed(1001, 2.0000001), 501);
    assert_eq!(zoomed(1001, 2.0), 501);
    assert_eq!(zoomed(1152, 1.5), 768);
    // No zoom at all: one, less than one, not a number, and too large for single precision.
    for none in [1.0f32, 0.5, -3.0, f32::NAN, f32::INFINITY] {
        assert_eq!(zoomed(1152, none), 1152, "{none}");
    }
    assert_eq!(
        cover_rect((1152, 1152), (1, 1), CropOrigin::Center, 1e300f64.to_bits()).2,
        1152,
        "a double past single precision is an infinity"
    );
    // Enormous zooms leave a single pixel.
    assert_eq!(zoomed(1152, 3e38), 1);
    assert_eq!(zoomed(u32::MAX, 1.0000001), zoomed_in_floats(u32::MAX, 1.0000001));
}

#[test]
fn a_double_zoom_is_taken_at_single_precision() {
    // 1.00000001 is above one as a double but rounds to exactly one in single precision.
    let bits = 1.00000001f64.to_bits();
    assert_eq!(cover_rect((1152, 1152), (1, 1), CropOrigin::Center, bits).2, 1152);
    let bits = 2.00000005f64.to_bits();
    assert_eq!(cover_rect((1001, 1001), (1, 1), CropOrigin::Center, bits).2, zoomed_in_floats(1001, 2.00000005f64 as f32));
}

#[test]
fn zooms_agree_with_single_precision_arithmetic() {
    let mut state = 7u64;
    for _ in 0..20_000 {
        let side = match next(&mut state) % 3 {
            0 => (next(&mut state) % 5000) as u32 + 1,
            1 => (next(&mut state) % (1 << 26)) as u32 + 1,
            _ => (next(&mut state) as u32).max(1),
        };
        let zoom = match next(&mut state) % 3 {
            0 => 1.0 + (next(&mut state) % 10_000) as f32 / 1000.0,
            1 => f32::from_bits(0x3f80_0000 + (next(&mut state) % 0x0200_0000) as u32),
            _ => f32::from_bits(next(&mut state) as u32),
        };
        assert_eq!(zoomed(side, zoom), zoomed_in_floats(side, zoom), "side {side}, zoom {zoom:e}");
    }
}

#[test]
fn a_factor_multiplies_at_double_precision() {
    assert_eq!(scaled(2_000_000, 1.4e-6), 3);
    assert_eq!(scaled(2_000_000, 1.4e-6), scaled_in_floats(2_000_000, 1.4e-6));
    assert_eq!(scaled(100, 0.75), 75);
    assert_eq!(scaled(5, 0.5), 3);
    assert_eq!(scaled(0, 0.5), 1);
    assert_eq!(scaled(7, 1e300), u32::MAX);
    assert_eq!(scaled(7, 5e-324), 1);
    for none in [0.0, -0.0, -2.0, f64::NAN, f64::INFINITY] {
        assert_eq!(scaled(123, none), 123, "{none}");
    }
}

#[test]
fn factors_agree_with_double_precision_arithmetic() {
    let mut state = 11u64;
    for _ in 0..20_000 {
        let side = match next(&mut state) % 2 {
            0 => (next(&mut state) % 10_000) as u32,
            _ => next(&mut state) as u32,
        };
        let factor = match next(&mut state) % 3 {
            0 => (next(&mut state) % 2_000_000) as f64 / 1_000_000.0,
            1 => f64::from_bits(0x3fe0_0000_0000_0000 + next(&mut state) % 0x0020_0000_0000_0000),
            _ => f64::from_bits(next(&mut state) << 11 | next(&mut state) % 2048),
        };
        assert_eq!(scaled(side, factor), scaled_in_floats(side, factor), "side {side}, factor {factor:e}");
    }
}

#[test]
fn rounding_to_a_precision_ties_to_even() {
    // 10 / 4 = 2.5 at two bits: 2.5 is between 2 and 3, a tie, and 2 is the even mantissa.
    assert_eq!(rne(10, 4, 2), (2, 0));
    // 14 / 4 = 3.5 at two bits: a tie between 3 and 4 (mantissa 2 at scale 1), which is even.
    assert_eq!(rne(14, 4, 2), (4, 0));
    // 7 at 24 bits is exact.
    assert_eq!(rne(7, 1, 24), (7 << 21, -21));
    // Halves go away from zero once the value is made whole.
    assert_eq!(whole(5, -1), 3);
    assert_eq!(whole(3, -1), 2);
    assert_eq!(whole(3, 2), 12);
}

#[test]
fn a_zoomed_rectangle_keeps_the_ratio_within_the_slack() {
    let story = (1080u32, 1920u32);
    let slack = 1920 + 1080 + 1920;
    for zoom in [1.5f32, 2.0000002, 3.3, 7.77] {
        for origin in [CropOrigin::Center, CropOrigin::Top, CropOrigin::At { x: 0, y: 200 }] {
            let (_, _, w, h) = cover_rect((1536, 2048), story, origin, f64::from(zoom).to_bits());
            let cross = i64::from(w) * i64::from(story.1) - i64::from(h) * i64::from(story.0);
            assert!(cross.abs() <= slack, "zoom {zoom}: {w}x{h}");
        }
    }
}

#[test]
fn a_zoom_that_does_not_zoom_in_keeps_the_rectangle_of_one() {
    let (source, story) = ((1536, 2048), (1080, 1920));
    for origin in [CropOrigin::Center, CropOrigin::Bottom, CropOrigin::At { x: 0, y: 200 }] {
        let at_one = cover_rect(source, story, origin, 1.0f64.to_bits());
        for none in [0.5f64, 1.0, 1.00000001, -4.0, 0.0, f64::NAN, f64::INFINITY, f64::NEG_INFINITY, 1e300] {
            assert_eq!(cover_rect(source, story, origin, none.to_bits()), at_one, "zoom {none}");
        }
    }
}
