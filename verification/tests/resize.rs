use dither::geometry::{CropOrigin, DISPLAY_IMAGE_SIZE, FitOptions, cover_rect, fitted_rect, fitted_size, prefilter_factor};
use dither::presets::preset_ratio;
use dither::ratio_size;
use dither::resize::{box_reduce, crop_to_fit, resize_cropped, resize_image, resize_to_fit, scale_nearest, scale_to_fit};
use dither::RgbImage;

/// The bit pattern of a zoom of 1.0.
const WHOLE: u64 = 0x3FF0_0000_0000_0000;
/// The bit pattern of a zoom of 2.0.
const TWICE: u64 = 0x4000_0000_0000_0000;

/// A `width` by `height` photo whose pixel `(x, y)` is `pixel(x, y)`.
fn photo_from(width: u32, height: u32, pixel: impl Fn(u32, u32) -> [u8; 3]) -> RgbImage {
    let mut data = Vec::with_capacity((width * height * 3) as usize);
    for y in 0..height {
        for x in 0..width {
            data.extend_from_slice(&pixel(x, y));
        }
    }
    RgbImage::from_raw(width, height, data).expect("the buffer matches the size")
}

fn all_pixels(image: &RgbImage, check: impl Fn([u8; 3]) -> bool) -> bool {
    image.as_raw().chunks(3).all(|p| check([p[0], p[1], p[2]]))
}

fn any_pixel(image: &RgbImage, check: impl Fn([u8; 3]) -> bool) -> bool {
    image.as_raw().chunks(3).any(|p| check([p[0], p[1], p[2]]))
}

fn factor(value: f64) -> u64 {
    value.to_bits()
}

#[test]
fn resize_to_the_same_size_is_a_no_op() {
    let image = photo_from(3, 2, |x, y| [x as u8, y as u8, 7]);
    assert_eq!(resize_image(&image, (3, 2)), image);
}

#[test]
fn resize_resize_to_the_same_size_is_a_no_op() {
    let image = photo_from(3, 2, |x, y| [x as u8, y as u8, 7]);
    assert_eq!(resize_image(&image, (3, 2)), image);
}

#[test]
fn downscaling_averages_rather_than_point_samples() {
    // A black and white checkerboard must reduce to mid grey, not to one colour.
    let image = photo_from(64, 64, |x, y| {
        let v = if (x + y) % 2 == 0 { 0 } else { 255 };
        [v, v, v]
    });
    let small = resize_image(&image, (8, 8));
    assert!(all_pixels(&small, |p| (100..=155).contains(&p[0])), "expected mid grey, got {:?}", small.get_pixel(4, 4));
}

#[test]
fn resize_downscaling_averages_rather_than_point_samples() {
    let image = photo_from(64, 64, |x, y| {
        let v = if (x + y) % 2 == 0 { 0 } else { 255 };
        [v, v, v]
    });
    let small = resize_image(&image, (8, 8));
    assert!(all_pixels(&small, |p| (100..=155).contains(&p[0])), "expected mid grey, got {:?}", small.get_pixel(4, 4));
}

#[test]
fn the_prefilter_never_undershoots_the_target() {
    // Whatever the factor, both reduced sides must still cover the target, so the triangle pass that follows only ever
    // downscales.
    for (w, h) in [(8256, 5504), (3456, 5184), (1201, 801), (600, 401)] {
        let factor = prefilter_factor((w, h), DISPLAY_IMAGE_SIZE);
        assert!(
            w / factor >= DISPLAY_IMAGE_SIZE.0 && h / factor >= DISPLAY_IMAGE_SIZE.1,
            "{w}x{h} reduced by {factor} falls under the target"
        );
    }
}

#[test]
fn upscaling_skips_the_prefilter() {
    assert_eq!(prefilter_factor((300, 200), DISPLAY_IMAGE_SIZE), 1);
    let image = RgbImage::from_pixel(300, 200, [9, 9, 9]);
    assert_eq!(resize_image(&image, DISPLAY_IMAGE_SIZE).dimensions(), DISPLAY_IMAGE_SIZE);
}

#[test]
fn box_reduce_averages_each_block() {
    // Two 2x2 blocks: one all 0, one all 200.
    let image = photo_from(4, 2, |x, _| {
        let v = if x < 2 { 0 } else { 200 };
        [v, v, v]
    });
    let reduced = box_reduce(&image, (0, 0, 4, 2), 2);
    assert_eq!(reduced.dimensions(), (2, 1));
    assert_eq!(reduced.get_pixel(0, 0), [0, 0, 0]);
    assert_eq!(reduced.get_pixel(1, 0), [200, 200, 200]);
}

#[test]
fn box_reduce_rounds_each_average_to_nearest() {
    // A 2x2 block of 0, 1, 1, 1 sums to 3 over 4 cells, which is 0.75 and rounds up.
    let image = photo_from(2, 2, |x, y| if x == 0 && y == 0 { [0, 0, 0] } else { [1, 1, 2] });
    let reduced = box_reduce(&image, (0, 0, 2, 2), 2);
    assert_eq!(reduced.get_pixel(0, 0), [1, 1, 2]);
    // A factor of one copies the region out.
    let copy = box_reduce(&image, (1, 0, 1, 2), 1);
    assert_eq!(copy.dimensions(), (1, 2));
    assert_eq!(copy.get_pixel(0, 0), [1, 1, 2]);
}

#[test]
fn the_two_step_descent_tracks_the_single_pass_one() {
    // A smooth gradient: the two paths must agree to within a level or two.
    let image = photo_from(2400, 1600, |x, y| [(x / 10) as u8, (y / 10) as u8, ((x + y) / 16) as u8]);
    let two_step = resize_image(&image, DISPLAY_IMAGE_SIZE);
    let reference = image::RgbImage::from_raw(2400, 1600, image.as_raw().to_vec()).expect("same buffer");
    let single = image::imageops::resize(
        &reference,
        DISPLAY_IMAGE_SIZE.0,
        DISPLAY_IMAGE_SIZE.1,
        image::imageops::FilterType::Triangle,
    );
    let worst = two_step
        .as_raw()
        .iter()
        .zip(single.as_raw())
        .map(|(a, b)| (*a as i32 - *b as i32).abs())
        .max()
        .unwrap();
    assert!(worst <= 2, "two-step resize drifted by {worst} levels");
}

#[test]
fn a_portrait_photo_stays_portrait() {
    let keep = FitOptions { keep_orientation: true, ..Default::default() };

    let portrait = RgbImage::new(1200, 1800);
    assert_eq!(resize_to_fit(&portrait, DISPLAY_IMAGE_SIZE, keep).dimensions(), (400, 600));

    let landscape = RgbImage::new(1800, 1200);
    assert_eq!(resize_to_fit(&landscape, DISPLAY_IMAGE_SIZE, keep).dimensions(), DISPLAY_IMAGE_SIZE);

    // The default: whatever the photo, the size it was asked for.
    assert_eq!(resize_to_fit(&portrait, DISPLAY_IMAGE_SIZE, FitOptions::default()).dimensions(), DISPLAY_IMAGE_SIZE);
}

#[test]
fn a_corner_and_a_size_that_match_hand_back_the_original_pixels() {
    // A 100x200 photo cropped from 50,100 into a 50x100 working size. The corner leaves exactly 50x100, which is the
    // size asked for, so there is nothing to scale and the pixels come through untouched.
    let photo = photo_from(100, 200, |x, y| [x as u8, (y / 2) as u8, ((x + y) % 251) as u8]);
    let fit = FitOptions { crop: true, crop_from: CropOrigin::At { x: 50, y: 100 }, ..Default::default() };

    assert_eq!(fitted_rect(photo.dimensions(), (50, 100), fit), (50, 100, 50, 100));

    let out = resize_to_fit(&photo, (50, 100), fit);
    assert_eq!(out.dimensions(), (50, 100));
    for y in 0..100 {
        for x in 0..50 {
            assert_eq!(out.get_pixel(x, y), photo.get_pixel(50 + x, 100 + y), "pixel {x},{y} moved");
        }
    }

    // The shape is what fixes the rectangle, not the size: a square target from the same corner keeps 50x50, and that
    // too comes out pixel for pixel.
    assert_eq!(fitted_rect(photo.dimensions(), (50, 50), fit), (50, 100, 50, 50));
    assert_eq!(resize_to_fit(&photo, (50, 50), fit).get_pixel(10, 10), photo.get_pixel(60, 110));

    // Ask for more than the corner leaves and the same region is scaled up to it instead.
    assert_eq!(fitted_rect(photo.dimensions(), (100, 100), fit), (50, 100, 50, 50));
    assert_eq!(resize_to_fit(&photo, (100, 100), fit).dimensions(), (100, 100));
}

#[test]
fn a_factor_shrinks_whatever_the_framing_kept() {
    let photo = photo_from(100, 200, |x, y| [x as u8, (y / 2) as u8, 60]);

    // No crop: three quarters of each side of the whole photo.
    let plain = FitOptions::default();
    assert_eq!(scale_to_fit(&photo, (600, 400), plain, factor(0.75)).dimensions(), (75, 150));
    assert_eq!(scale_to_fit(&photo, (600, 400), plain, factor(0.5)).dimensions(), (50, 100));

    // With a crop, the factor applies to the rectangle that was kept rather than to the photo.
    let cropped = FitOptions { crop: true, ..Default::default() };
    let rect = fitted_rect(photo.dimensions(), (9, 16), cropped);
    assert_eq!(rect, (0, 11, 100, 177));
    assert_eq!(
        scale_to_fit(&photo, (9, 16), cropped, factor(0.75)).dimensions(),
        (75, 133),
        "0.75 of the 100x177 the crop kept"
    );

    // 1.0 is the crop untouched, and a factor small enough to round a side away still leaves a pixel.
    assert_eq!(crop_to_fit(&photo, (9, 16), cropped), scale_to_fit(&photo, (9, 16), cropped, factor(1.0)));
    assert_eq!(scale_to_fit(&photo, (600, 400), plain, factor(0.001)).dimensions(), (1, 1));

    // A factor that means nothing leaves the photo at its own size.
    for bad in [0.0, -1.0, f64::NAN, f64::INFINITY] {
        assert_eq!(scale_to_fit(&photo, (600, 400), plain, factor(bad)).dimensions(), (100, 200));
    }
}

#[test]
fn cropping_without_scaling_keeps_the_source_pixels() {
    // A 3:4 photo framed 9:16 from 200 rows down. Only the ratio of the target is read, not its size.
    let photo = photo_from(1536, 2048, |x, y| [(x / 8) as u8, (y / 8) as u8, 60]);
    let fit = FitOptions { crop: true, crop_from: CropOrigin::At { x: 0, y: 200 }, ..Default::default() };

    let cropped = crop_to_fit(&photo, (9, 16), fit);
    assert_eq!(cropped.dimensions(), (1039, 1848));
    assert_eq!(fitted_rect(photo.dimensions(), (9, 16), fit), (0, 200, 1039, 1848), "the rect a caller reports is the one that was read");

    // Naming the size rather than the ratio keeps the same pixels, since only the shape is consulted.
    assert_eq!(crop_to_fit(&photo, (1080, 1920), fit).dimensions(), (1039, 1848));

    // The pixels are the source's own, not resampled: the corner is where the crop started.
    assert_eq!(cropped.get_pixel(0, 0), photo.get_pixel(0, 200));
    assert_eq!(cropped.get_pixel(500, 500), photo.get_pixel(500, 700));

    // Scaling to the same size instead lands on 1080x1920, which is the other half of the pair.
    assert_eq!(resize_to_fit(&photo, (1080, 1920), fit).dimensions(), (1080, 1920));

    // And with no crop asked for, the photo comes back whole.
    assert_eq!(crop_to_fit(&photo, (9, 16), FitOptions::default()), photo);
}

#[test]
fn the_reported_rect_is_the_one_the_resize_reads() {
    // Green in the top-left quarter, red everywhere else.
    let image = photo_from(400, 400, |x, y| if x < 200 && y < 200 { [0, 255, 0] } else { [255, 0, 0] });
    let target = (100, 100);

    let fit = FitOptions { crop: true, crop_from: CropOrigin::At { x: 0, y: 0 }, crop_zoom: TWICE, ..Default::default() };
    assert_eq!(fitted_rect(image.dimensions(), target, fit), (0, 0, 200, 200));
    assert_eq!(fitted_size(image.dimensions(), target, fit), target);

    // What the rect says was kept is what came back.
    let out = resize_to_fit(&image, target, fit);
    assert_eq!(out.dimensions(), target);
    assert!(all_pixels(&out, |p| p == [0, 255, 0]), "expected the green quarter");

    // Without the crop the whole photo is read, which is what a caller reports for an uncropped request.
    assert_eq!(fitted_rect(image.dimensions(), target, FitOptions::default()), (0, 0, 400, 400));

    // And the rect follows the transposed size when the orientation is kept.
    let fit = FitOptions { keep_orientation: true, crop: true, ..Default::default() };
    let portrait = RgbImage::new(400, 800);
    assert_eq!(fitted_size(portrait.dimensions(), DISPLAY_IMAGE_SIZE, fit), (400, 600));
    assert_eq!(fitted_rect(portrait.dimensions(), DISPLAY_IMAGE_SIZE, fit), (0, 100, 400, 600));
}

#[test]
fn cropping_keeps_the_middle_and_drops_the_edges() {
    // Red sides, a green band down the middle third.
    let banded = |width: u32, height: u32| {
        photo_from(width, height, |x, _| if (width / 3..2 * width / 3).contains(&x) { [0, 255, 0] } else { [255, 0, 0] })
    };

    // Straight through the triangle filter, and through the box prefilter as well.
    for (width, target) in [(120u32, (40u32, 40u32)), (1200, (100, 100))] {
        let image = banded(width, width / 3);
        let cropped = resize_cropped(&image, target, CropOrigin::Center, WHOLE);
        assert_eq!(cropped.dimensions(), target);
        assert!(
            all_pixels(&cropped, |p| p == [0, 255, 0]),
            "{width}px: the crop should hold the green band only, got {:?}",
            cropped.get_pixel(0, 0)
        );

        // Stretching instead keeps the red edges, which is the behaviour being opted out of.
        assert!(any_pixel(&resize_image(&image, target), |p| p[0] > 128));

        // Taken from the left instead, the same crop holds the red edge only.
        let left = resize_cropped(&image, target, CropOrigin::Left, WHOLE);
        assert!(
            all_pixels(&left, |p| p == [255, 0, 0]),
            "{width}px: the left crop should hold the red edge only, got {:?}",
            left.get_pixel(0, 0)
        );

        // And an explicit corner lands on the same pixels as the anchor that names it.
        let free = width - width / 3;
        assert_eq!(
            resize_cropped(&image, target, CropOrigin::At { x: free, y: 0 }, WHOLE),
            resize_cropped(&image, target, CropOrigin::Right, WHOLE)
        );
    }
}

#[test]
fn cropping_and_orientation_together_leave_a_photo_undistorted() {
    // A 3:4 portrait photo: the transpose alone would still stretch it to 2:3.
    let photo = photo_from(1200, 1600, |x, y| [(x / 8) as u8, (y / 8) as u8, 60]);
    let fit = FitOptions { keep_orientation: true, crop: true, ..Default::default() };

    let out = resize_to_fit(&photo, DISPLAY_IMAGE_SIZE, fit);
    assert_eq!(out.dimensions(), (400, 600));

    // 3:4 is taller than the 2:3 it is going into, so the crop comes off the width.
    assert_eq!(cover_rect(photo.dimensions(), (400, 600), CropOrigin::Center, WHOLE), (67, 0, 1066, 1600));
}

#[test]
fn a_preset_follows_the_photo_when_the_orientation_is_kept() {
    let portrait = RgbImage::new(1200, 1600);
    let fit = FitOptions { keep_orientation: true, crop: true, ..Default::default() };

    // `iphone` is landscape, so a portrait photo dithers at the transpose of what it resolved to.
    let target = ratio_size(DISPLAY_IMAGE_SIZE, preset_ratio("iphone").expect("the preset exists"));
    assert_eq!(target, (533, 400));
    assert_eq!(resize_to_fit(&portrait, target, fit).dimensions(), (400, 533));

    // Turning the ratio over instead lands on the same size, so which end the transpose happens at does not matter.
    let turned = ratio_size(DISPLAY_IMAGE_SIZE, (3, 4));
    assert_eq!(turned, (400, 533));

    // And a portrait photo against a portrait preset is already the right way round.
    let story = ratio_size(DISPLAY_IMAGE_SIZE, preset_ratio("instagram-story").expect("the preset exists"));
    assert_eq!(resize_to_fit(&portrait, story, fit).dimensions(), story);
}

#[test]
fn resizes_to_the_requested_size() {
    let image = RgbImage::new(1200, 800);
    assert_eq!(resize_image(&image, DISPLAY_IMAGE_SIZE).dimensions(), DISPLAY_IMAGE_SIZE);
}

#[test]
fn resize_resizes_to_the_requested_size() {
    let image = RgbImage::new(1200, 800);
    assert_eq!(resize_image(&image, DISPLAY_IMAGE_SIZE).dimensions(), DISPLAY_IMAGE_SIZE);
}

#[test]
fn a_photo_scaled_by_nearest_repeats_each_pixel() {
    let image = photo_from(2, 1, |x, _| if x == 0 { [1, 2, 3] } else { [7, 8, 9] });
    let scaled = scale_nearest(&image, 2);
    assert_eq!(scaled.dimensions(), (4, 2));
    assert_eq!(scaled.get_pixel(1, 1), [1, 2, 3]);
    assert_eq!(scaled.get_pixel(2, 0), [7, 8, 9]);
    // A factor of one hands the photo straight back.
    assert_eq!(scale_nearest(&image, 1), image);
}
