use dither::io::{IoError, decode_rgb, describe, encode_indexed_png, encode_rgb_png};
use dither::palette::{PURE_PALETTE, Palette};
use dither::params::Resize;
use dither::pipeline::{Output, decode, fit_photo, fitted_photo_dimensions, frame, parse_size, to_rgba};
use dither::params::DitherParams;
use dither::presets::Preset;
use dither::samples::file_stem;
use dither::geometry::{CropOrigin, FitOptions};
use dither::{IndexedImage, RgbImage};

fn photo_from(width: u32, height: u32, pixel: impl Fn(u32, u32) -> [u8; 3]) -> RgbImage {
    let mut data = Vec::new();
    for y in 0..height {
        for x in 0..width {
            data.extend_from_slice(&pixel(x, y));
        }
    }
    RgbImage::from_raw(width, height, data).expect("the buffer matches the size")
}

#[test]
fn an_rgb_png_decodes_back_to_the_same_pixels() {
    let photo = photo_from(5, 3, |x, y| [x as u8 * 40, y as u8 * 70, 200]);
    let png = encode_rgb_png(&photo).expect("a non-empty image encodes");
    assert_eq!(&png[..8], &[137, 80, 78, 71, 13, 10, 26, 10], "a PNG signature");
    let decoded = decode_rgb(&png).expect("what was written reads back");
    assert_eq!(decoded, photo);
    assert_eq!(decode(&png).expect("the same through the pipeline"), photo);
}

#[test]
fn an_indexed_png_carries_the_palette_and_the_slots() {
    let slots = IndexedImage::new(3, 2, vec![0, 1, 2, 3, 4, 5], Palette::from_colors(PURE_PALETTE)).expect("six slots");
    let png = encode_indexed_png(&slots).expect("a non-empty image encodes");
    // Decoded back by the image crate, each slot comes out as its palette colour.
    let decoded = decode_rgb(&png).expect("an indexed PNG reads back");
    assert_eq!(decoded.dimensions(), (3, 2));
    for (i, color) in PURE_PALETTE.iter().enumerate() {
        assert_eq!(decoded.get_pixel(i as u32 % 3, i as u32 / 3), *color);
    }
}

#[test]
fn bytes_that_are_no_image_fail_to_decode() {
    let error = decode_rgb(b"not an image at all").expect_err("garbage is refused");
    assert!(matches!(error, IoError::Decode(_)));
    assert!(describe(&error).starts_with("could not decode image: "), "{}", describe(&error));
}

#[test]
fn an_empty_image_is_refused_by_both_encoders() {
    let empty = RgbImage::new(0, 4);
    let error = encode_rgb_png(&empty).expect_err("a zero side is refused");
    assert!(matches!(error, IoError::Decode(_)));
    let slots = IndexedImage::new(0, 4, Vec::new(), Palette::from_colors(PURE_PALETTE)).expect("no slots for no pixels");
    let error = encode_indexed_png(&slots).expect_err("a zero side is refused");
    assert!(matches!(error, IoError::Encode(_)));
    assert!(describe(&error).starts_with("could not encode PNG: "), "{}", describe(&error));
    assert!(Output::Rgb(empty).encode_png().is_err());
}

#[test]
fn the_resize_mode_picks_the_stage_one_function() {
    let photo = photo_from(100, 200, |x, y| [x as u8, (y / 2) as u8, 60]);
    let crop = FitOptions { crop: true, crop_from: CropOrigin::At { x: 0, y: 20 }, ..Default::default() };

    // Scaled to the working size.
    assert_eq!(fit_photo(&photo, (30, 40), FitOptions::default(), Resize::Fit).dimensions(), (30, 40));
    // A fraction of what the framing kept.
    let half = Resize::Factor(0.5f64.to_bits());
    assert_eq!(fit_photo(&photo, (600, 400), FitOptions::default(), half).dimensions(), (50, 100));
    // Kept at its own resolution: framed when asked to, untouched otherwise.
    let kept = fit_photo(&photo, (1, 1), crop, Resize::Keep);
    assert_eq!(kept.dimensions(), (100, 100));
    assert_eq!(kept.get_pixel(3, 4), photo.get_pixel(3, 24));
    assert_eq!(fit_photo(&photo, (1, 1), FitOptions::default(), Resize::Keep), photo);
}

#[test]
fn a_frame_shows_the_palette_colours_fully_opaque() {
    let slots = IndexedImage::new(2, 1, vec![4, 2], Palette::from_colors(PURE_PALETTE)).expect("two slots");
    let shown = frame(Output::Indexed(slots));
    assert_eq!((shown.width, shown.height), (2, 1));
    assert_eq!(shown.rgba, vec![255, 0, 0, 255, 0, 255, 0, 255]);
    assert_eq!(shown.output.suffix(), "dithered");

    let photo = photo_from(1, 2, |_, y| [y as u8, 9, 8]);
    assert_eq!(to_rgba(&photo), vec![0, 9, 8, 255, 1, 9, 8, 255]);
    let shown = frame(Output::Rgb(photo));
    assert_eq!(shown.output.suffix(), "resized");
    assert_eq!(shown.output.dimensions(), (1, 2));
}

#[test]
fn scaling_an_output_repeats_its_pixels() {
    let slots = IndexedImage::new(2, 1, vec![1, 3], Palette::from_colors(PURE_PALETTE)).expect("two slots");
    match Output::Indexed(slots).scaled(3) {
        Output::Indexed(scaled) => {
            assert_eq!(scaled.size(), (6, 3));
            assert_eq!(&scaled.indices()[..6], &[1, 1, 1, 3, 3, 3]);
        },
        Output::Rgb(_) => panic!("a dither stays a dither"),
    }
    let photo = photo_from(1, 1, |_, _| [5, 6, 7]);
    match Output::Rgb(photo).scaled(1) {
        Output::Rgb(same) => assert_eq!(same.as_raw(), &[5, 6, 7]),
        Output::Indexed(_) => panic!("a photo stays a photo"),
    }
}

#[test]
fn a_size_reads_as_width_by_height() {
    assert_eq!(parse_size("600x400"), Ok((600, 400)));
    assert_eq!(parse_size(" 1080 X 1920 "), Ok((1080, 1920)));
    assert_eq!(parse_size("600*400"), Err("expected WIDTHxHEIGHT, got `600*400`".to_string()));
    assert_eq!(parse_size("wide x 400"), Err("bad width `wide `".to_string()));
    assert_eq!(parse_size("600x"), Err("bad height ``".to_string()));
    assert_eq!(parse_size("0x400"), Err("width and height must be non-zero".to_string()));
    assert_eq!(parse_size("600x400x2"), Err("bad height `400x2`".to_string()));
}

#[test]
fn a_story_crop_three_ways() {
    // A 1536x2048 photo framed 9:16: kept at its own resolution it is the largest 9:16 rectangle actually in the photo,
    // under a fraction it is that much of each side, and scaled it is the preset fitted inside the working size.
    let photo = RgbImage::new(1536, 2048);
    let params = DitherParams { preset: Some(Preset::InstagramStory), crop: true, ..Default::default() };
    let fit = params.fit();
    assert_eq!(fit_photo(&photo, params.working_ratio(), fit, Resize::Keep).dimensions(), (1152, 2048));
    let three_quarters = Resize::Factor(0.75f64.to_bits());
    assert_eq!(fit_photo(&photo, params.working_ratio(), fit, three_quarters).dimensions(), (864, 1536));
    let size = params.working_size().expect("resize is on");
    assert_eq!(fit_photo(&photo, size, fit, Resize::Fit).dimensions(), (337, 600));
    assert_eq!(fitted_photo_dimensions(photo.dimensions(), size, fit, Resize::Fit), (337, 600));
}

#[test]
fn a_download_is_named_for_the_photo_and_what_became_of_it() {
    assert_eq!(file_stem("beach.jpg"), "beach");
    assert_eq!(file_stem("archive.tar.gz"), "archive.tar");
    assert_eq!(file_stem("README"), "README");
    let slots = IndexedImage::new(1, 1, vec![0], Palette::from_colors(PURE_PALETTE)).expect("one slot");
    assert_eq!(Output::Indexed(slots).file_name("beach"), "beach_dithered.png");
    assert_eq!(Output::Rgb(RgbImage::new(1, 1)).file_name("beach"), "beach_resized.png");
}
