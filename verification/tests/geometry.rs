use dither::geometry::{CropOrigin, DISPLAY_IMAGE_SIZE, FitOptions, cover_rect, fitted_rect, fitted_size, orient_target};
use dither::presets::{RATIO_PRESETS, preset_names, preset_ratio, working_size};
use dither::{DISPLAY_PANEL_SIZE, ratio_inside, ratio_size};

/// The bit pattern of a zoom of 1.0.
const WHOLE: u64 = 0x3FF0_0000_0000_0000;
/// The bit pattern of a zoom of 2.0.
const TWICE: u64 = 0x4000_0000_0000_0000;

#[test]
fn orienting_only_transposes_a_target_that_disagrees() {
    // Portrait photo, landscape target: transposed.
    assert_eq!(orient_target((3456, 5184), DISPLAY_IMAGE_SIZE), (400, 600));
    // Landscape photo, landscape target: left alone.
    assert_eq!(orient_target((5184, 3456), DISPLAY_IMAGE_SIZE), DISPLAY_IMAGE_SIZE);
    // And the same against a portrait target.
    assert_eq!(orient_target((3456, 5184), (400, 600)), (400, 600));
    assert_eq!(orient_target((5184, 3456), (400, 600)), DISPLAY_IMAGE_SIZE);
    // A square photo counts as landscape.
    assert_eq!(orient_target((1000, 1000), DISPLAY_IMAGE_SIZE), DISPLAY_IMAGE_SIZE);
}

#[test]
fn the_cover_rect_is_centred_and_matches_the_target_ratio() {
    let centre = CropOrigin::Center;
    // A 2:3 photo against the 3:2 working size: the height comes off.
    assert_eq!(cover_rect((3456, 5184), DISPLAY_IMAGE_SIZE, centre, WHOLE), (0, 1440, 3456, 2304));
    // A 3:2 photo against the 2:3 panel: the width comes off.
    assert_eq!(cover_rect((5184, 3456), (400, 600), centre, WHOLE), (1440, 0, 2304, 3456));
    // A photo that already matches keeps every pixel.
    assert_eq!(cover_rect((1200, 800), DISPLAY_IMAGE_SIZE, centre, WHOLE), (0, 0, 1200, 800));

    // Whatever the pair or the origin, the kept rectangle is inside the photo and holds the target's ratio to within
    // a pixel.
    for source in [(3456, 5184), (8256, 5504), (1000, 1000), (1201, 801), (37, 4000)] {
        for target in [DISPLAY_IMAGE_SIZE, (400, 600), (100, 100)] {
            for origin in [
                centre,
                CropOrigin::Top,
                CropOrigin::Bottom,
                CropOrigin::Left,
                CropOrigin::Right,
                CropOrigin::At { x: 9999, y: 9999 },
            ] {
                let (x, y, w, h) = cover_rect(source, target, origin, WHOLE);
                assert!(x + w <= source.0 && y + h <= source.1, "{source:?} -> {target:?} from {origin:?} escapes");
                let drift = (u64::from(w) * u64::from(target.1)).abs_diff(u64::from(h) * u64::from(target.0));
                assert!(
                    drift <= u64::from(target.0).max(u64::from(target.1)),
                    "{source:?} -> {target:?} kept {w}x{h}, off ratio"
                );
            }
        }
    }
}

#[test]
fn an_anchor_slides_the_largest_rectangle_along_the_axis_that_has_slack() {
    // A 2:3 photo against the 3:2 working size keeps 3456x2304, so 2880 rows are free.
    let source = (3456, 5184);
    let size = (3456, 2304);
    for (origin, expected) in [
        (CropOrigin::Center, (0, 1440)),
        (CropOrigin::Top, (0, 0)),
        (CropOrigin::Bottom, (0, 2880)),
        // The width has no slack, so a sideways anchor moves nothing.
        (CropOrigin::Left, (0, 1440)),
        (CropOrigin::Right, (0, 1440)),
    ] {
        let (x, y, w, h) = cover_rect(source, DISPLAY_IMAGE_SIZE, origin, WHOLE);
        assert_eq!(((x, y), (w, h)), (expected, size), "{origin:?} landed wrong");
    }

    // Turn the photo over and the free axis turns with it.
    assert_eq!(cover_rect((5184, 3456), (400, 600), CropOrigin::Left, WHOLE).0, 0);
    assert_eq!(cover_rect((5184, 3456), (400, 600), CropOrigin::Right, WHOLE).0, 2880);
    assert_eq!(cover_rect((5184, 3456), (400, 600), CropOrigin::Top, WHOLE).0, 1440);
}

#[test]
fn a_corner_is_kept_and_the_rectangle_takes_what_is_left_of_the_photo() {
    // The case an anchor cannot express: a 3:4 photo into 9:16 keeps the full height, so no anchor drops the top.
    let source = (1536, 2048);
    let story = (1080, 1920);
    assert_eq!(cover_rect(source, story, CropOrigin::Top, WHOLE), (192, 0, 1152, 2048));

    // The corner is honoured, and 1848 rows are left below it to fit a 9:16 rectangle into.
    assert_eq!(cover_rect(source, story, CropOrigin::At { x: 0, y: 200 }, WHOLE), (0, 200, 1039, 1848));
    // Which is the point: the top 200 rows are gone, whatever the photo's shape.
    for source in [(1536, 2048), (3456, 5184), (4000, 4000), (5184, 3456)] {
        let (x, y, ..) = cover_rect(source, story, CropOrigin::At { x: 0, y: 200 }, WHOLE);
        assert_eq!((x, y), (0, 200), "{source:?} moved the corner");
    }

    // A corner has to leave at least one pixel, however far past the edge it points.
    assert_eq!(cover_rect(source, story, CropOrigin::At { x: 99999, y: 99999 }, WHOLE), (1535, 2047, 1, 1));

    // And the zoom shrinks whatever the corner left, from the corner.
    assert_eq!(cover_rect(source, story, CropOrigin::At { x: 0, y: 200 }, TWICE), (0, 200, 520, 924));
}

#[test]
fn a_zoom_shrinks_the_rectangle_and_frees_an_anchor_on_both_axes() {
    let source = (1536, 2048);
    let story = (1080, 1920);

    // A zoom is a proportional shrink, and anything under 1.0 is the whole rectangle.
    for (zoom, expected) in [(1.0f32, 1152), (1.5, 768), (4.0, 288), (0.5, 1152), (f32::NAN, 1152)] {
        let bits = f64::from(zoom).to_bits();
        assert_eq!(cover_rect(source, story, CropOrigin::Center, bits).2, expected, "zoom {zoom} kept the wrong width");
    }

    // Shrunk, the rectangle no longer touches the top and bottom, so a vertical anchor has somewhere to go.
    let (x, y, w, h) = cover_rect(source, story, CropOrigin::Top, TWICE);
    assert_eq!((x, y, w, h), (480, 0, 576, 1024));
    assert_eq!(cover_rect(source, story, CropOrigin::Bottom, TWICE), (480, 1024, 576, 1024));

    // Both sides shrank by the same factor, so the ratio still holds.
    let drift = (u64::from(w) * u64::from(story.1)).abs_diff(u64::from(h) * u64::from(story.0));
    assert!(drift <= u64::from(story.1), "{w}x{h} drifted off 9:16");
}

#[test]
fn an_origin_writes_back_what_it_reads() {
    for origin in [
        CropOrigin::Center,
        CropOrigin::Top,
        CropOrigin::Bottom,
        CropOrigin::Left,
        CropOrigin::Right,
        CropOrigin::At { x: 12, y: 340 },
    ] {
        assert_eq!(CropOrigin::parse(&origin.to_string()), Ok(origin));
    }

    assert_eq!(CropOrigin::parse("  120 , 340 "), Ok(CropOrigin::At { x: 120, y: 340 }));
    assert_eq!(CropOrigin::default(), CropOrigin::Center);
    for bad in ["middle", "120", "120,", "-1,4", "1,2,3"] {
        assert!(CropOrigin::parse(bad).is_err(), "`{bad}` should not parse");
    }
}

#[test]
fn an_unknown_origin_names_the_ones_that_work() {
    let message = CropOrigin::parse("middle").expect_err("`middle` is not an origin");
    assert!(message.contains("center"), "{message}");
    assert_eq!(CropOrigin::At { x: 0, y: 200 }.to_string(), "0,200");
    assert_eq!(CropOrigin::Bottom.to_string(), "bottom");
}

#[test]
fn every_preset_names_one_usable_ratio() {
    for (name, (width, height)) in RATIO_PRESETS {
        assert!(width > 0 && height > 0, "{name} has a zero side");
        assert_eq!(preset_ratio(name), Some((width, height)));
        // One name per table entry, so a lookup is never ambiguous.
        assert_eq!(RATIO_PRESETS.iter().filter(|(other, _)| *other == name).count(), 1, "{name} appears twice");
    }

    assert_eq!(preset_ratio("panel"), Some((3, 2)));
    assert_eq!(preset_ratio("instagram-story"), Some((9, 16)));
    assert_eq!(preset_ratio("instagram-reel"), None);
    assert_eq!(preset_names().len(), RATIO_PRESETS.len());
}

#[test]
fn resize_a_preset_reshapes_the_working_size_rather_than_replacing_it() {
    // The shape comes from the preset, the scale from the size it is fitted inside.
    let sized = |name: &str, bounds| ratio_size(bounds, preset_ratio(name).expect("the preset exists"));
    for (name, expected) in [
        ("panel", DISPLAY_IMAGE_SIZE),
        ("panel-portrait", DISPLAY_PANEL_SIZE),
        ("instagram-post", (400, 400)),
        ("instagram-portrait", (400, 500)),
        ("instagram-landscape", (600, 314)),
        ("instagram-story", (337, 600)),
        ("iphone", (533, 400)),
    ] {
        assert_eq!(sized(name, DISPLAY_IMAGE_SIZE), expected, "{name} landed wrong");
    }

    // The same names against a larger working size cost more pixels and keep their shape.
    assert_eq!(sized("instagram-story", (1080, 1080)), (607, 1080));
    assert_eq!(sized("iphone", (1080, 1080)), (1080, 810));

    // Whatever the pair, the result is inside the bounds it was given, or inside their transpose when the ratio
    // turned them over.
    for bounds in [(600, 400), (1080, 1080), (37, 4000), (4096, 2160), (1, 1)] {
        for (name, ratio) in RATIO_PRESETS {
            let (width, height) = ratio_size(bounds, ratio);
            let room = orient_target(ratio, bounds);
            assert!(
                width <= room.0 && height <= room.1 && width > 0 && height > 0,
                "{name} in {bounds:?} gave {width}x{height}"
            );
        }
    }

    // Nothing to fit leaves the bounds alone rather than collapsing them.
    assert_eq!(ratio_size((600, 400), (0, 3)), (600, 400));
    assert_eq!(ratio_size((0, 400), (3, 2)), (0, 400));
}

#[test]
fn without_a_size_a_preset_cuts_the_photo_itself() {
    // A photo is already in its own orientation, so the preset is cut out of it as it stands.
    assert_eq!(ratio_inside((1536, 2048), (9, 16)), (1152, 2048));
    assert_eq!(working_size((1536, 2048), None, Some((9, 16))), (1152, 2048));
    // A size reshaped by a preset, a size alone, and neither.
    assert_eq!(working_size((1536, 2048), Some((600, 400)), Some((9, 16))), (337, 600));
    assert_eq!(working_size((1536, 2048), Some((600, 400)), None), (600, 400));
    assert_eq!(working_size((1536, 2048), None, None), (1536, 2048));
}

#[test]
fn the_reported_rect_follows_the_transposed_size() {
    let target = (100, 100);
    let fit = FitOptions { crop: true, crop_from: CropOrigin::At { x: 0, y: 0 }, crop_zoom: TWICE, ..Default::default() };
    assert_eq!(fitted_rect((400, 400), target, fit), (0, 0, 200, 200));
    assert_eq!(fitted_size((400, 400), target, fit), target);
    assert_eq!(fitted_rect((400, 400), target, FitOptions::default()), (0, 0, 400, 400));

    let fit = FitOptions { keep_orientation: true, crop: true, ..Default::default() };
    assert_eq!(fitted_size((400, 800), DISPLAY_IMAGE_SIZE, fit), (400, 600));
    assert_eq!(fitted_rect((400, 800), DISPLAY_IMAGE_SIZE, fit), (0, 100, 400, 600));
}
