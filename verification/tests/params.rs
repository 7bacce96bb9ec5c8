use dither::geometry::{CropOrigin, DISPLAY_IMAGE_SIZE, FitOptions};
use dither::names::Method;
use dither::params::{DitherParams, MAX_DIMENSION, ParamError, Resize, Setting};
use dither::presets::Preset;
use dither::{DISPLAY_PANEL_SIZE, DitherOptions};

/// The bit pattern a double travels as.
fn bits(value: f64) -> u64 {
    value.to_bits()
}

#[test]
fn defaults_match_the_pipeline() {
    let options = DitherParams::default().to_options().expect("defaults are valid");
    assert_eq!(options, Some(DitherOptions::default()));
}

#[test]
fn the_default_options_are_the_documented_values() {
    let options = DitherOptions::default();
    assert_eq!(f64::from_bits(options.saturation), 0.6);
    assert_eq!(f64::from_bits(options.brightness_factor), 1.1);
    assert_eq!(f64::from_bits(options.color_factor), 1.4);
    assert_eq!(f64::from_bits(options.threshold_scale), 1.0);
}

#[test]
fn method_none_asks_for_the_resize_alone() {
    let params = DitherParams { method: Method::NoDither, ..Default::default() };
    assert_eq!(params.to_options().expect("still valid"), None);
    assert_eq!(Method::NoDither.dither(), None);

    // The palette settings are still checked, so a typo is caught whichever method is running.
    let bad = DitherParams { saturation: bits(9.0), ..params };
    assert!(bad.to_options().is_err());

    // Every other method has one.
    for method in Method::ALL.iter().filter(|m| **m != Method::NoDither) {
        assert!(method.dither().is_some(), "{method:?} should name a dither");
    }
}

#[test]
fn out_of_range_values_are_rejected() {
    let bad = [
        DitherParams { saturation: bits(1.5), ..Default::default() },
        DitherParams { bayer_size: 3, ..Default::default() },
        DitherParams { width: 0, ..Default::default() },
        DitherParams { scale: 9, ..Default::default() },
        DitherParams { brightness: bits(f64::NAN), ..Default::default() },
    ];
    for params in bad {
        assert!(params.to_options().is_err(), "{params:?} should be rejected");
    }
}

fn range(setting: Setting) -> Result<Option<DitherOptions>, ParamError> {
    Err(ParamError::OutOfRange(setting))
}

#[test]
fn each_refusal_names_the_first_setting_out_of_range() {
    assert_eq!(DitherParams { saturation: bits(-0.1), ..Default::default() }.to_options(), range(Setting::Saturation));
    assert_eq!(DitherParams { brightness: bits(5.5), ..Default::default() }.to_options(), range(Setting::Brightness));
    assert_eq!(DitherParams { color: bits(f64::INFINITY), ..Default::default() }.to_options(), range(Setting::Color));
    assert_eq!(
        DitherParams { threshold_scale: bits(-1.0), ..Default::default() }.to_options(),
        range(Setting::ThresholdScale)
    );
    assert_eq!(DitherParams { bayer_size: 16, ..Default::default() }.to_options(), range(Setting::BayerSize));
    assert_eq!(DitherParams { width: 4097, ..Default::default() }.to_options(), range(Setting::Width));
    assert_eq!(DitherParams { height: 0, ..Default::default() }.to_options(), range(Setting::Height));
    assert_eq!(
        DitherParams { resize: Resize::Factor(bits(1.5)), ..Default::default() }.to_options(),
        range(Setting::Resize)
    );
    assert_eq!(
        DitherParams { crop: true, crop_zoom: Some(bits(11.0)), ..Default::default() }.to_options(),
        range(Setting::CropZoom)
    );
    assert_eq!(DitherParams { scale: 0, ..Default::default() }.to_options(), range(Setting::Scale));
    assert_eq!(
        DitherParams { crop_from: Some(CropOrigin::Top), ..Default::default() }.to_options(),
        Err(ParamError::NeedsCrop(Setting::CropFrom))
    );

    // Two settings out of range: the earlier one is named.
    assert_eq!(
        DitherParams { color: bits(9.0), scale: 9, ..Default::default() }.to_options(),
        range(Setting::Color)
    );
    assert_eq!(Setting::ThresholdScale.name(), "threshold_scale");
    assert_eq!(Setting::CropZoom.name(), "crop_zoom");
}

#[test]
fn the_ends_of_each_range_are_accepted() {
    for value in [0.0, -0.0, 1.0] {
        assert!(DitherParams { saturation: bits(value), ..Default::default() }.to_options().is_ok(), "{value}");
    }
    for value in [0.0, 5.0, 2.5e-300] {
        assert!(DitherParams { brightness: bits(value), ..Default::default() }.to_options().is_ok(), "{value}");
    }
    assert!(DitherParams { brightness: bits(5.000000000000001), ..Default::default() }.to_options().is_err());
    assert!(DitherParams { width: MAX_DIMENSION, height: 1, ..Default::default() }.to_options().is_ok());
}

#[test]
fn every_preset_resolves_inside_the_dimension_limit() {
    for preset in Preset::ALL {
        let (width, height) = preset.ratio();
        assert!(width > 0 && height > 0, "{} has a zero side", preset.name());

        // Whatever the ratio, what it resolves to is inside what `width` and `height` already had checked, so a
        // preset can never carry a request past the dimension limit.
        let params = DitherParams { preset: Some(preset), width: MAX_DIMENSION, height: MAX_DIMENSION, ..Default::default() };
        let (width, height) = params.working_size().expect("resize is on");
        assert!(
            (1..=MAX_DIMENSION).contains(&width) && (1..=MAX_DIMENSION).contains(&height),
            "{} is {width}x{height}, outside what the API accepts",
            preset.name()
        );

        // The name the query string uses is the one the pipeline's table is keyed by, and it reads back.
        assert_eq!(Preset::from_name(preset.name()), Some(preset));
    }

    assert_eq!(Preset::InstagramStory.ratio(), (9, 16));
    assert_eq!(Preset::Panel.ratio(), (3, 2));
    assert_eq!(Preset::from_name("instagram-reel"), None);
}

#[test]
fn a_preset_reshapes_width_and_height_rather_than_replacing_them() {
    let params = DitherParams { preset: Some(Preset::InstagramPortrait), width: 320, height: 240, ..Default::default() };
    // 4:5 turns the pair over and then fits inside it, so the scale is still the one that was asked for.
    assert_eq!(params.working_size(), Some((240, 300)));

    // Without one, the pair is used as it was sent.
    assert_eq!(DitherParams { preset: None, ..params }.working_size(), Some((320, 240)));

    // The panel entries against the default pair land on the layouts the buffer endpoint packs.
    let panel = |preset| DitherParams { preset: Some(preset), ..Default::default() }.working_size();
    assert_eq!(panel(Preset::Panel), Some(DISPLAY_IMAGE_SIZE));
    assert_eq!(panel(Preset::PanelPortrait), Some(DISPLAY_PANEL_SIZE));

    // And a bigger pair buys more pixels of the same shape.
    let bigger = DitherParams { preset: Some(Preset::InstagramStory), width: 1080, height: 1080, ..Default::default() };
    assert_eq!(bigger.working_size(), Some((607, 1080)));
}

#[test]
fn the_fitting_flags_reach_the_pipeline() {
    let params = DitherParams::default();
    assert_eq!(params.working_size(), Some((600, 400)));
    assert_eq!(params.fit(), FitOptions::default());

    let params = DitherParams {
        keep_orientation: true,
        crop: true,
        crop_from: Some(CropOrigin::At { x: 40, y: 90 }),
        crop_zoom: Some(bits(2.5)),
        ..Default::default()
    };
    assert_eq!(
        params.fit(),
        FitOptions { keep_orientation: true, crop: true, crop_from: CropOrigin::At { x: 40, y: 90 }, crop_zoom: bits(2.5) }
    );

    // Unset, the crop falls back to the middle at full size rather than to nothing.
    let params = DitherParams { crop_from: None, crop_zoom: None, ..params };
    assert_eq!(params.fit().crop_from, CropOrigin::Center);
    assert_eq!(params.fit().crop_zoom, bits(1.0));

    // Anything but `resize=true` drops the working size, and the framing then works off the shape alone.
    for resize in [Resize::Keep, Resize::Factor(bits(0.75))] {
        let params = DitherParams { resize, ..params };
        assert_eq!(params.working_size(), None);
        assert_eq!(params.working_ratio(), (600, 400));
    }
    assert_eq!(Resize::Factor(bits(0.75)).factor(), Some(bits(0.75)));
    assert_eq!(Resize::Fit.factor(), None);
}

#[test]
fn a_crop_setting_without_the_crop_is_refused_rather_than_ignored() {
    let alone = [
        DitherParams { crop_from: Some(CropOrigin::Top), ..Default::default() },
        DitherParams { crop_zoom: Some(bits(2.0)), ..Default::default() },
    ];

    for params in alone {
        assert!(params.to_options().is_err(), "{params:?} should be refused");
        // The same setting with the crop on is fine.
        assert!(DitherParams { crop: true, ..params }.to_options().is_ok());
    }

    // And neither is fine too.
    assert!(DitherParams::default().to_options().is_ok());
}

#[test]
fn the_crop_zoom_range_is_checked() {
    let zoomed = |zoom: f64| DitherParams { crop: true, crop_zoom: Some(bits(zoom)), ..Default::default() }.to_options();

    assert!(zoomed(1.0).is_ok());
    assert!(zoomed(10.0).is_ok());
    // Under 1.0 there is nothing left inside the photo to keep, and past the cap it is a stamp being blown up.
    for bad in [0.9, 0.0, -1.0, 10.0 + 0.1, f64::NAN] {
        assert!(zoomed(bad).is_err(), "crop_zoom {bad} should be refused");
    }
}

#[test]
fn a_resize_fraction_must_be_above_zero_and_at_most_one() {
    let resized = |fraction: f64| DitherParams { resize: Resize::Factor(bits(fraction)), ..Default::default() }.to_options();
    for good in [0.75, 1.0, 1e-300] {
        assert!(resized(good).is_ok(), "resize {good} should be accepted");
    }
    for bad in [0.0, -0.0, -0.5, 1.5, f64::NAN, f64::INFINITY] {
        assert!(resized(bad).is_err(), "resize {bad} should be refused");
    }
}

#[test]
fn every_preset_names_a_ratio_the_api_can_serve() {
    for preset in Preset::ALL {
        let (width, height) = preset.ratio();
        assert!(width > 0 && height > 0, "{} has a zero side", preset.name());

        // Whatever the ratio, what it resolves to is inside what `width` and `height` already had checked, so a
        // preset can never carry a request past the dimension limit.
        let params = DitherParams { preset: Some(preset), width: MAX_DIMENSION, height: MAX_DIMENSION, ..Default::default() };
        let (width, height) = params.working_size().expect("resize is on");
        assert!(
            (1..=MAX_DIMENSION).contains(&width) && (1..=MAX_DIMENSION).contains(&height),
            "{} is {width}x{height}, outside what the API accepts",
            preset.name()
        );

        // The name the query string uses is the one the pipeline's table is keyed by, and it reads back, so the
        // `presets` listing can never advertise a name the endpoints refuse.
        assert_eq!(Preset::from_name(preset.name()), Some(preset));
    }

    assert_eq!(Preset::InstagramStory.ratio(), (9, 16));
    assert_eq!(Preset::Panel.ratio(), (3, 2));
}
