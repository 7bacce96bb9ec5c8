use dither::binary64::{is_between, is_positive_at_most, magnitude_ge, magnitude_le};
use dither::geometry::CropOrigin;
use dither::names::{Anchor, Format, Method};
use dither::samples::{labelled, photographer, url};
use dither::DitherMethod;

#[test]
fn a_photographer_survives_the_shelf_marks_around_them() {
    assert_eq!(photographer("pexels-thales13-33322524.jpg"), "thales13");
    assert_eq!(photographer("pexels-mark-theunissen-2157442753-34724738.jpg"), "mark-theunissen");
    assert_eq!(photographer("pexels-juju-649563-29285223.jpg"), "juju");
    // Nothing to strip, and nothing left if everything were stripped.
    assert_eq!(photographer("beach.png"), "beach");
    assert_eq!(photographer("pexels-12345.jpg"), "12345");
}

#[test]
fn only_the_last_dot_ends_the_stem() {
    assert_eq!(photographer("pexels-a.b-77.jpeg"), "a.b");
    assert_eq!(photographer("no-extension-12"), "no-extension");
    assert_eq!(photographer("trailing-dash-.png"), "trailing-dash");
}

#[test]
fn a_sample_lives_under_samples() {
    assert_eq!(url("beach.png"), "samples/beach.png");
}

#[test]
fn a_repeated_photographer_is_numbered() {
    let files = [
        "pexels-juju-649563-29285223.jpg",
        "pexels-mark-theunissen-2157442753-34724738.jpg",
        "pexels-juju-1-2.jpg",
        "beach.png",
    ];
    let labels = labelled(&files);
    let expected = [
        ("pexels-juju-649563-29285223.jpg", "juju 1"),
        ("pexels-mark-theunissen-2157442753-34724738.jpg", "mark theunissen"),
        ("pexels-juju-1-2.jpg", "juju 2"),
        ("beach.png", "beach"),
    ];
    assert_eq!(labels.len(), expected.len());
    for ((file, label), (want_file, want_label)) in labels.iter().zip(expected) {
        assert_eq!(*file, want_file);
        assert_eq!(label, want_label);
    }
    let none: [&str; 0] = [];
    assert!(labelled(&none).is_empty());
}

#[test]
fn method_names_read_back() {
    for method in Method::ALL {
        assert_eq!(Method::parse(method.slug()), Some(method));
        assert_eq!(Method::from_slug(method.slug()), method);
    }
    assert_eq!(Method::parse("floyd_steinberg"), Some(Method::FloydSteinberg));
    assert_eq!(Method::parse("sierra"), None);
    assert_eq!(Method::from_slug("sierra"), Method::FloydSteinberg);
    assert_eq!(Method::NoDither.slug(), "none");
    assert_eq!(Method::Jarvis.label(), "Jarvis-Judice-Ninke");
    assert!(Method::Ordered.is_ordered());
    assert!(!Method::Atkinson.is_ordered());
    assert_eq!(Method::Ordered.dither(), Some(DitherMethod::Ordered));
    match Method::Stucki.dither() {
        Some(DitherMethod::ErrorDiffusion(kernel)) => assert_eq!(kernel.name, "stucki"),
        other => panic!("stucki dithered as {other:?}"),
    }
}

#[test]
fn anchors_and_formats_read_back() {
    for anchor in Anchor::all() {
        assert_eq!(Anchor::from_slug(anchor.slug()), anchor);
    }
    assert_eq!(Anchor::from_slug("middle"), Anchor(CropOrigin::Center));
    assert_eq!(Anchor(CropOrigin::At { x: 1, y: 2 }).slug(), "center");
    assert_eq!(Anchor(CropOrigin::Left).label(), "Left");
    assert_eq!(Format::parse(Format::Rgb.name()), Some(Format::Rgb));
    assert_eq!(Format::parse("indexed"), Some(Format::Indexed));
    assert_eq!(Format::parse("gif"), None);
}

#[test]
fn a_double_is_placed_exactly_against_whole_numbers() {
    let bits = |value: f64| value.to_bits();
    assert!(is_between(bits(1.0), 0, 1));
    assert!(!is_between(bits(1.0000000000000002), 0, 1));
    assert!(is_between(bits(-0.0), 0, 1));
    assert!(!is_between(bits(-0.0), 1, 10));
    assert!(!is_between(bits(-1e-300), 0, 1));
    assert!(is_between(bits(5e-324), 0, 1));
    assert!(!is_between(bits(f64::NAN), 0, 5));
    assert!(!is_between(bits(f64::INFINITY), 0, 5));
    assert!(is_between(bits(10.0), 1, 10));
    assert!(!is_between(bits(0.9999999999999999), 1, 10));
    assert!(is_positive_at_most(bits(1e-300), 1));
    assert!(!is_positive_at_most(bits(0.0), 1));
    assert!(magnitude_le(bits(-3.0), 3));
    assert!(magnitude_ge(bits(1e20), 4000));
    assert!(!magnitude_le(bits(4.5e15), 4000));
}

