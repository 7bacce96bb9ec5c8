use dither::BayerSize;
use dither::studio::{Notice, bayer_input, dimension_input, framing_note, other_samples, readout, scale_input};

#[test]
fn a_roll_never_lands_on_the_sample_on_screen() {
    assert_eq!(other_samples(4, Some(2)), vec![0, 1, 3]);
    assert_eq!(other_samples(4, None), vec![0, 1, 2, 3]);
    assert_eq!(other_samples(1, Some(0)), Vec::<usize>::new());
    assert_eq!(other_samples(0, None), Vec::<usize>::new());
    // A pick past the end leaves every sample in play.
    assert_eq!(other_samples(3, Some(7)), vec![0, 1, 2]);
}

#[test]
fn a_typed_scale_is_held_between_one_and_four() {
    assert_eq!(scale_input("3"), Some(3));
    assert_eq!(scale_input("0"), Some(1));
    assert_eq!(scale_input("9"), Some(4));
    assert_eq!(scale_input("+2"), Some(2));
    assert_eq!(scale_input(""), None);
    assert_eq!(scale_input("2.5"), None);
    assert_eq!(scale_input(" 2"), None);
    assert_eq!(scale_input("4294967296"), None);
}

#[test]
fn a_typed_side_is_held_to_what_the_pipeline_accepts() {
    assert_eq!(dimension_input("600"), Some(600));
    assert_eq!(dimension_input("0"), Some(1));
    assert_eq!(dimension_input("100000"), Some(4096));
    assert_eq!(dimension_input("-5"), None);
}

#[test]
fn the_bayer_dropdown_falls_back_to_four() {
    assert_eq!(bayer_input("2"), BayerSize::Two);
    assert_eq!(bayer_input("8"), BayerSize::Eight);
    assert_eq!(bayer_input("4"), BayerSize::Four);
    assert_eq!(bayer_input("16"), BayerSize::Four);
    assert_eq!(bayer_input("two"), BayerSize::Four);
}

#[test]
fn the_framing_note_says_which_way_the_size_is_ignored() {
    assert_eq!(framing_note(true, true), None);
    assert_eq!(framing_note(true, false), None);
    assert!(framing_note(false, true).unwrap().contains("the crop cuts that shape out"));
    assert!(framing_note(false, false).unwrap().contains("nothing is using them"));
}

#[test]
fn the_readout_gives_the_frame_size() {
    assert_eq!(readout(Some((1200, 800))), "1200 x 800 pixels");
    assert_eq!(readout(Some((0, 7))), "0 x 7 pixels");
    assert_eq!(readout(None), "no photo yet");
}

#[test]
fn each_notice_reads_as_a_sentence() {
    assert_eq!(Notice::Unreadable.text(), "that file could not be read");
    assert_eq!(
        Notice::Undecodable("could not decode image: bad".to_string()).text(),
        "that file did not decode: could not decode image: bad"
    );
    assert_eq!(Notice::SampleMissing("beach.jpg".to_string()).text(), "beach.jpg could not be loaded");
    assert_eq!(Notice::Unpainted("lost".to_string()).text(), "the preview did not paint: lost");
    assert_eq!(Notice::Unencodable("zero".to_string()).text(), "the PNG did not encode: zero");
    assert_eq!(Notice::Undownloaded("blocked".to_string()).text(), "the download did not start: blocked");
}
