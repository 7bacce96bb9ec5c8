use dither::bayer::{BayerSize, bayer_from_side, ranks};
use dither::display::{
    DISPLAY_PANEL_SIZE, Orientation, img2buffer, nearest_hardware_code, orientation_of, pack_for_panel, pack_indices,
    slot_to_hardware,
};
use dither::enhance::luma;
use dither::geometry::DISPLAY_IMAGE_SIZE;
use dither::kernel::{DitherMethod, atkinson, burkes, floyd_steinberg, jarvis_judice_ninke, kernels, stucki};
use dither::palette::{MUTED_PALETTE, PURE_PALETTE, Palette};
use dither::IndexedImage;

fn slots(width: u32, height: u32, indices: Vec<u8>) -> IndexedImage {
    IndexedImage::new(width, height, indices, Palette::from_colors(PURE_PALETTE)).expect("one slot per pixel")
}

#[test]
fn unsupported_sizes_fall_back_to_four() {
    assert_eq!(BayerSize::from_side_or_default(3), BayerSize::Four);
    assert_eq!(BayerSize::from_side_or_default(16), BayerSize::Four);
    assert_eq!(BayerSize::from_side_or_default(2), BayerSize::Two);
    assert_eq!(BayerSize::from_side_or_default(8), BayerSize::Eight);
}

#[test]
fn a_stored_side_reads_back_into_its_size() {
    for size in [BayerSize::Two, BayerSize::Four, BayerSize::Eight] {
        assert_eq!(bayer_from_side(size.side() as u32), size);
    }
    assert_eq!(bayer_from_side(0), BayerSize::Four);
    assert_eq!(BayerSize::default(), BayerSize::Four);
}

#[test]
fn the_rank_tables_are_permutations() {
    for size in [BayerSize::Two, BayerSize::Four, BayerSize::Eight] {
        let n = size.side();
        let mut table = ranks(size);
        assert_eq!(table.len(), n * n);
        table.sort_unstable();
        assert_eq!(table, (0..(n * n) as u8).collect::<Vec<_>>());
    }
    assert_eq!(ranks(BayerSize::Two), vec![0, 2, 3, 1]);
}

#[test]
fn kernels_only_push_error_forward() {
    for kernel in kernels() {
        for &(dx, dy, weight) in kernel.offsets {
            assert!(dy > 0 || (dy == 0 && dx > 0), "{} looks backwards", kernel.name);
            assert!(weight > 0, "{} has a non-positive weight", kernel.name);
        }
    }
}

#[test]
fn floyd_steinberg_weights_sum_to_its_divisor() {
    // Atkinson deliberately discards error, so it is excluded here.
    for kernel in [floyd_steinberg(), stucki(), burkes(), jarvis_judice_ninke()] {
        let total: i32 = kernel.offsets.iter().map(|(_, _, w)| w).sum();
        assert_eq!(total, kernel.divisor, "{} does not conserve error", kernel.name);
    }
    let atkinson = atkinson();
    let shed: i32 = atkinson.offsets.iter().map(|(_, _, w)| w).sum();
    assert!(shed < atkinson.divisor, "atkinson should shed error");
}

#[test]
fn a_settings_file_names_two_methods() {
    assert_eq!(DitherMethod::from_settings_name("ordered"), Some(DitherMethod::Ordered));
    assert_eq!(DitherMethod::from_settings_name("floyd_steinberg"), Some(DitherMethod::default()));
    assert_eq!(DitherMethod::from_settings_name("atkinson"), None);
    assert_eq!(DitherMethod::Ordered.settings_name(), "ordered");
    assert_eq!(DitherMethod::ErrorDiffusion(stucki()).settings_name(), "floyd_steinberg");
}

#[test]
fn hardware_table_never_emits_the_reserved_code() {
    let table = slot_to_hardware();
    assert!(table.iter().all(|&code| code != 4));
    assert_eq!(table[4], 0);
    assert_eq!(table[6], 6);
}

#[test]
fn packing_puts_the_first_pixel_in_the_high_nibble() {
    assert_eq!(pack_indices(&[1, 6, 3, 0], &slot_to_hardware()), vec![0x16, 0x30]);
}

#[test]
fn packing_drops_an_unpaired_trailing_pixel() {
    assert_eq!(pack_indices(&[1, 6, 3], &slot_to_hardware()), vec![0x16]);
}

#[test]
fn nearest_hardware_code_avoids_the_reserved_slot() {
    assert_eq!(nearest_hardware_code([250, 250, 250]), 1);
    assert_eq!(nearest_hardware_code([10, 10, 200]), 5);
    assert_eq!(nearest_hardware_code([5, 5, 5]), 0);
}

#[test]
fn a_tie_goes_to_the_earlier_hardware_colour() {
    // Exactly as far from red as from blue, and nearer those two than anything else: red comes first in the table.
    assert_eq!(nearest_hardware_code([200, 0, 200]), 3);
    // One level nearer yellow than red.
    assert_eq!(nearest_hardware_code([255, 128, 0]), 2);
}

#[test]
fn landscape_input_is_rotated_to_panel_size() {
    let dithered = slots(DISPLAY_IMAGE_SIZE.0, DISPLAY_IMAGE_SIZE.1, vec![0; 600 * 400]);
    let (buffer, orientation) = pack_for_panel(&dithered);
    assert_eq!(orientation, Orientation::Rotated);
    assert_eq!(dithered.size(), DISPLAY_IMAGE_SIZE);
    assert_eq!(buffer.len(), 400 * 600 / 2);
}

#[test]
fn a_portrait_frame_goes_through_unturned() {
    // Slots 1 and 6 alternate along each row; unturned, every byte pairs them up.
    let mut indices = Vec::new();
    for _ in 0..600 {
        for x in 0..400 {
            indices.push(if x % 2 == 0 { 1 } else { 6 });
        }
    }
    let (buffer, orientation) = pack_for_panel(&slots(400, 600, indices));
    assert_eq!(orientation, Orientation::Panel);
    assert!(buffer.iter().all(|&byte| byte == 0x16));
    assert_eq!(orientation_of((10, 10)), Orientation::Unexpected);
}

#[test]
fn img2buffer_rejects_unexpected_sizes() {
    let image = slots(10, 10, vec![0; 100]);
    assert!(img2buffer(&image).is_none());
}

#[test]
fn img2buffer_packs_the_panel_sizes() {
    let portrait = slots(DISPLAY_PANEL_SIZE.0, DISPLAY_PANEL_SIZE.1, vec![1; 400 * 600]);
    let packed = img2buffer(&portrait).expect("the panel's own size");
    assert_eq!(packed.len(), 400 * 600 / 2);
    assert!(packed.iter().all(|&byte| byte == 0x11));
    // Slot 4 is pure red, which the panel calls code 3.
    let landscape = slots(DISPLAY_IMAGE_SIZE.0, DISPLAY_IMAGE_SIZE.1, vec![4; 600 * 400]);
    assert!(img2buffer(&landscape).expect("the working size").iter().all(|&byte| byte == 0x33));
}

#[test]
fn rotate90_ccw_matches_pil() {
    // PIL's rotate(90, expand=True) on [[0,1,2],[3,4,5]] gives [[2,5],[1,4],[0,3]].
    let rotated = slots(3, 2, vec![0, 1, 2, 3, 4, 5]).rotate90_ccw();
    assert_eq!(rotated.size(), (2, 3));
    assert_eq!(rotated.indices(), &[2, 5, 1, 4, 0, 3]);
}

#[test]
fn scale_nearest_replicates_pixels() {
    let scaled = slots(2, 1, vec![1, 6]).scale_nearest(2);
    assert_eq!(scaled.size(), (4, 2));
    assert_eq!(scaled.indices(), &[1, 1, 6, 6, 1, 1, 6, 6]);
}

#[test]
fn slots_expand_back_into_their_colours() {
    let rgb = slots(2, 1, vec![1, 4]).to_rgb();
    assert_eq!(rgb.dimensions(), (2, 1));
    assert_eq!(rgb.as_raw(), &[255, 255, 255, 255, 0, 0]);
}

#[test]
fn plte_is_padded_to_256_entries() {
    let plte = Palette::from_colors(MUTED_PALETTE).plte();
    assert_eq!(plte.len(), 768);
    assert_eq!(&plte[..3], &MUTED_PALETTE[0]);
    assert!(plte[18..].iter().all(|&b| b == 0));
}

#[test]
fn the_nearest_rgb_slot_is_the_first_closest() {
    let palette = Palette::from_colors(PURE_PALETTE);
    assert_eq!(palette.nearest_rgb([0, 0, 0]), 0);
    assert_eq!(palette.nearest_rgb([250, 250, 250]), 1);
    assert_eq!(palette.nearest_rgb([10, 240, 10]), 2);
    assert_eq!(palette.nearest_rgb([255, 255, 10]), 5);
    // As far from blue as from red, and the earlier slot, blue, wins.
    assert_eq!(palette.nearest_rgb([200, 0, 200]), 3);
    assert_eq!(palette.nearest_rgb([127, 127, 127]), 0);
}

#[test]
fn luma_matches_pillow() {
    // Captured from Image.convert("L").
    let cases = [([10u8, 200, 30], 124u8), ([255, 0, 0], 76), ([0, 255, 0], 150), ([0, 0, 255], 29), ([123, 45, 67], 71)];
    for ([r, g, b], want) in cases {
        assert_eq!(luma(r, g, b), want, "rgb {r},{g},{b}");
    }
}

#[test]
fn a_grey_pixel_keeps_its_own_level() {
    for level in [0u8, 1, 127, 128, 254, 255] {
        assert_eq!(luma(level, level, level), level);
    }
}

#[test]
fn the_widest_gap_is_between_successive_values() {
    // The palette blended at 0.6. Red channel sorted: 0, 24, 34, 195, 226, 255 -> widest gap 161.
    let blended = Palette::from_colors([[34, 28, 34], [255, 255, 255], [226, 216, 42], [195, 43, 45], [0, 76, 255], [24, 156, 34]]);
    assert_eq!(blended.widest_gaps(), [161, 80, 210]);
    // The pure primaries step straight from 0 to 255 on every channel, and a flat palette has no step at all.
    assert_eq!(Palette::from_colors(PURE_PALETTE).widest_gaps(), [255, 255, 255]);
    assert_eq!(Palette::from_colors([[7, 7, 7]; 6]).widest_gaps(), [0, 0, 0]);
}
