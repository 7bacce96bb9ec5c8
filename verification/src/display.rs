//! Packing dithered output into the e-paper panel's frame buffer.
//!
//! The panel takes one 4-bit colour code per pixel, two pixels per byte, in portrait orientation. The palette slots
//! and the hardware codes almost agree, so the conversion is a small table plus a nibble pack.

use vstd::prelude::*;

use crate::buffer::{IndexedImage, spec_rotated_ccw};
use crate::geometry::DISPLAY_IMAGE_SIZE;
use crate::palette::rgb_distance;

verus! {

/// Portrait size the panel expects.
pub const DISPLAY_PANEL_SIZE: (u32, u32) = (400, 600);

/// Hardware colour codes: 0 black, 1 white, 2 yellow, 3 red, 5 blue, 6 green.
///
/// Code 4 is the panel's clear / duplicate-black code and must never be emitted.
pub const HARDWARE_COLORS: [(u8, [u8; 3]); 6] = [
    (0, [0, 0, 0]),
    (1, [255, 255, 255]),
    (2, [255, 255, 0]),
    (3, [255, 0, 0]),
    (5, [0, 0, 255]),
    (6, [0, 255, 0]),
];

/// The hardware code a palette slot is sent as: slots 1, 2, 3, 5 and 6 are their own codes, and every other slot,
/// the duplicate black in slot 4 among them, folds onto code 0.
pub open spec fn spec_slot_code(slot: int) -> u8 {
    if slot == 1 || slot == 2 || slot == 3 || slot == 5 || slot == 6 {
        slot as u8
    } else {
        0
    }
}

/// Maps palette slots to hardware colour codes, as [`spec_slot_code`] says.
pub fn slot_to_hardware() -> (table: [u8; 256])
    ensures
        forall|slot: int| 0 <= slot < 256 ==> #[trigger] table[slot] == spec_slot_code(slot),
{
    let mut table = [0u8; 256];
    table[1] = 1;
    table[2] = 2;
    table[3] = 3;
    table[5] = 5;
    table[6] = 6;
    table
}

/// A slot that is one of the panel's colour codes is sent as that very code, so each colour reaches the panel as
/// itself; every other slot, the duplicate black among them, is sent as black, and the panel's clear code 4 never comes
/// out.
pub proof fn lemma_slots_keep_their_codes(slot: int)
    requires
        0 <= slot < 256,
    ensures
        forall|i: int| 0 <= i < 6 ==> spec_slot_code(#[trigger] HARDWARE_COLORS[i].0 as int) == HARDWARE_COLORS[i].0,
        (forall|i: int| 0 <= i < 6 ==> #[trigger] HARDWARE_COLORS[i].0 != slot) ==> spec_slot_code(slot) == 0,
        spec_slot_code(slot) != 4,
{
    assert(HARDWARE_COLORS[0].0 == 0);
    assert(HARDWARE_COLORS[1].0 == 1);
    assert(HARDWARE_COLORS[2].0 == 2);
    assert(HARDWARE_COLORS[3].0 == 3);
    assert(HARDWARE_COLORS[4].0 == 5);
    assert(HARDWARE_COLORS[5].0 == 6);
}

/// Orientation of an image relative to the panel.
#[derive(Debug, Clone, Copy, PartialEq, Eq, Structural)]
pub enum Orientation {
    /// Already portrait, sent through unchanged.
    Panel,
    /// Landscape, rotated a quarter turn counter-clockwise.
    Rotated,
    /// Neither expected size. Rotated anyway.
    Unexpected,
}

/// How an image of `size` has to be turned to reach the panel.
pub open spec fn spec_orientation(size: (u32, u32)) -> Orientation {
    if size == DISPLAY_IMAGE_SIZE {
        Orientation::Rotated
    } else if size == DISPLAY_PANEL_SIZE {
        Orientation::Panel
    } else {
        Orientation::Unexpected
    }
}

/// How an image of `size` has to be turned to reach the panel: the landscape working size is rotated, the panel's own
/// portrait size goes through as it is, and anything else is rotated anyway.
pub fn orientation_of(size: (u32, u32)) -> (orientation: Orientation)
    ensures
        orientation == spec_orientation(size),
{
    if size.0 == DISPLAY_IMAGE_SIZE.0 && size.1 == DISPLAY_IMAGE_SIZE.1 {
        Orientation::Rotated
    } else if size.0 == DISPLAY_PANEL_SIZE.0 && size.1 == DISPLAY_PANEL_SIZE.1 {
        Orientation::Panel
    } else {
        Orientation::Unexpected
    }
}

/// The byte two codes pack into: the first in the high nibble, the second in the low one.
pub open spec fn packed_pair(table: Seq<u8>, first: u8, second: u8) -> u8 {
    ((table[first as int] << 4u8) | table[second as int]) as u8
}

/// Every pair of slots mapped through `table` and packed into one byte. A trailing odd slot is dropped.
pub open spec fn spec_packed(indices: Seq<u8>, table: Seq<u8>) -> Seq<u8> {
    Seq::new(indices.len() / 2, |i: int| packed_pair(table, indices[2 * i], indices[2 * i + 1]))
}

/// Maps palette slots through `table` and packs them two per byte, the first of each pair in the high nibble.
///
/// A trailing pixel in an odd-length buffer is dropped.
pub fn pack_indices(indices: &[u8], table: &[u8; 256]) -> (packed: Vec<u8>)
    ensures
        packed@ == spec_packed(indices@, table@),
        packed@.len() == indices@.len() / 2,
{
    let len = indices.len();
    let pairs = len / 2;
    let mut packed: Vec<u8> = Vec::new();
    let mut i: usize = 0;
    while i < pairs
        invariant
            i <= pairs,
            len == indices@.len(),
            pairs == len / 2,
            packed@.len() == i,
            forall|j: int| 0 <= j < i ==> #[trigger] packed@[j] == packed_pair(table@, indices@[2 * j], indices@[2 * j + 1]),
        decreases pairs - i,
    {
        let high = table[indices[2 * i] as usize];
        let low = table[indices[2 * i + 1] as usize];
        packed.push((high << 4u8) | low);
        i = i + 1;
    }
    assert(packed@ =~= spec_packed(indices@, table@));
    packed
}

/// Packing keeps both codes of a pair whole when they fit in a nibble: the high nibble is the first pixel's code and
/// the low nibble the second's.
pub proof fn lemma_nibbles_round_trip(first: u8, second: u8)
    requires
        first < 16,
        second < 16,
    ensures
        ((first << 4u8) | second) >> 4u8 == first,
        ((first << 4u8) | second) & 15u8 == second,
{
    assert(((first << 4u8) | second) >> 4u8 == first) by (bit_vector)
        requires
            first < 16,
            second < 16,
    ;
    assert(((first << 4u8) | second) & 15u8 == second) by (bit_vector)
        requires
            first < 16,
            second < 16,
    ;
}

/// The codes the panel accepts: every hardware code but the reserved 4.
pub open spec fn is_panel_code(code: u8) -> bool {
    code == 0 || code == 1 || code == 2 || code == 3 || code == 5 || code == 6
}

/// The frame buffer never carries the reserved code: every byte [`pack_for_panel`] writes holds two panel codes, one
/// in each nibble, whatever slots the dither picked.
pub proof fn lemma_packed_frames_hold_panel_codes(slots: Seq<u8>, byte: int)
    requires
        0 <= byte < slots.len() / 2,
    ensures
        ({
            let packed = spec_packed(slots, Seq::new(256, |slot: int| spec_slot_code(slot)))[byte];
            is_panel_code(packed >> 4u8) && is_panel_code(packed & 15u8)
        }),
{
    let table = Seq::new(256, |slot: int| spec_slot_code(slot));
    let first = table[slots[2 * byte] as int];
    let second = table[slots[2 * byte + 1] as int];
    lemma_nibbles_round_trip(first, second);
}

/// Whether `code` belongs to an entry of [`HARDWARE_COLORS`] at the least squared distance from `rgb`.
pub open spec fn is_nearest_code(rgb: [u8; 3], code: u8) -> bool {
    exists|i: int|
        0 <= i < 6 && #[trigger] HARDWARE_COLORS[i].0 == code && (forall|j: int|
            0 <= j < 6 ==> rgb_distance(rgb, HARDWARE_COLORS[i].1) <= rgb_distance(rgb, #[trigger] HARDWARE_COLORS[j].1))
}

/// Whether `code` is the nearest entry of [`HARDWARE_COLORS`] to `rgb`, the earliest entry when several are equally
/// near.
pub open spec fn is_first_nearest_code(rgb: [u8; 3], code: u8) -> bool {
    &&& is_nearest_code(rgb, code)
    &&& exists|i: int|
        0 <= i < 6 && #[trigger] HARDWARE_COLORS[i].0 == code && (forall|j: int|
            0 <= j < i ==> rgb_distance(rgb, HARDWARE_COLORS[i].1) < rgb_distance(rgb, #[trigger] HARDWARE_COLORS[j].1))
}

/// The colour a slot of `colors` stands for, black past the palette's end.
pub open spec fn slot_color(colors: Seq<[u8; 3]>, slot: int) -> [u8; 3] {
    if 0 <= slot < colors.len() {
        colors[slot]
    } else {
        [0u8, 0u8, 0u8]
    }
}

/// Nearest hardware colour code for an arbitrary RGB value, by squared RGB distance. Ties go to the earlier entry of
/// [`HARDWARE_COLORS`].
///
/// Code 4 is not in the table, so it can never be produced.
pub fn nearest_hardware_code(rgb: [u8; 3]) -> (code: u8)
    ensures
        is_first_nearest_code(rgb, code),
        is_panel_code(code),
{
    let table = HARDWARE_COLORS;
    let mut best: usize = 0;
    let mut best_dist: i32 = 0;
    let mut i: usize = 0;
    while i < 6
        invariant
            0 <= i <= 6,
            table == HARDWARE_COLORS,
            i > 0 ==> best < i && best_dist == rgb_distance(rgb, table[best as int].1),
            forall|j: int| 0 <= j < i ==> best_dist <= rgb_distance(rgb, #[trigger] table[j].1),
            forall|j: int| 0 <= j < best ==> best_dist < rgb_distance(rgb, #[trigger] table[j].1),
        decreases 6 - i,
    {
        let color = table[i].1;
        let d0 = rgb[0] as i32 - color[0] as i32;
        let d1 = rgb[1] as i32 - color[1] as i32;
        let d2 = rgb[2] as i32 - color[2] as i32;
        assert(0 <= d0 * d0 <= 65025 && 0 <= d1 * d1 <= 65025 && 0 <= d2 * d2 <= 65025) by (nonlinear_arith)
            requires
                -255 <= d0 <= 255,
                -255 <= d1 <= 255,
                -255 <= d2 <= 255,
        ;
        let dist = d0 * d0 + d1 * d1 + d2 * d2;
        assert(dist == rgb_distance(rgb, table[i as int].1));
        if i == 0 || dist < best_dist {
            best_dist = dist;
            best = i;
        }
        i = i + 1;
    }
    let code = table[best].0;
    assert(HARDWARE_COLORS[best as int].0 == code);
    code
}

/// What [`img2buffer`] maps each slot of a palette to: the nearest hardware code to the slot's colour, the earliest on
/// a tie, with a slot past the palette's end read as black.
pub open spec fn is_snapped_table(table: Seq<u8>, colors: Seq<[u8; 3]>) -> bool {
    &&& table.len() == 256
    &&& forall|slot: int| 0 <= slot < 256 ==> is_first_nearest_code(slot_color(colors, slot), #[trigger] table[slot])
}

/// Packs an already-dithered palette image, snapping each slot to its nearest hardware colour first.
///
/// The panel's own portrait size goes through as it is and the landscape working size is rotated a quarter turn
/// counter-clockwise first. Returns `None` when the image is neither.
pub fn img2buffer(image: &IndexedImage) -> (buffer: Option<Vec<u8>>)
    ensures
        buffer is Some <==> (image.spec_width(), image.spec_height()) == DISPLAY_PANEL_SIZE || (
        image.spec_width(),
        image.spec_height(),
        ) == DISPLAY_IMAGE_SIZE,
        buffer matches Some(bytes) ==> exists|table: Seq<u8>|
            is_snapped_table(table, image.spec_palette().spec_colors()) && bytes@ == spec_packed(
                if (image.spec_width(), image.spec_height()) == DISPLAY_PANEL_SIZE {
                    image.slots()
                } else {
                    spec_rotated_ccw(image.slots(), image.spec_width() as int, image.spec_height() as int)
                },
                table,
            ),
{
    let size = image.size();
    let oriented = if size.0 == DISPLAY_PANEL_SIZE.0 && size.1 == DISPLAY_PANEL_SIZE.1 {
        image.duplicate()
    } else if size.0 == DISPLAY_IMAGE_SIZE.0 && size.1 == DISPLAY_IMAGE_SIZE.1 {
        image.rotate90_ccw()
    } else {
        return None;
    };

    let colors = oriented.palette().colors();
    let mut table = [0u8; 256];
    let mut slot: usize = 0;
    while slot < 256
        invariant
            0 <= slot <= 256,
            colors@ == image.spec_palette().spec_colors(),
            colors@.len() == 6,
            forall|s: int| 0 <= s < slot ==> is_first_nearest_code(slot_color(colors@, s), #[trigger] table[s]),
        decreases 256 - slot,
    {
        let color = if slot < 6 {
            colors[slot]
        } else {
            [0u8, 0u8, 0u8]
        };
        let code = nearest_hardware_code(color);
        assert(color == slot_color(colors@, slot as int));
        table[slot] = code;
        slot = slot + 1;
    }
    let packed = pack_indices(oriented.indices(), &table);
    proof {
        let slots = if (image.spec_width(), image.spec_height()) == DISPLAY_PANEL_SIZE {
            image.slots()
        } else {
            spec_rotated_ccw(image.slots(), image.spec_width() as int, image.spec_height() as int)
        };
        assert(oriented.slots() == slots);
        assert(is_snapped_table(table@, image.spec_palette().spec_colors()));
        assert(packed@ == spec_packed(slots, table@));
    }
    Some(packed)
}

/// The frame buffer for an image that has already been dithered, and how it had to be turned to get there.
///
/// The landscape working size is rotated a quarter turn counter-clockwise, the panel's own portrait size goes through
/// as it is, and an image of any other size is rotated anyway and reported as [`Orientation::Unexpected`]. The slots
/// are sent through [`slot_to_hardware`].
pub fn pack_for_panel(dithered: &IndexedImage) -> (packed: (Vec<u8>, Orientation))
    ensures
        packed.1 == spec_orientation((dithered.spec_width(), dithered.spec_height())),
        ({
            let table = Seq::new(256, |slot: int| spec_slot_code(slot));
            packed.0@ == spec_packed(
                if packed.1 == Orientation::Panel {
                    dithered.slots()
                } else {
                    spec_rotated_ccw(dithered.slots(), dithered.spec_width() as int, dithered.spec_height() as int)
                },
                table,
            )
        }),
{
    let orientation = orientation_of(dithered.size());
    let display = match orientation {
        Orientation::Panel => dithered.duplicate(),
        _ => dithered.rotate90_ccw(),
    };
    let table = slot_to_hardware();
    let packed = pack_indices(display.indices(), &table);
    proof {
        assert(table@ =~= Seq::new(256, |slot: int| spec_slot_code(slot)));
    }
    (packed, orientation)
}

} // verus!
