//! The decisions behind the browser studio's controls: which sample a roll may land on, what a typed number becomes,
//! and what the panel says back.
//!
//! The studio itself is a page of signals; what it does with an event is decided here, from plain values, and handed
//! back for the page to show.

use vstd::prelude::*;

use crate::bayer::{BayerSize, bayer_from_side, spec_from_side};
use crate::params::{MAX_DIMENSION, MAX_SCALE};
use crate::text::{decimal, parse_u32, push_decimal, spec_parse_u32};

verus! {

/// `value` held to `low..=high`.
pub open spec fn clamped(value: int, low: int, high: int) -> int {
    if value < low {
        low
    } else if value > high {
        high
    } else {
        value
    }
}

/// Whether `others` lists, in increasing order, every sample below `count` but the one on screen, and nothing else.
pub open spec fn is_other_samples(others: Seq<usize>, count: nat, picked: Option<usize>) -> bool {
    &&& forall|i: int, j: int| 0 <= i < j < others.len() ==> others[i] < others[j]
    &&& forall|i: int| 0 <= i < others.len() ==> #[trigger] others[i] < count && picked != Some(others[i])
    &&& forall|k: usize| k < count && picked != Some(k) ==> #[trigger] others.contains(k)
}

/// The samples a roll may land on: every one but the sample already on screen, so a second roll always changes the
/// photo.
pub fn other_samples(count: usize, picked: Option<usize>) -> (others: Vec<usize>)
    ensures
        is_other_samples(others@, count as nat, picked),
{
    let mut others: Vec<usize> = Vec::new();
    let mut i: usize = 0;
    while i < count
        invariant
            i <= count,
            forall|a: int, b: int| 0 <= a < b < others@.len() ==> others@[a] < others@[b],
            forall|a: int| 0 <= a < others@.len() ==> #[trigger] others@[a] < i && picked != Some(others@[a]),
            forall|k: usize| k < i && picked != Some(k) ==> #[trigger] others@.contains(k),
        decreases count - i,
    {
        let on_screen = match picked {
            Some(p) => p == i,
            None => false,
        };
        if !on_screen {
            let ghost before = others@;
            others.push(i);
            proof {
                assert(others@[others@.len() - 1] == i);
                assert forall|k: usize| k < i + 1 && picked != Some(k) implies #[trigger] others@.contains(k) by {
                    if k == i {
                        assert(others@[others@.len() - 1] == k);
                    } else {
                        assert(before.contains(k));
                        let at = choose|at: int| 0 <= at < before.len() && before[at] == k;
                        assert(others@[at] == k);
                    }
                }
            }
        } else {
            proof {
                assert forall|k: usize| k < i + 1 && picked != Some(k) implies #[trigger] others@.contains(k) by {
                    assert(k != i);
                }
            }
        }
        i = i + 1;
    }
    others
}

/// What a typed number becomes, held to `1..=high`; `None` when `raw` is not a number, which leaves the control as it
/// was.
pub open spec fn typed_number(raw: Seq<char>, high: u32) -> Option<u32> {
    match spec_parse_u32(raw) {
        Some(value) => Some(clamped(value as int, 1, high as int) as u32),
        None => None,
    }
}

/// Reads `raw` and holds it to `1..=high`.
fn clamp_typed(raw: &str, high: u32) -> (value: Option<u32>)
    requires
        1 <= high,
    ensures
        value == typed_number(raw@, high),
{
    match parse_u32(raw) {
        Some(value) => {
            if value < 1 {
                Some(1)
            } else if value > high {
                Some(high)
            } else {
                Some(value)
            }
        },
        None => None,
    }
}

/// The scale slider after `raw` is typed into it: a whole number from one up to the largest scale.
pub fn scale_input(raw: &str) -> (scale: Option<u32>)
    ensures
        scale == typed_number(raw@, MAX_SCALE),
{
    clamp_typed(raw, MAX_SCALE)
}

/// A width or height box after `raw` is typed into it: a whole number from one up to the largest dimension.
pub fn dimension_input(raw: &str) -> (side: Option<u32>)
    ensures
        side == typed_number(raw@, MAX_DIMENSION),
{
    clamp_typed(raw, MAX_DIMENSION)
}

/// The Bayer size picked from its dropdown: the side it names, and four when `raw` names no number.
pub fn bayer_input(raw: &str) -> (size: BayerSize)
    ensures
        size == spec_from_side(
            match spec_parse_u32(raw@) {
                Some(side) => side,
                None => 4u32,
            },
        ),
{
    let side = match parse_u32(raw) {
        Some(side) => side,
        None => 4,
    };
    bayer_from_side(side)
}

/// The note under the framing controls, when width and height name a shape rather than a size. With the crop on,
/// they shape it; with the crop off, nothing reads them.
pub fn framing_note(names_a_size: bool, crop: bool) -> (note: Option<&'static str>)
    ensures
        names_a_size ==> note is None,
        !names_a_size && crop ==> note is Some && note->0@
            == "Width and height are read as a shape here rather than a size: the crop cuts that shape out at the photo's own resolution."@,
        !names_a_size && !crop ==> note is Some && note->0@
            == "Width and height only shape the crop, and there is no crop, so nothing is using them. Turn on the crop below, or scale to the size instead."@,
{
    if names_a_size {
        None
    } else if crop {
        Some(
            "Width and height are read as a shape here rather than a size: the crop cuts that shape out at the photo's own resolution.",
        )
    } else {
        Some(
            "Width and height only shape the crop, and there is no crop, so nothing is using them. Turn on the crop below, or scale to the size instead.",
        )
    }
}

/// What the output readout says: the finished frame's size, or that there is no photo yet.
pub open spec fn spec_readout(size: Option<(u32, u32)>) -> Seq<char> {
    match size {
        Some((width, height)) => decimal(width as nat) + " x "@ + decimal(height as nat) + " pixels"@,
        None => "no photo yet"@,
    }
}

/// The output readout under the scale slider.
pub fn readout(size: Option<(u32, u32)>) -> (text: String)
    ensures
        text@ == spec_readout(size),
{
    match size {
        Some((width, height)) => {
            let mut text = String::new();
            push_decimal(&mut text, width as u64);
            text.append(" x ");
            push_decimal(&mut text, height as u64);
            text.append(" pixels");
            text
        },
        None => String::from_str("no photo yet"),
    }
}

/// Something that went wrong, as the panel reports it. Each carries the detail its cause gave, where it gave one.
#[derive(Debug, Clone, PartialEq, Eq)]
pub enum Notice {
    /// A picked or dropped file could not be read.
    Unreadable,
    /// A file was read but is not an image the pipeline decodes.
    Undecodable(String),
    /// A sample did not arrive; carries its file name.
    SampleMissing(String),
    /// The preview could not be painted.
    Unpainted(String),
    /// The finished frame did not encode.
    Unencodable(String),
    /// The browser did not start the download.
    Undownloaded(String),
}

/// The line the panel shows for a notice.
pub open spec fn notice_text(notice: Notice) -> Seq<char> {
    match notice {
        Notice::Unreadable => "that file could not be read"@,
        Notice::Undecodable(detail) => "that file did not decode: "@ + detail@,
        Notice::SampleMissing(file) => file@ + " could not be loaded"@,
        Notice::Unpainted(detail) => "the preview did not paint: "@ + detail@,
        Notice::Unencodable(detail) => "the PNG did not encode: "@ + detail@,
        Notice::Undownloaded(detail) => "the download did not start: "@ + detail@,
    }
}

impl Notice {
    /// The line the panel shows.
    pub fn text(&self) -> (line: String)
        ensures
            line@ == notice_text(*self),
    {
        match self {
            Notice::Unreadable => String::from_str("that file could not be read"),
            Notice::Undecodable(detail) => {
                let mut line = String::from_str("that file did not decode: ");
                line.append(detail.as_str());
                line
            },
            Notice::SampleMissing(file) => {
                let mut line = file.clone();
                line.append(" could not be loaded");
                line
            },
            Notice::Unpainted(detail) => {
                let mut line = String::from_str("the preview did not paint: ");
                line.append(detail.as_str());
                line
            },
            Notice::Unencodable(detail) => {
                let mut line = String::from_str("the PNG did not encode: ");
                line.append(detail.as_str());
                line
            },
            Notice::Undownloaded(detail) => {
                let mut line = String::from_str("the download did not start: ");
                line.append(detail.as_str());
                line
            },
        }
    }
}

} // verus!
