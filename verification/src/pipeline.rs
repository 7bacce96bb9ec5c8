//! The stages around the dither, as the command line, the HTTP backend and the browser app run them.
//!
//! Stage one cuts the photo down to the working size, in whichever of the three ways `resize` asks for. Stage two is
//! the dither itself, which works in floating point and is not here. What comes out of it is an [`Output`]: palette
//! slots, or the plain photo when no dither was asked for. The rest turns that into what is shown and what is saved.

use vstd::prelude::*;

use crate::binary64::ONE;
use crate::buffer::{IndexedImage, RgbImage, rgb_offset};
use crate::geometry::{FitOptions, fitted_size, spec_fitted_rect, spec_fitted_size};
use crate::io::{IoError, decode_rgb, decoded_rgb, encode_indexed_png, encode_rgb_png, indexed_png, rgb_png};
use crate::palette::plte_bytes;
use crate::params::Resize;
use crate::resize::{
    NEAREST_EXACT_LIMIT, allocatable, crop_to_fit, resize_to_fit, scale_nearest, scale_to_fit, scaled_size,
    spec_resize_region, spec_scaled_size,
};
use crate::text::{parse_u32, spec_parse_u32, trim, trim_str};

verus! {

/// Decodes an upload. JPEG and PNG, the two the pipeline is built with.
pub fn decode(bytes: &[u8]) -> (decoded: Result<RgbImage, IoError>)
    ensures
        decoded is Err <==> decoded_rgb(bytes@) is None,
        decoded matches Ok(image) ==> decoded_rgb(bytes@) matches Some((width, height, pixels)) && image.spec_width()
            == width && image.spec_height() == height && image.pixels() == pixels.take(width * height * 3),
{
    decode_rgb(bytes)
}

/// The size stage one produces for a `source`-sized photo.
///
/// Only [`Resize::Fit`] reads `target` as a size; for the other two it is a shape the crop is measured against, and the
/// scaling either comes from the fraction or does not happen at all.
pub open spec fn fitted_photo_size(source: (u32, u32), target: (u32, u32), fit: FitOptions, resize: Resize) -> (
    u32,
    u32,
) {
    match resize {
        Resize::Fit => spec_fitted_size(source, target, fit),
        Resize::Factor(fraction) => spec_scaled_size(source, target, fit, fraction),
        Resize::Keep => if fit.crop {
            spec_scaled_size(source, target, fit, ONE)
        } else {
            source
        },
    }
}

/// The size [`fit_photo`] produces for a `source`-sized photo, for a caller that has to know it can be allocated.
pub fn fitted_photo_dimensions(source: (u32, u32), target: (u32, u32), fit: FitOptions, resize: Resize) -> (size: (
    u32,
    u32,
))
    ensures
        size == fitted_photo_size(source, target, fit, resize),
{
    match resize {
        Resize::Fit => fitted_size(source, target, fit),
        Resize::Factor(fraction) => scaled_size(source, target, fit, fraction),
        Resize::Keep => if fit.crop {
            scaled_size(source, target, fit, ONE)
        } else {
            source
        },
    }
}

/// Stage one: cuts the photo down to the working size.
///
/// Which of the pipeline's resize functions does the work is what `resize` picks. Keeping the source pixels is no
/// reason to stop framing them, so `Keep` still crops when asked to; without a crop it is the one path that hands the
/// photo on untouched.
pub fn fit_photo(photo: &RgbImage, target: (u32, u32), fit: FitOptions, resize: Resize) -> (fitted: RgbImage)
    requires
        allocatable(fitted_photo_size((photo.spec_width(), photo.spec_height()), target, fit, resize)),
    ensures
        ({
            let source = (photo.spec_width(), photo.spec_height());
            let size = fitted_photo_size(source, target, fit, resize);
            &&& (fitted.spec_width(), fitted.spec_height()) == size
            &&& (resize is Keep && !fit.crop) ==> fitted.pixels() == photo.pixels()
            &&& !(resize is Keep && !fit.crop) ==> fitted.pixels() == spec_resize_region(
                photo.pixels(),
                photo.spec_width() as int,
                spec_fitted_rect(source, target, fit),
                size,
            )
        }),
{
    match resize {
        Resize::Fit => resize_to_fit(photo, target, fit),
        Resize::Factor(fraction) => scale_to_fit(photo, target, fit, fraction),
        Resize::Keep => if fit.crop {
            crop_to_fit(photo, target, fit)
        } else {
            photo.duplicate()
        },
    }
}

/// What the dither stage hands on, and what a download would write.
///
/// Dithered output keeps its palette, because a six-colour PNG is a fraction of the size of the same picture in
/// truecolour.
#[derive(Debug)]
pub enum Output {
    /// Palette slots, from a dither.
    Indexed(IndexedImage),
    /// The photo itself, when no dither was asked for.
    Rgb(RgbImage),
}

/// The size of what an output shows.
pub open spec fn output_size(output: Output) -> (u32, u32) {
    match output {
        Output::Indexed(image) => (image.spec_width(), image.spec_height()),
        Output::Rgb(image) => (image.spec_width(), image.spec_height()),
    }
}

/// Channel `channel` of pixel `i`, row major, of what an output shows: the slot's palette colour, or the photo's own.
pub open spec fn shown_channel(output: Output, i: int, channel: int) -> u8 {
    match output {
        Output::Indexed(image) => image.spec_palette().spec_colors()[image.slots()[i] as int][channel],
        Output::Rgb(image) => image.pixels()[i * 3 + channel],
    }
}

/// Whether every slot of an indexed output names one of the palette's six colours.
pub open spec fn slots_in_palette(output: Output) -> bool {
    output matches Output::Indexed(image) ==> forall|i: int|
        0 <= i < image.slots().len() ==> #[trigger] image.slots()[i] < 6
}

/// Whether `after` is `before` blown up `factor` times by nearest neighbour: the same kind of output, each side
/// `factor` times as long, the palette kept, and, below the size at which the resampler's sample positions stay exact,
/// every pixel the one under it in `before`.
pub open spec fn nearest_upscale_of(before: Output, after: Output, factor: u32) -> bool {
    let (w, h) = output_size(before);
    let (aw, ah) = output_size(after);
    &&& aw == w * factor
    &&& ah == h * factor
    &&& match (before, after) {
        (Output::Indexed(small), Output::Indexed(large)) => {
            &&& large.spec_palette() == small.spec_palette()
            &&& aw < NEAREST_EXACT_LIMIT && ah < NEAREST_EXACT_LIMIT ==> forall|x: int, y: int|
                0 <= x < aw && 0 <= y < ah ==> #[trigger] large.slots()[y * aw + x] == small.slots()[(y / (
                factor as int)) * w + x / (factor as int)]
        },
        (Output::Rgb(small), Output::Rgb(large)) => aw < NEAREST_EXACT_LIMIT && ah < NEAREST_EXACT_LIMIT ==> forall|
            x: int,
            y: int,
            c: int,
        |
            0 <= x < aw && 0 <= y < ah && 0 <= c < 3 ==> #[trigger] large.pixels()[rgb_offset(aw as int, x, y, c)]
                == small.pixels()[rgb_offset(w as int, x / (factor as int), y / (factor as int), c)],
        _ => false,
    }
}

impl Output {
    /// `(width, height)`.
    pub fn dimensions(&self) -> (size: (u32, u32))
        ensures
            size == output_size(*self),
    {
        match self {
            Output::Indexed(image) => image.size(),
            Output::Rgb(image) => image.dimensions(),
        }
    }

    /// The suffix that says which of the two this is, for a file name.
    pub fn suffix(&self) -> (suffix: &'static str)
        ensures
            *self is Indexed ==> suffix@ == "dithered"@,
            *self is Rgb ==> suffix@ == "resized"@,
    {
        match self {
            Output::Indexed(_) => "dithered",
            Output::Rgb(_) => "resized",
        }
    }

    /// The name a download is saved under: the photo's stem, then which of the two this is.
    pub fn file_name(&self, stem: &str) -> (name: String)
        ensures
            *self is Indexed ==> name@ == stem@ + "_dithered.png"@,
            *self is Rgb ==> name@ == stem@ + "_resized.png"@,
    {
        let mut name = String::from_str(stem);
        match self {
            Output::Indexed(_) => name.append("_dithered.png"),
            Output::Rgb(_) => name.append("_resized.png"),
        }
        name
    }

    /// Encodes the PNG a download writes: indexed for palette slots, RGB for a photo.
    pub fn encode_png(&self) -> (encoded: Result<Vec<u8>, IoError>)
        ensures
            encoded is Ok <==> (output_size(*self).0 > 0 && output_size(*self).1 > 0),
            match *self {
                Output::Indexed(image) => match encoded {
                    Ok(bytes) => bytes@ == indexed_png(
                        image.spec_width(),
                        image.spec_height(),
                        plte_bytes(image.spec_palette().spec_colors()),
                        image.slots(),
                    ),
                    Err(error) => error is Encode,
                },
                Output::Rgb(image) => match encoded {
                    Ok(bytes) => bytes@ == rgb_png(image.spec_width(), image.spec_height(), image.pixels()),
                    Err(error) => error is Decode,
                },
            },
    {
        match self {
            Output::Indexed(image) => encode_indexed_png(image),
            Output::Rgb(image) => encode_rgb_png(image),
        }
    }

    /// Blown up `factor` times by nearest neighbour, so a dither pattern is enlarged rather than resampled and stays as
    /// crisp as it was at the working size. A factor of one or less leaves it as it is.
    pub fn scaled(self, factor: u32) -> (scaled: Output)
        requires
            factor > 1 ==> output_size(self).0 * factor <= u32::MAX && output_size(self).1 * factor <= u32::MAX
                && allocatable(
                ((output_size(self).0 * factor) as u32, (output_size(self).1 * factor) as u32),
            ),
        ensures
            factor <= 1 ==> scaled == self,
            factor > 1 ==> nearest_upscale_of(self, scaled, factor),
    {
        if factor <= 1 {
            return self;
        }
        match self {
            Output::Indexed(image) => {
                let (w, h) = (image.width(), image.height());
                assert(w * factor * h * factor == (w * factor) * (h * factor)) by (nonlinear_arith);
                assert((w * factor) * (h * factor) <= (w * factor) * (h * factor) * 3) by (nonlinear_arith);
                Output::Indexed(image.scale_nearest(factor))
            },
            Output::Rgb(image) => Output::Rgb(scale_nearest(&image, factor)),
        }
    }
}

/// Widens RGB to the RGBA a canvas insists on: every pixel's three bytes, then a fully opaque alpha.
pub fn to_rgba(image: &RgbImage) -> (rgba: Vec<u8>)
    requires
        image.spec_width() * image.spec_height() * 4 <= usize::MAX,
    ensures
        rgba@.len() == image.spec_width() * image.spec_height() * 4,
        forall|i: int, c: int|
            0 <= i < image.spec_width() * image.spec_height() && 0 <= c < 4 ==> #[trigger] rgba@[i * 4 + c] == if c
                == 3 {
                255u8
            } else {
                image.pixels()[i * 3 + c]
            },
{
    let source = image.as_raw();
    let count = source.len() / 3;
    assert(count == image.spec_width() * image.spec_height());
    let mut rgba: Vec<u8> = Vec::new();
    let mut i: usize = 0;
    while i < count
        invariant
            i <= count,
            count * 3 == source@.len(),
            count * 4 <= usize::MAX,
            source@ == image.pixels(),
            rgba@.len() == i * 4,
            forall|j: int, c: int|
                0 <= j < i && 0 <= c < 4 ==> #[trigger] rgba@[j * 4 + c] == if c == 3 {
                    255u8
                } else {
                    source@[j * 3 + c]
                },
        decreases count - i,
    {
        let at = i * 3;
        let ghost before = rgba@;
        rgba.push(source[at]);
        rgba.push(source[at + 1]);
        rgba.push(source[at + 2]);
        rgba.push(255);
        proof {
            assert forall|j: int, c: int| 0 <= j < i + 1 && 0 <= c < 4 implies #[trigger] rgba@[j * 4 + c] == if c
                == 3 {
                255u8
            } else {
                source@[j * 3 + c]
            } by {
                if j < i {
                    assert(j * 4 + c < i * 4) by (nonlinear_arith)
                        requires
                            j < i,
                            c < 4,
                    ;
                    assert(rgba@[j * 4 + c] == before[j * 4 + c]);
                } else {
                    assert(j * 4 + c == i * 4 + c);
                    assert(j * 3 + c == i * 3 + c);
                }
            }
        }
        i = i + 1;
    }
    rgba
}

/// A finished render, ready for both the canvas and the download button.
#[derive(Debug)]
pub struct Frame {
    /// Straight-to-canvas pixels, four bytes each and fully opaque.
    pub rgba: Vec<u8>,
    pub width: u32,
    pub height: u32,
    /// The same image in the form it should be saved as.
    pub output: Output,
}

/// Stage three: what is shown for an output, four bytes a pixel, alongside the output itself for saving.
pub fn frame(output: Output) -> (frame: Frame)
    requires
        slots_in_palette(output),
        output_size(output).0 * output_size(output).1 * 4 <= usize::MAX,
    ensures
        frame.output == output,
        (frame.width, frame.height) == output_size(output),
        frame.rgba@.len() == frame.width * frame.height * 4,
        forall|i: int, c: int|
            0 <= i < frame.width * frame.height && 0 <= c < 4 ==> #[trigger] frame.rgba@[i * 4 + c] == if c == 3 {
                255u8
            } else {
                shown_channel(output, i, c)
            },
{
    let rgb = match &output {
        Output::Indexed(image) => {
            assert(image.spec_width() * image.spec_height() * 3 <= image.spec_width() * image.spec_height() * 4);
            image.to_rgb()
        },
        Output::Rgb(image) => image.duplicate(),
    };
    let rgba = to_rgba(&rgb);
    proof {
        if output is Indexed {
            let image = output->Indexed_0;
            assert forall|i: int, c: int| 0 <= i < rgb.spec_width() * rgb.spec_height() && 0 <= c < 3 implies rgb.pixels()[i * 3 + c]
                == shown_channel(output, i, c) by {
                assert(0 <= i < image.slots().len());
            }
        }
    }
    Frame { width: rgb.width(), height: rgb.height(), rgba, output }
}

/// The first `x` or `X` in `s`, which is where a `WIDTHxHEIGHT` size splits.
pub open spec fn first_separator(s: Seq<char>) -> Option<int>
    decreases s.len(),
{
    if s.len() == 0 {
        None
    } else if s[0] == 'x' || s[0] == 'X' {
        Some(0)
    } else {
        match first_separator(s.drop_first()) {
            Some(at) => Some(at + 1),
            None => None,
        }
    }
}

/// What reading `raw` as `WIDTHxHEIGHT` gives: the two sides, each trimmed and read as an unsigned number, or the
/// message that says what was wrong with it.
pub open spec fn spec_parse_size(raw: Seq<char>) -> Result<(u32, u32), Seq<char>> {
    match first_separator(raw) {
        None => Err("expected WIDTHxHEIGHT, got `"@ + raw + "`"@),
        Some(at) => {
            let width_text = raw.take(at);
            let height_text = raw.skip(at + 1);
            match spec_parse_u32(trim(width_text)) {
                None => Err("bad width `"@ + width_text + "`"@),
                Some(width) => match spec_parse_u32(trim(height_text)) {
                    None => Err("bad height `"@ + height_text + "`"@),
                    Some(height) => if width == 0 || height == 0 {
                        Err("width and height must be non-zero"@)
                    } else {
                        Ok((width, height))
                    },
                },
            }
        },
    }
}

/// Where `s` splits into a width and a height, if anywhere.
fn find_separator(s: &str) -> (at: Option<usize>)
    ensures
        at matches Some(i) ==> i < s@.len() && first_separator(s@) == Some(i as int),
        at is None ==> first_separator(s@) is None,
{
    let n = s.unicode_len();
    let mut i: usize = 0;
    assert(s@.skip(0) =~= s@);
    while i < n
        invariant
            i <= n,
            n == s@.len(),
            first_separator(s@) == (match first_separator(s@.skip(i as int)) {
                Some(at) => Some(at + i),
                None => None,
            }),
        decreases n - i,
    {
        let c = s.get_char(i);
        if c == 'x' || c == 'X' {
            return Some(i);
        }
        assert(s@.skip(i as int).drop_first() =~= s@.skip(i + 1));
        i = i + 1;
    }
    None
}

/// `prefix`, then `middle`, then `suffix`, as one string.
fn quoted(prefix: &str, middle: &str, suffix: &str) -> (text: String)
    ensures
        text@ == prefix@ + middle@ + suffix@,
{
    let mut text = String::from_str(prefix);
    text.append(middle);
    text.append(suffix);
    text
}

/// Reads a working size written as `WIDTHxHEIGHT`, with an `x` or an `X` between the two and whitespace allowed
/// around each. Both sides must be above zero.
pub fn parse_size(raw: &str) -> (size: Result<(u32, u32), String>)
    ensures
        match spec_parse_size(raw@) {
            Ok(pair) => size == Ok::<(u32, u32), String>(pair),
            Err(message) => size matches Err(text) && text@ == message,
        },
{
    let at = match find_separator(raw) {
        Some(at) => at,
        None => {
            return Err(quoted("expected WIDTHxHEIGHT, got `", raw, "`"));
        },
    };
    let n = raw.unicode_len();
    let width_text = raw.substring_char(0, at);
    let height_text = raw.substring_char(at + 1, n);
    assert(width_text@ =~= raw@.take(at as int));
    assert(height_text@ =~= raw@.skip(at + 1));
    let width = match parse_u32(trim_str(width_text)) {
        Some(width) => width,
        None => {
            return Err(quoted("bad width `", width_text, "`"));
        },
    };
    let height = match parse_u32(trim_str(height_text)) {
        Some(height) => height,
        None => {
            return Err(quoted("bad height `", height_text, "`"));
        },
    };
    if width == 0 || height == 0 {
        return Err(String::from_str("width and height must be non-zero"));
    }
    Ok((width, height))
}

} // verus!
