//! Decoding photos and encoding results, on bytes held in memory.
//!
//! Decoding goes through the `image` crate. Indexed PNGs are written with the `png` crate directly, because `image`
//! cannot write palette PNGs; plain RGB PNGs go through `image`. What those crates compute is not restated here: each
//! call's result is named, and the contracts say what is handed to it, when it succeeds, and what is done with what
//! comes back.

use vstd::prelude::*;

use crate::buffer::{IndexedImage, RgbImage};
use crate::palette::plte_bytes;

verus! {

#[verifier::external_type_specification]
#[verifier::external_body]
pub struct ExImageError(image::ImageError);

#[verifier::external_type_specification]
#[verifier::external_body]
pub struct ExEncodingError(png::EncodingError);

/// What `image` decodes `bytes` to, as an 8-bit RGB buffer: its width, its height and its raw samples; `None` when it
/// cannot decode them.
pub uninterp spec fn decoded_rgb(bytes: Seq<u8>) -> Option<(u32, u32, Seq<u8>)>;

/// The PNG `image` writes for `width` by `height` 8-bit RGB `pixels`, with its default settings.
pub uninterp spec fn rgb_png(width: u32, height: u32, pixels: Seq<u8>) -> Seq<u8>;

/// The indexed PNG `png` writes for `width` by `height` palette `slots` under `palette`, unfiltered and deflated at
/// level 3.
pub uninterp spec fn indexed_png(width: u32, height: u32, palette: Seq<u8>, slots: Seq<u8>) -> Seq<u8>;

/// Why reading or writing an image failed.
#[derive(Debug)]
pub enum IoError {
    /// `image` could not decode the bytes, or could not encode an RGB PNG.
    Decode(image::ImageError),
    /// `png` could not encode an indexed PNG.
    Encode(png::EncodingError),
}

/// `image::load_from_memory`, which sniffs the format from the bytes and decodes them, followed by
/// `DynamicImage::into_rgb8`. Decoding depends on the bytes alone, so its result is named. An `ImageBuffer` always
/// holds at least its width times its height times three samples.
#[verifier::external_body]
fn load_from_memory(bytes: &[u8]) -> (decoded: Result<(u32, u32, Vec<u8>), image::ImageError>)
    ensures
        decoded is Ok <==> decoded_rgb(bytes@) is Some,
        decoded matches Ok((width, height, pixels)) ==> decoded_rgb(bytes@) == Some((width, height, pixels@))
            && pixels@.len() >= width * height * 3,
{
    match image::load_from_memory(bytes) {
        Ok(decoded) => {
            let rgb = decoded.into_rgb8();
            Ok((rgb.width(), rgb.height(), rgb.into_raw()))
        },
        Err(error) => Err(error),
    }
}

/// `image::write_buffer_with_format` into a byte vector, as an 8-bit RGB PNG. The encoder asserts that the buffer
/// holds exactly `width * height * 3` samples, and the PNG header refuses a zero side, which is its only failure when
/// writing to memory.
#[verifier::external_body]
fn write_rgb_png(pixels: &[u8], width: u32, height: u32) -> (encoded: Result<Vec<u8>, image::ImageError>)
    requires
        pixels@.len() == width * height * 3,
    ensures
        encoded is Ok <==> (width > 0 && height > 0),
        encoded matches Ok(bytes) ==> bytes@ == rgb_png(width, height, pixels@),
{
    let mut out = Vec::new();
    let color = image::ExtendedColorType::Rgb8;
    let cursor = &mut std::io::Cursor::new(&mut out);
    match image::write_buffer_with_format(cursor, pixels, width, height, color, image::ImageFormat::Png) {
        Ok(()) => Ok(out),
        Err(error) => Err(error),
    }
}

/// `png::Encoder` writing an 8-bit indexed PNG into a byte vector, with row filtering off and deflate at level 3.
/// `write_header` refuses a zero side and `write_image_data` a slot count other than `width * height`; writing to
/// memory fails in no other way.
#[verifier::external_body]
fn write_indexed_png(slots: &[u8], width: u32, height: u32, palette: &[u8]) -> (encoded: Result<
    Vec<u8>,
    png::EncodingError,
>)
    requires
        slots@.len() == width * height,
    ensures
        encoded is Ok <==> (width > 0 && height > 0),
        encoded matches Ok(bytes) ==> bytes@ == indexed_png(width, height, palette@, slots@),
{
    let mut out = Vec::new();
    let mut encoder = png::Encoder::new(&mut out, width, height);
    encoder.set_color(png::ColorType::Indexed);
    encoder.set_depth(png::BitDepth::Eight);
    encoder.set_palette(palette);
    encoder.set_filter(png::Filter::NoFilter);
    encoder.set_deflate_compression(png::DeflateCompression::Level(3));
    let written = match encoder.write_header() {
        Ok(mut writer) => writer.write_image_data(slots),
        Err(error) => Err(error),
    };
    match written {
        Ok(()) => Ok(out),
        Err(error) => Err(error),
    }
}

/// `ToString::to_string` on an `image` error, which is its `Display` message.
#[verifier::external_body]
fn image_error_text(error: &image::ImageError) -> String {
    error.to_string()
}

/// `ToString::to_string` on a `png` error, which is its `Display` message.
#[verifier::external_body]
fn png_error_text(error: &png::EncodingError) -> String {
    error.to_string()
}

/// Decodes an encoded image held in memory into an RGB buffer.
///
/// The format is sniffed from the bytes, so an upload does not have to be trusted to name it correctly.
pub fn decode_rgb(bytes: &[u8]) -> (decoded: Result<RgbImage, IoError>)
    ensures
        decoded is Err <==> decoded_rgb(bytes@) is None,
        decoded matches Err(error) ==> error is Decode,
        decoded matches Ok(image) ==> decoded_rgb(bytes@) matches Some((width, height, pixels)) && image.spec_width()
            == width && image.spec_height() == height && image.pixels() == pixels.take(width * height * 3),
{
    match load_from_memory(bytes) {
        Ok((width, height, pixels)) => {
            let mut pixels = pixels;
            let have = pixels.len();
            assert(width * height <= width * height * 3 <= have) by (nonlinear_arith)
                requires
                    width * height * 3 <= have,
            ;
            let len = width as usize * height as usize * 3;
            pixels.truncate(len);
            Ok(RgbImage::from_raw(width, height, pixels).unwrap())
        },
        Err(error) => Err(IoError::Decode(error)),
    }
}

/// Encodes an RGB image as a PNG into a byte vector.
pub fn encode_rgb_png(image: &RgbImage) -> (encoded: Result<Vec<u8>, IoError>)
    ensures
        encoded is Ok <==> image.spec_width() > 0 && image.spec_height() > 0,
        encoded matches Ok(bytes) ==> bytes@ == rgb_png(image.spec_width(), image.spec_height(), image.pixels()),
        encoded matches Err(error) ==> error is Decode,
{
    match write_rgb_png(image.as_raw(), image.width(), image.height()) {
        Ok(bytes) => Ok(bytes),
        Err(error) => Err(IoError::Decode(error)),
    }
}

/// Encodes a palette image as an indexed PNG into a byte vector, the way PIL saves a `P` mode image.
///
/// Two settings are deliberately not the crate defaults, because a dithered palette image is not the kind of data they
/// assume. PNG's row filters predict a pixel from its neighbours, which pays off on smooth photographic bytes; these
/// bytes are palette slots, where the difference between two slots means nothing, so filtering is off. Deflate then
/// runs at level 3 rather than 6: past 3 it spends four times the time on this data for under two percent of size.
pub fn encode_indexed_png(image: &IndexedImage) -> (encoded: Result<Vec<u8>, IoError>)
    ensures
        encoded is Ok <==> image.spec_width() > 0 && image.spec_height() > 0,
        encoded matches Ok(bytes) ==> bytes@ == indexed_png(
            image.spec_width(),
            image.spec_height(),
            plte_bytes(image.spec_palette().spec_colors()),
            image.slots(),
        ),
        encoded matches Err(error) ==> error is Encode,
{
    let palette = image.palette().plte();
    match write_indexed_png(image.indices(), image.width(), image.height(), palette.as_slice()) {
        Ok(bytes) => Ok(bytes),
        Err(error) => Err(IoError::Encode(error)),
    }
}

/// What went wrong, in words.
pub fn describe(error: &IoError) -> (text: String)
    ensures
        error is Decode ==> text@.len() >= 24 && text@.take(24) == "could not decode image: "@,
        error is Encode ==> text@.len() >= 22 && text@.take(22) == "could not encode PNG: "@,
{
    proof {
        reveal_strlit("could not decode image: ");
        reveal_strlit("could not encode PNG: ");
    }
    match error {
        IoError::Decode(cause) => {
            let mut text = String::from_str("could not decode image: ");
            let detail = image_error_text(cause);
            text.append(detail.as_str());
            assert(text@.take(24) =~= "could not decode image: "@);
            text
        },
        IoError::Encode(cause) => {
            let mut text = String::from_str("could not encode PNG: ");
            let detail = png_error_text(cause);
            text.append(detail.as_str());
            assert(text@.take(22) =~= "could not encode PNG: "@);
            text
        },
    }
}

} // verus!
