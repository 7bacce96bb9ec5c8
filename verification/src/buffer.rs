//! The pixel buffers the pipeline passes around.
//!
//! [`RgbImage`] is a photo: three bytes per pixel, row major. [`IndexedImage`] is what a dither produces: one palette
//! slot per pixel, plus the palette the slots index. Both keep their length in step with their dimensions, so a
//! coordinate inside the image always lands inside the buffer.

use vstd::prelude::*;

use crate::palette::Palette;
use vstd::arithmetic::div_mod::lemma_fundamental_div_mod_converse;

verus! {

/// The byte a channel of a pixel sits at, in a row-major buffer of the given width.
pub open spec fn rgb_offset(width: int, x: int, y: int, channel: int) -> int {
    (y * width + x) * 3 + channel
}

/// The pixels of a `(x, y, width, height)` region of an RGB buffer `stride` pixels wide, row major.
pub open spec fn region_pixels(pixels: Seq<u8>, stride: int, rect: (u32, u32, u32, u32)) -> Seq<u8> {
    Seq::new(
        (rect.2 * rect.3 * 3) as nat,
        |i: int|
            pixels[rgb_offset(
                stride,
                rect.0 + (i / 3) % (rect.2 as int),
                rect.1 + (i / 3) / (rect.2 as int),
                i % 3,
            )],
    )
}

/// A photo: `width` by `height` pixels, three bytes each, row major.
#[derive(Debug, PartialEq, Eq)]
pub struct RgbImage {
    width: u32,
    height: u32,
    data: Vec<u8>,
}

impl RgbImage {
    #[verifier::type_invariant]
    spec fn well_formed(&self) -> bool {
        self.data@.len() == self.width * self.height * 3
    }

    /// Width in pixels.
    pub closed spec fn spec_width(&self) -> u32 {
        self.width
    }

    /// Height in pixels.
    pub closed spec fn spec_height(&self) -> u32 {
        self.height
    }

    /// The bytes, three per pixel, row major.
    pub closed spec fn pixels(&self) -> Seq<u8> {
        self.data@
    }

    /// Whether `pixels` is a buffer of the size `width` by `height` needs.
    pub open spec fn fits(width: u32, height: u32, pixels: Seq<u8>) -> bool {
        pixels.len() == width * height * 3
    }

    /// An all-black image.
    pub fn new(width: u32, height: u32) -> (image: RgbImage)
        requires
            width * height * 3 <= usize::MAX,
        ensures
            image.spec_width() == width,
            image.spec_height() == height,
            image.pixels() == Seq::new((width * height * 3) as nat, |i: int| 0u8),
    {
        let len = (width as usize) * (height as usize) * 3;
        let data: Vec<u8> = vec![0u8; len];
        proof {
            assert(data@ =~= Seq::new((width * height * 3) as nat, |i: int| 0u8));
        }
        RgbImage { width, height, data }
    }

    /// Every pixel the same colour.
    pub fn from_pixel(width: u32, height: u32, rgb: [u8; 3]) -> (image: RgbImage)
        requires
            width * height * 3 <= usize::MAX,
        ensures
            image.spec_width() == width,
            image.spec_height() == height,
            image.pixels() == Seq::new((width * height * 3) as nat, |i: int| rgb[i % 3]),
    {
        let len = (width as usize) * (height as usize) * 3;
        let mut data: Vec<u8> = Vec::new();
        let mut i: usize = 0;
        while i < len
            invariant
                i <= len,
                len == width * height * 3,
                data@.len() == i,
                forall|j: int| 0 <= j < i ==> #[trigger] data@[j] == rgb[j % 3],
            decreases len - i,
        {
            data.push(rgb[i % 3]);
            i = i + 1;
        }
        proof {
            assert(data@ =~= Seq::new((width * height * 3) as nat, |i: int| rgb[i % 3]));
        }
        RgbImage { width, height, data }
    }

    /// Wraps a buffer that already holds `width` by `height` pixels, or `None` when its length says otherwise.
    pub fn from_raw(width: u32, height: u32, data: Vec<u8>) -> (image: Option<RgbImage>)
        ensures
            image is Some <==> data@.len() == width * height * 3,
            image matches Some(image) ==> image.spec_width() == width && image.spec_height() == height
                && image.pixels() == data@,
    {
        let len = data.len();
        assert(usize::MAX <= u64::MAX);
        let needed = (width as u64).checked_mul(height as u64);
        match needed {
            Some(pixels) => {
                let bytes = pixels.checked_mul(3);
                match bytes {
                    Some(bytes) => {
                        if len as u64 == bytes {
                            Some(RgbImage { width, height, data })
                        } else {
                            None
                        }
                    },
                    None => None,
                }
            },
            None => None,
        }
    }

    pub fn width(&self) -> (width: u32)
        ensures
            width == self.spec_width(),
    {
        self.width
    }

    pub fn height(&self) -> (height: u32)
        ensures
            height == self.spec_height(),
    {
        self.height
    }

    /// `(width, height)`.
    pub fn dimensions(&self) -> (size: (u32, u32))
        ensures
            size == (self.spec_width(), self.spec_height()),
    {
        (self.width, self.height)
    }

    /// The bytes, three per pixel, row major.
    pub fn as_raw(&self) -> (bytes: &[u8])
        ensures
            bytes@ == self.pixels(),
            bytes@.len() == self.spec_width() * self.spec_height() * 3,
    {
        proof {
            use_type_invariant(self);
        }
        self.data.as_slice()
    }

    /// Gives the bytes up.
    pub fn into_raw(self) -> (bytes: Vec<u8>)
        ensures
            bytes@ == self.pixels(),
            bytes@.len() == self.spec_width() * self.spec_height() * 3,
    {
        proof {
            use_type_invariant(&self);
        }
        self.data
    }

    /// The colour at `(x, y)`.
    pub fn get_pixel(&self, x: u32, y: u32) -> (rgb: [u8; 3])
        requires
            x < self.spec_width(),
            y < self.spec_height(),
        ensures
            forall|c: int|
                0 <= c < 3 ==> rgb[c] == self.pixels()[rgb_offset(self.spec_width() as int, x as int, y as int, c)],
    {
        proof {
            use_type_invariant(self);
            lemma_offset_inside(self.width as int, self.height as int, x as int, y as int, 2);
        }
        let len = self.data.len();
        assert((y * self.width + x) * 3 + 2 < self.width * self.height * 3);
        assert(y * self.width <= (y * self.width + x) * 3 + 2) by (nonlinear_arith)
            requires
                x >= 0,
                y >= 0,
                self.width >= 0,
        ;
        let at = ((y as usize) * (self.width as usize) + (x as usize)) * 3;
        [self.data[at], self.data[at + 1], self.data[at + 2]]
    }

    /// An exact copy.
    pub fn duplicate(&self) -> (copy: RgbImage)
        ensures
            copy.spec_width() == self.spec_width(),
            copy.spec_height() == self.spec_height(),
            copy.pixels() == self.pixels(),
    {
        proof {
            use_type_invariant(self);
        }
        let data = self.data.clone();
        proof {
            assert(data@ =~= self.data@);
        }
        RgbImage { width: self.width, height: self.height, data }
    }
}

impl Clone for RgbImage {
    fn clone(&self) -> (copy: RgbImage)
        ensures
            copy.spec_width() == self.spec_width(),
            copy.spec_height() == self.spec_height(),
            copy.pixels() == self.pixels(),
    {
        self.duplicate()
    }
}

/// A coordinate inside a `width` by `height` image lands inside its buffer.
pub proof fn lemma_offset_inside(width: int, height: int, x: int, y: int, channel: int)
    requires
        0 <= x < width,
        0 <= y < height,
        0 <= channel < 3,
    ensures
        0 <= rgb_offset(width, x, y, channel) < width * height * 3,
        rgb_offset(width, x, y, channel) + (2 - channel) < width * height * 3,
{
    assert(0 <= (y * width + x) * 3 + channel) by (nonlinear_arith)
        requires
            0 <= x,
            0 <= y,
            0 <= width,
            0 <= channel,
    ;
    assert((y * width + x) * 3 + 2 < width * height * 3) by (nonlinear_arith)
        requires
            0 <= x < width,
            0 <= y < height,
    ;
}

/// A row-major RGB offset splits back into its pixel and channel.
pub proof fn lemma_offset_split(width: int, x: int, y: int, channel: int)
    requires
        0 <= x < width,
        0 <= y,
        0 <= channel < 3,
    ensures
        rgb_offset(width, x, y, channel) / 3 == y * width + x,
        rgb_offset(width, x, y, channel) % 3 == channel,
        (rgb_offset(width, x, y, channel) / 3) % width == x,
        (rgb_offset(width, x, y, channel) / 3) / width == y,
{
    lemma_fundamental_div_mod_converse(rgb_offset(width, x, y, channel), 3, y * width + x, channel);
    lemma_fundamental_div_mod_converse(y * width + x, width, y, x);
}

/// Every offset below `width * height * 3` is some pixel's channel.
pub proof fn lemma_offset_join(width: int, height: int, k: int)
    requires
        width > 0,
        height >= 0,
        0 <= k < width * height * 3,
    ensures
        0 <= (k / 3) % width < width,
        0 <= (k / 3) / width < height,
        0 <= k % 3 < 3,
        k == rgb_offset(width, (k / 3) % width, (k / 3) / width, k % 3),
{
    let p = k / 3;
    assert(k == p * 3 + k % 3 && 0 <= k % 3 < 3) by (nonlinear_arith)
        requires
            p == k / 3,
            k >= 0,
    ;
    assert(p == (p / width) * width + p % width && 0 <= p % width < width) by (nonlinear_arith)
        requires
            width > 0,
            p >= 0,
    ;
    assert(p < width * height) by (nonlinear_arith)
        requires
            p == k / 3,
            0 <= k < width * height * 3,
    ;
    assert(p / width < height) by (nonlinear_arith)
        requires
            width > 0,
            0 <= p < width * height,
    ;
    assert(p / width >= 0) by (nonlinear_arith)
        requires
            width > 0,
            p >= 0,
    ;
    assert(p == (p / width) * width + p % width);
    assert(rgb_offset(width, p % width, p / width, k % 3) == ((p / width) * width + p % width) * 3 + k % 3);
}

/// The region that is the whole image is the image.
pub proof fn lemma_whole_region(pixels: Seq<u8>, width: u32, height: u32)
    requires
        pixels.len() == width * height * 3,
    ensures
        region_pixels(pixels, width as int, (0, 0, width, height)) == pixels,
{
    let region = region_pixels(pixels, width as int, (0, 0, width, height));
    if width > 0 {
        assert forall|k: int| 0 <= k < pixels.len() implies region[k] == pixels[k] by {
            lemma_offset_join(width as int, height as int, k);
        }
    } else {
        assert(width * height * 3 == 0);
    }
    assert(region =~= pixels);
}

/// One pixel of a region is the matching pixel of the image it was cut from.
pub proof fn lemma_region_pixel(pixels: Seq<u8>, stride: int, rect: (u32, u32, u32, u32), x: int, y: int, channel: int)
    requires
        0 <= x < rect.2,
        0 <= y < rect.3,
        0 <= channel < 3,
    ensures
        0 <= rgb_offset(rect.2 as int, x, y, channel) < region_pixels(pixels, stride, rect).len(),
        region_pixels(pixels, stride, rect)[rgb_offset(rect.2 as int, x, y, channel)] == pixels[rgb_offset(
            stride,
            rect.0 + x,
            rect.1 + y,
            channel,
        )],
{
    lemma_offset_split(rect.2 as int, x, y, channel);
    lemma_offset_inside(rect.2 as int, rect.3 as int, x, y, channel);
}

/// The slots a dither picked, one per pixel, and the palette they index.
#[derive(Debug)]
pub struct IndexedImage {
    width: u32,
    height: u32,
    indices: Vec<u8>,
    palette: Palette,
}

impl IndexedImage {
    #[verifier::type_invariant]
    spec fn well_formed(&self) -> bool {
        self.indices@.len() == self.width * self.height
    }

    pub closed spec fn spec_width(&self) -> u32 {
        self.width
    }

    pub closed spec fn spec_height(&self) -> u32 {
        self.height
    }

    /// The slots, one per pixel, row major.
    pub closed spec fn slots(&self) -> Seq<u8> {
        self.indices@
    }

    pub closed spec fn spec_palette(&self) -> Palette {
        self.palette
    }

    /// Wraps `width` by `height` slots and the palette they index, or `None` when the slot count says otherwise.
    pub fn new(width: u32, height: u32, indices: Vec<u8>, palette: Palette) -> (image: Option<IndexedImage>)
        ensures
            image is Some <==> indices@.len() == width * height,
            image matches Some(image) ==> image.spec_width() == width && image.spec_height() == height
                && image.slots() == indices@ && image.spec_palette() == palette,
    {
        let len = indices.len();
        assert(usize::MAX <= u64::MAX);
        match (width as u64).checked_mul(height as u64) {
            Some(count) => {
                if len as u64 == count {
                    Some(IndexedImage { width, height, indices, palette })
                } else {
                    None
                }
            },
            None => None,
        }
    }

    pub fn width(&self) -> (width: u32)
        ensures
            width == self.spec_width(),
    {
        self.width
    }

    pub fn height(&self) -> (height: u32)
        ensures
            height == self.spec_height(),
    {
        self.height
    }

    /// `(width, height)`.
    pub fn size(&self) -> (size: (u32, u32))
        ensures
            size == (self.spec_width(), self.spec_height()),
    {
        (self.width, self.height)
    }

    /// The raw palette slots, row major.
    pub fn indices(&self) -> (slots: &[u8])
        ensures
            slots@ == self.slots(),
            slots@.len() == self.spec_width() * self.spec_height(),
    {
        proof {
            use_type_invariant(self);
        }
        self.indices.as_slice()
    }

    pub fn palette(&self) -> (palette: &Palette)
        ensures
            *palette == self.spec_palette(),
    {
        &self.palette
    }

    /// An exact copy.
    pub fn duplicate(&self) -> (copy: IndexedImage)
        ensures
            copy.spec_width() == self.spec_width(),
            copy.spec_height() == self.spec_height(),
            copy.slots() == self.slots(),
            copy.spec_palette() == self.spec_palette(),
    {
        proof {
            use_type_invariant(self);
        }
        let indices = self.indices.clone();
        proof {
            assert(indices@ =~= self.indices@);
        }
        IndexedImage { width: self.width, height: self.height, indices, palette: self.palette }
    }
}

impl IndexedImage {
    /// Expands the slots back into a full RGB image, each pixel the colour its slot names.
    pub fn to_rgb(&self) -> (rgb: RgbImage)
        requires
            self.spec_width() * self.spec_height() * 3 <= usize::MAX,
            forall|i: int| 0 <= i < self.slots().len() ==> #[trigger] self.slots()[i] < 6,
        ensures
            rgb.spec_width() == self.spec_width(),
            rgb.spec_height() == self.spec_height(),
            self.slots().len() == self.spec_width() * self.spec_height(),
            forall|i: int, c: int|
                0 <= i < self.slots().len() && 0 <= c < 3 ==> #[trigger] rgb.pixels()[i * 3 + c]
                    == self.spec_palette().spec_colors()[self.slots()[i] as int][c],
    {
        proof {
            use_type_invariant(self);
        }
        let count = self.indices.len();
        let colors = self.palette.colors();
        let mut data: Vec<u8> = Vec::new();
        let mut i: usize = 0;
        while i < count
            invariant
                i <= count,
                count == self.indices@.len(),
                count == self.width * self.height,
                self.width * self.height * 3 <= usize::MAX,
                colors@ == self.palette.spec_colors(),
                colors@.len() == 6,
                forall|j: int| 0 <= j < count ==> #[trigger] self.slots()[j] < 6,
                data@.len() == i * 3,
                forall|j: int, c: int|
                    0 <= j < i && 0 <= c < 3 ==> #[trigger] data@[j * 3 + c] == colors@[self.indices@[j] as int][c],
            decreases count - i,
        {
            let slot = self.indices[i];
            assert(self.slots()[i as int] == slot);
            let color = colors[slot as usize];
            let ghost before = data@;
            data.push(color[0]);
            data.push(color[1]);
            data.push(color[2]);
            proof {
                assert forall|j: int, c: int| 0 <= j < i + 1 && 0 <= c < 3 implies #[trigger] data@[j * 3 + c]
                    == colors@[self.indices@[j] as int][c] by {
                    if j < i {
                        assert(j * 3 + c < i * 3) by (nonlinear_arith)
                            requires
                                j < i,
                                c < 3,
                        ;
                        assert(data@[j * 3 + c] == before[j * 3 + c]);
                    } else {
                        assert(j * 3 + c == i * 3 + c);
                    }
                }
            }
            i = i + 1;
        }
        RgbImage::from_raw(self.width, self.height, data).unwrap()
    }

    /// Rotates a quarter turn counter-clockwise, matching PIL's `Image.rotate(90, expand=True)`: the result is
    /// `height` wide and `width` tall, and its pixel `(x, y)` is this image's `(width - 1 - y, x)`.
    pub fn rotate90_ccw(&self) -> (rotated: IndexedImage)
        ensures
            rotated.spec_width() == self.spec_height(),
            rotated.spec_height() == self.spec_width(),
            rotated.spec_palette() == self.spec_palette(),
            rotated.slots() == spec_rotated_ccw(self.slots(), self.spec_width() as int, self.spec_height() as int),
    {
        proof {
            use_type_invariant(self);
        }
        let slots = rotate_slots_ccw(self.width, self.height, self.indices.as_slice());
        IndexedImage::new(self.height, self.width, slots, self.palette).unwrap()
    }

    /// Nearest-neighbour integer upscale, which keeps the dither pattern crisp rather than smearing it: every slot is
    /// repeated `factor` times in both directions.
    pub fn scale_nearest(&self, factor: u32) -> (scaled: IndexedImage)
        requires
            self.spec_width() * factor <= u32::MAX,
            self.spec_height() * factor <= u32::MAX,
            self.spec_width() * factor * self.spec_height() * factor <= usize::MAX,
        ensures
            scaled.spec_width() == self.spec_width() * factor,
            scaled.spec_height() == self.spec_height() * factor,
            scaled.spec_palette() == self.spec_palette(),
            factor >= 1 && scaled.spec_width() < crate::resize::NEAREST_EXACT_LIMIT && scaled.spec_height()
                < crate::resize::NEAREST_EXACT_LIMIT ==> forall|x: int, y: int|
                0 <= x < scaled.spec_width() && 0 <= y < scaled.spec_height() ==> #[trigger] scaled.slots()[y
                    * scaled.spec_width() + x] == self.slots()[(y / (factor as int)) * self.spec_width() + x
                    / (factor as int)],
    {
        proof {
            use_type_invariant(self);
        }
        let new_width = self.width * factor;
        let new_height = self.height * factor;
        let slots = upscale_slots_nearest(
            self.width,
            self.height,
            self.indices.as_slice(),
            factor,
            new_width,
            new_height,
        );
        assert(self.width * factor * self.height * factor == (self.width * factor) * (self.height * factor))
            by (nonlinear_arith);
        IndexedImage::new(new_width, new_height, slots, self.palette).unwrap()
    }
}

/// The slots of a `width` by `height` image turned a quarter counter-clockwise: `height` wide, `width` tall, and slot
/// `(x, y)` is the unturned image's `(width - 1 - y, x)`.
pub open spec fn spec_rotated_ccw(slots: Seq<u8>, width: int, height: int) -> Seq<u8> {
    Seq::new((width * height) as nat, |i: int| slots[(i % height) * width + (width - 1 - i / height)])
}

/// `image::imageops::rotate270` on the slots held as an `image::GrayImage`.
///
/// Claims what the crate's `rotate270_in` does pixel by pixel: it writes source pixel `(x, y)` to `(y, width - 1 - x)`
/// of a `height` by `width` destination, which is [`spec_rotated_ccw`].
#[verifier::external_body]
fn rotate_slots_ccw(width: u32, height: u32, slots: &[u8]) -> (rotated: Vec<u8>)
    requires
        slots@.len() == width * height,
    ensures
        rotated@ == spec_rotated_ccw(slots@, width as int, height as int),
{
    let source = ::image::GrayImage::from_raw(width, height, slots.to_vec()).unwrap();
    ::image::imageops::rotate270(&source).into_raw()
}

/// `image::imageops::resize` with `FilterType::Nearest` on the slots held as an `image::GrayImage`, to
/// `new_width` by `new_height`, which are `factor` times each side.
///
/// Claims the size, and, while both new sides stay under [`NEAREST_EXACT_LIMIT`](crate::resize::NEAREST_EXACT_LIMIT),
/// that slot `(x, y)` of the result is slot `(x / factor, y / factor)` of the source: the filter takes the one source
/// pixel under each output pixel's centre, and below that limit its `f32` arithmetic cannot move the centre across a
/// pixel boundary.
#[verifier::external_body]
fn upscale_slots_nearest(
    width: u32,
    height: u32,
    slots: &[u8],
    factor: u32,
    new_width: u32,
    new_height: u32,
) -> (scaled: Vec<u8>)
    requires
        slots@.len() == width * height,
        new_width == width * factor,
        new_height == height * factor,
        width * factor * height * factor <= usize::MAX,
    ensures
        scaled@.len() == width * factor * height * factor,
        factor >= 1 && width * factor < crate::resize::NEAREST_EXACT_LIMIT && height * factor
            < crate::resize::NEAREST_EXACT_LIMIT ==> forall|x: int, y: int|
            0 <= x < width * factor && 0 <= y < height * factor ==> #[trigger] scaled@[y * (width * factor) + x]
                == slots@[(y / (factor as int)) * width + x / (factor as int)],
{
    let source = ::image::GrayImage::from_raw(width, height, slots.to_vec()).unwrap();
    ::image::imageops::resize(&source, new_width, new_height, ::image::imageops::FilterType::Nearest).into_raw()
}

impl Clone for IndexedImage {
    fn clone(&self) -> (copy: IndexedImage)
        ensures
            copy.spec_width() == self.spec_width(),
            copy.spec_height() == self.spec_height(),
            copy.slots() == self.slots(),
            copy.spec_palette() == self.spec_palette(),
    {
        self.duplicate()
    }
}

} // verus!
