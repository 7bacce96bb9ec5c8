//! Scaling a photo, or the part of it the framing kept, to the working size.
//!
//! The geometry in [`crate::geometry`] decides the rectangle and the size; this module reads that rectangle and
//! produces that size. The resampling filters are the `image` crate's own and are reached through the wrappers at the
//! bottom of this file. The box prefilter is written here.

use vstd::prelude::*;

use crate::buffer::{
    RgbImage, lemma_offset_inside, lemma_offset_join, lemma_offset_split, lemma_region_pixel, lemma_whole_region,
    region_pixels, rgb_offset,
};
use vstd::arithmetic::div_mod::lemma_fundamental_div_mod_converse;
use vstd::arithmetic::power2::{lemma2_to64, lemma2_to64_rest, lemma_pow2_adds, lemma_pow2_pos, lemma_pow2_unfold, pow2};

use crate::binary64::{FRACTION_SPAN, ONE, SIGN_BIT, is_finite, is_negative, scale, significand};
use crate::rounding::{
    exponent_of, lemma_exponent_below, lemma_exponent_bounds, lemma_exponent_unique, lemma_mantissa_bounds,
    lemma_pow2_100, lemma_pow2_grows, nearest_whole, rne, rne_mantissa, rne_scale, whole,
};
use crate::geometry::{
    CropOrigin, FitOptions, cover_rect, fitted_rect, fitted_size, lemma_cover_rect_inside,
    lemma_prefilter_never_undershoots, prefilter_factor,
    spec_cover_rect, spec_fitted_rect, spec_fitted_size, spec_prefilter_factor,
};

verus! {

/// What the `image` crate's triangle filter makes of a `width` by `height` RGB buffer resampled to `new_width` by
/// `new_height`.
pub uninterp spec fn triangle_resampled(pixels: Seq<u8>, width: u32, height: u32, new_width: u32, new_height: u32) -> Seq<u8>;

/// Whether a `(x, y, width, height)` rectangle lies inside a `width` by `height` image.
pub open spec fn rect_inside(rect: (u32, u32, u32, u32), width: u32, height: u32) -> bool {
    rect.0 + rect.2 <= width && rect.1 + rect.3 <= height
}

/// The sum of one channel over `n` pixels of a row, starting at `(x, y)`.
pub open spec fn row_sum(pixels: Seq<u8>, stride: int, x: int, y: int, channel: int, n: nat) -> int
    decreases n,
{
    if n == 0 {
        0
    } else {
        row_sum(pixels, stride, x, y, channel, (n - 1) as nat) + pixels[rgb_offset(stride, x + n - 1, y, channel)]
    }
}

/// The sum of one channel over the `side` by `rows` block whose top-left pixel is `(x, y)`.
pub open spec fn block_sum(pixels: Seq<u8>, stride: int, x: int, y: int, channel: int, side: nat, rows: nat) -> int
    decreases rows,
{
    if rows == 0 {
        0
    } else {
        block_sum(pixels, stride, x, y, channel, side, (rows - 1) as nat) + row_sum(
            pixels,
            stride,
            x,
            y + rows - 1,
            channel,
            side,
        )
    }
}

/// The average of one channel over the `factor` by `factor` block at `(x, y)`, rounded to nearest.
pub open spec fn block_average(pixels: Seq<u8>, stride: int, x: int, y: int, channel: int, factor: nat) -> int {
    (block_sum(pixels, stride, x, y, channel, factor, factor) + (factor * factor) / 2) / ((factor * factor) as int)
}

/// The region `rect` of a `stride`-wide image reduced by averaging whole `factor` by `factor` blocks. The last few
/// rows and columns are dropped when a side is not a multiple of `factor`.
pub open spec fn box_reduced(pixels: Seq<u8>, stride: int, rect: (u32, u32, u32, u32), factor: u32) -> Seq<u8> {
    let out_w = rect.2 / factor;
    let out_h = rect.3 / factor;
    Seq::new(
        (out_w * out_h * 3) as nat,
        |i: int|
            block_average(
                pixels,
                stride,
                rect.0 + ((i / 3) % (out_w as int)) * factor,
                rect.1 + ((i / 3) / (out_w as int)) * factor,
                i % 3,
                factor as nat,
            ) as u8,
    )
}

/// What [`resize_region`] makes of the region `rect` of a `stride`-wide image, scaled to `target`.
///
/// A region already at the target size is copied as it is. Otherwise a region under twice the target on either side
/// goes straight through the triangle filter, and a larger one is box-reduced first by [`spec_prefilter_factor`].
pub open spec fn spec_resize_region(pixels: Seq<u8>, stride: int, rect: (u32, u32, u32, u32), target: (u32, u32)) -> Seq<
    u8,
> {
    let factor = spec_prefilter_factor((rect.2, rect.3), target);
    if (rect.2, rect.3) == target {
        region_pixels(pixels, stride, rect)
    } else if factor == 1 {
        triangle_resampled(region_pixels(pixels, stride, rect), rect.2, rect.3, target.0, target.1)
    } else {
        triangle_resampled(
            box_reduced(pixels, stride, rect, factor),
            rect.2 / factor,
            rect.3 / factor,
            target.0,
            target.1,
        )
    }
}

/// A row of a region sums as the same row of the image it was cut from.
proof fn lemma_row_sum_in_region(
    pixels: Seq<u8>,
    stride: int,
    rect: (u32, u32, u32, u32),
    x: int,
    y: int,
    channel: int,
    n: nat,
)
    requires
        0 <= x,
        x + n <= rect.2,
        0 <= y < rect.3,
        0 <= channel < 3,
    ensures
        row_sum(pixels, stride, rect.0 + x, rect.1 + y, channel, n) == row_sum(
            region_pixels(pixels, stride, rect),
            rect.2 as int,
            x,
            y,
            channel,
            n,
        ),
    decreases n,
{
    if n > 0 {
        lemma_row_sum_in_region(pixels, stride, rect, x, y, channel, (n - 1) as nat);
        lemma_region_pixel(pixels, stride, rect, x + n - 1, y, channel);
        assert(rect.0 + x + n - 1 == rect.0 + (x + n - 1));
    }
}

/// A block of a region sums as the same block of the image it was cut from.
proof fn lemma_block_sum_in_region(
    pixels: Seq<u8>,
    stride: int,
    rect: (u32, u32, u32, u32),
    x: int,
    y: int,
    channel: int,
    side: nat,
    rows: nat,
)
    requires
        0 <= x,
        x + side <= rect.2,
        0 <= y,
        y + rows <= rect.3,
        0 <= channel < 3,
    ensures
        block_sum(pixels, stride, rect.0 + x, rect.1 + y, channel, side, rows) == block_sum(
            region_pixels(pixels, stride, rect),
            rect.2 as int,
            x,
            y,
            channel,
            side,
            rows,
        ),
    decreases rows,
{
    if rows > 0 {
        lemma_block_sum_in_region(pixels, stride, rect, x, y, channel, side, (rows - 1) as nat);
        lemma_row_sum_in_region(pixels, stride, rect, x, y + rows - 1, channel, side);
        assert(rect.1 + y + rows - 1 == rect.1 + (y + rows - 1));
    }
}

/// Resizing a region of a photo is resizing that region cut out on its own: whichever path the resize takes (a copy,
/// the triangle filter alone, or the box prefilter first), nothing outside the rectangle is read, and its top-left
/// pixel is where the region starts.
pub proof fn lemma_resize_reads_only_the_region(
    pixels: Seq<u8>,
    stride: int,
    rect: (u32, u32, u32, u32),
    target: (u32, u32),
)
    ensures
        spec_resize_region(pixels, stride, rect, target) == spec_resize_region(
            region_pixels(pixels, stride, rect),
            rect.2 as int,
            (0, 0, rect.2, rect.3),
            target,
        ),
{
    let region = region_pixels(pixels, stride, rect);
    lemma_whole_region(region, rect.2, rect.3);
    lemma_prefilter_never_undershoots((rect.2, rect.3), target);
    let factor = spec_prefilter_factor((rect.2, rect.3), target);
    if (rect.2, rect.3) != target && factor != 1 {
        let f = factor as int;
        let w = rect.2 as int;
        let h = rect.3 as int;
        let out_w = w / f;
        let out_h = h / f;
        let left = box_reduced(pixels, stride, rect, factor);
        let right = box_reduced(region, w, (0, 0, rect.2, rect.3), factor);
        assert forall|i: int| 0 <= i < left.len() implies left[i] == right[i] by {
            let bx = (i / 3) % out_w;
            let by = (i / 3) / out_w;
            let c = i % 3;
            lemma_offset_join(out_w, out_h, i);
            assert((bx + 1) * f <= w && (by + 1) * f <= h) by (nonlinear_arith)
                requires
                    0 <= bx < out_w,
                    0 <= by < out_h,
                    out_w == w / f,
                    out_h == h / f,
                    f >= 1,
            ;
            assert((bx + 1) * f == bx * f + f && (by + 1) * f == by * f + f) by (nonlinear_arith);
            assert(bx * f >= 0 && by * f >= 0) by (nonlinear_arith)
                requires
                    bx >= 0,
                    by >= 0,
                    f >= 1,
            ;
            lemma_block_sum_in_region(pixels, stride, rect, bx * f, by * f, c, factor as nat, factor as nat);
        }
        assert(left =~= right);
    }
}

/// Whether a `width` by `height` RGB buffer can be allocated.
pub open spec fn allocatable(size: (u32, u32)) -> bool {
    size.0 * size.1 * 3 <= usize::MAX
}

proof fn lemma_row_sum_bounds(pixels: Seq<u8>, stride: int, x: int, y: int, channel: int, n: nat)
    ensures
        0 <= row_sum(pixels, stride, x, y, channel, n) <= 255 * n,
    decreases n,
{
    if n > 0 {
        lemma_row_sum_bounds(pixels, stride, x, y, channel, (n - 1) as nat);
    }
}

proof fn lemma_block_sum_bounds(pixels: Seq<u8>, stride: int, x: int, y: int, channel: int, side: nat, rows: nat)
    ensures
        0 <= block_sum(pixels, stride, x, y, channel, side, rows) <= 255 * side * rows,
    decreases rows,
{
    if rows > 0 {
        lemma_block_sum_bounds(pixels, stride, x, y, channel, side, (rows - 1) as nat);
        lemma_row_sum_bounds(pixels, stride, x, y + rows - 1, channel, side);
        assert(255 * side * (rows - 1) + 255 * side == 255 * side * rows) by (nonlinear_arith);
    }
}

/// A rounded block average is a channel value.
proof fn lemma_block_average_is_a_channel(pixels: Seq<u8>, stride: int, x: int, y: int, channel: int, factor: nat)
    requires
        factor >= 1,
    ensures
        0 <= block_average(pixels, stride, x, y, channel, factor) <= 255,
{
    let sum = block_sum(pixels, stride, x, y, channel, factor, factor);
    lemma_block_sum_bounds(pixels, stride, x, y, channel, factor, factor);
    let count = factor * factor;
    assert(count >= 1) by (nonlinear_arith)
        requires
            factor >= 1,
            count == factor * factor,
    ;
    assert(sum <= 255 * count) by (nonlinear_arith)
        requires
            sum <= 255 * factor * factor,
            count == factor * factor,
    ;
    assert((sum + count / 2) / (count as int) <= 255) by (nonlinear_arith)
        requires
            0 <= sum <= 255 * count,
            count >= 1,
    ;
    assert((sum + count / 2) / (count as int) >= 0) by (nonlinear_arith)
        requires
            0 <= sum,
            count >= 1,
    ;
}

/// The pixel `(x + dx, y + dy)` of a block that starts at block `(bx, by)` of a reduced region lies inside the region.
proof fn lemma_block_pixel_inside(
    rect: (u32, u32, u32, u32),
    factor: int,
    bx: int,
    by: int,
    dx: int,
    dy: int,
)
    requires
        factor >= 1,
        0 <= bx < (rect.2 as int) / factor,
        0 <= by < (rect.3 as int) / factor,
        0 <= dx < factor,
        0 <= dy < factor,
    ensures
        0 <= bx * factor + dx < rect.2,
        0 <= by * factor + dy < rect.3,
{
    assert(0 <= bx * factor + dx < rect.2) by (nonlinear_arith)
        requires
            factor >= 1,
            0 <= bx < (rect.2 as int) / factor,
            0 <= dx < factor,
    ;
    assert(0 <= by * factor + dy < rect.3) by (nonlinear_arith)
        requires
            factor >= 1,
            0 <= by < (rect.3 as int) / factor,
            0 <= dy < factor,
    ;
}

/// Averages whole `factor` by `factor` blocks of the `(x, y, width, height)` region, rounding to nearest.
///
/// The last few source rows and columns are dropped when the side is not a multiple of `factor`. That is at most
/// `factor - 1` pixels off an edge that is thousands wide, and it keeps every block the same weight. The region is
/// read in place, so a crop never costs the copy that materialising the sub-image would.
pub fn box_reduce(image: &RgbImage, rect: (u32, u32, u32, u32), factor: u32) -> (reduced: RgbImage)
    requires
        factor >= 1,
        rect_inside(rect, image.spec_width(), image.spec_height()),
        allocatable((rect.2 / factor, rect.3 / factor)),
    ensures
        reduced.spec_width() == rect.2 / factor,
        reduced.spec_height() == rect.3 / factor,
        reduced.pixels() == box_reduced(image.pixels(), image.spec_width() as int, rect, factor),
{
    let (x0, y0, width, height) = rect;
    let stride = image.width();
    let src = image.as_raw();
    let src_len = src.len();
    let out_w = width / factor;
    let out_h = height / factor;
    let ghost spec_out = box_reduced(image.pixels(), stride as int, rect, factor);
    let f = factor as u64;
    assert(f * f <= u32::MAX * u32::MAX && f * f >= 1) by (nonlinear_arith)
        requires
            1 <= f <= u32::MAX,
    ;
    // Wide enough that a block of any size an image can hold sums without overflowing.
    let count: u128 = (f as u128) * (f as u128);
    let half: u128 = count / 2;
    let mut out: Vec<u8> = Vec::new();
    let mut by: u32 = 0;
    while by < out_h
        invariant
            0 <= by <= out_h,
            out_w == width / factor,
            out_h == height / factor,
            f == factor,
            factor >= 1,
            count == f * f,
            count >= 1,
            half == count / 2,
            rect == (x0, y0, width, height),
            src@ == image.pixels(),
            src_len == src@.len(),
            src@.len() == stride * image.spec_height() * 3,
            stride == image.spec_width(),
            rect_inside(rect, stride, image.spec_height()),
            out_w * out_h * 3 <= usize::MAX,
            spec_out == box_reduced(image.pixels(), stride as int, rect, factor),
            spec_out.len() == out_w * out_h * 3,
            out@.len() == by * out_w * 3,
            forall|k: int| 0 <= k < out@.len() ==> #[trigger] out@[k] == spec_out[k],
        decreases out_h - by,
    {
        let mut bx: u32 = 0;
        while bx < out_w
            invariant
                0 <= bx <= out_w,
                0 <= by < out_h,
                out_w == width / factor,
                out_h == height / factor,
                f == factor,
                factor >= 1,
                count == f * f,
                count >= 1,
                half == count / 2,
                rect == (x0, y0, width, height),
                src@ == image.pixels(),
                src_len == src@.len(),
                src@.len() == stride * image.spec_height() * 3,
                stride == image.spec_width(),
                rect_inside(rect, stride, image.spec_height()),
                out_w * out_h * 3 <= usize::MAX,
                spec_out == box_reduced(image.pixels(), stride as int, rect, factor),
                spec_out.len() == out_w * out_h * 3,
                out@.len() == (by * out_w + bx) * 3,
                forall|k: int| 0 <= k < out@.len() ==> #[trigger] out@[k] == spec_out[k],
            decreases out_w - bx,
        {
            proof {
                assert(bx * factor < width && by * factor < height) by (nonlinear_arith)
                    requires
                        factor >= 1,
                        0 <= bx < width / factor,
                        0 <= by < height / factor,
                ;
            }
            let left = x0 as u64 + (bx as u64) * f;
            let top = y0 as u64 + (by as u64) * f;
            let ghost gx = x0 + bx * factor;
            let ghost gy = y0 + by * factor;
            let mut acc: [u128; 3] = [0, 0, 0];
            let mut dy: u64 = 0;
            while dy < f
                invariant
                    0 <= dy <= f,
                    f == factor,
                    factor >= 1,
                    0 <= bx < out_w,
                    0 <= by < out_h,
                    out_w == width / factor,
                    out_h == height / factor,
                    left == gx,
                    top == gy,
                    gx == x0 + bx * factor,
                    gy == y0 + by * factor,
                    rect == (x0, y0, width, height),
                    src@ == image.pixels(),
                    src_len == src@.len(),
                    src@.len() == stride * image.spec_height() * 3,
                    stride == image.spec_width(),
                    rect_inside(rect, stride, image.spec_height()),
                    forall|c: int|
                        0 <= c < 3 ==> #[trigger] acc[c] == block_sum(
                            image.pixels(),
                            stride as int,
                            gx,
                            gy,
                            c,
                            factor as nat,
                            dy as nat,
                        ),
                    forall|c: int| 0 <= c < 3 ==> #[trigger] acc[c] <= 255 * factor * dy,
                decreases f - dy,
            {
                let mut dx: u64 = 0;
                let ghost before = acc;
                while dx < f
                    invariant
                        0 <= dx <= f,
                        0 <= dy < f,
                        f == factor,
                        factor >= 1,
                        0 <= bx < out_w,
                        0 <= by < out_h,
                        out_w == width / factor,
                        out_h == height / factor,
                        left == gx,
                        top == gy,
                        gx == x0 + bx * factor,
                        gy == y0 + by * factor,
                        rect == (x0, y0, width, height),
                        src@ == image.pixels(),
                        src_len == src@.len(),
                        src@.len() == stride * image.spec_height() * 3,
                        stride == image.spec_width(),
                        rect_inside(rect, stride, image.spec_height()),
                        forall|c: int|
                            0 <= c < 3 ==> #[trigger] acc[c] == before[c] + row_sum(
                                image.pixels(),
                                stride as int,
                                gx,
                                gy + dy,
                                c,
                                dx as nat,
                            ),
                        forall|c: int| 0 <= c < 3 ==> #[trigger] before[c] <= 255 * factor * dy,
                        forall|c: int| 0 <= c < 3 ==> #[trigger] acc[c] <= 255 * factor * dy + 255 * dx,
                    decreases f - dx,
                {
                    proof {
                        lemma_block_pixel_inside(rect, factor as int, bx as int, by as int, dx as int, dy as int);
                        lemma_offset_inside(
                            stride as int,
                            image.spec_height() as int,
                            gx + dx,
                            gy + dy,
                            0,
                        );
                        assert((gy + dy) * stride <= rgb_offset(stride as int, gx + dx, gy + dy, 0))
                            by (nonlinear_arith)
                            requires
                                gx + dx >= 0,
                                gy + dy >= 0,
                                stride >= 0,
                        ;
                        assert(255 * factor * dy + 255 * dx + 255 <= 255 * factor * u32::MAX + 255 * u32::MAX + 255)
                            by (nonlinear_arith)
                            requires
                                factor <= u32::MAX,
                                dy < factor,
                                dx < factor,
                        ;
                    }
                    let at = (((top + dy) * (stride as u64) + (left + dx)) * 3) as usize;
                    assert(at == rgb_offset(stride as int, gx + dx, gy + dy, 0));
                    acc[0] = acc[0] + src[at] as u128;
                    acc[1] = acc[1] + src[at + 1] as u128;
                    acc[2] = acc[2] + src[at + 2] as u128;
                    proof {
                        assert(rgb_offset(stride as int, gx + dx, gy + dy, 1) == at + 1);
                        assert(rgb_offset(stride as int, gx + dx, gy + dy, 2) == at + 2);
                    }
                    dx = dx + 1;
                }
                proof {
                    assert(255 * factor * dy + 255 * factor == 255 * factor * (dy + 1)) by (nonlinear_arith);
                }
                dy = dy + 1;
            }
            proof {
                lemma_block_average_is_a_channel(image.pixels(), stride as int, gx, gy, 0, factor as nat);
                lemma_block_average_is_a_channel(image.pixels(), stride as int, gx, gy, 1, factor as nat);
                lemma_block_average_is_a_channel(image.pixels(), stride as int, gx, gy, 2, factor as nat);
                assert(255 * factor * factor + count / 2 <= u128::MAX) by (nonlinear_arith)
                    requires
                        factor <= u32::MAX,
                        count == factor * factor,
                ;
            }
            let ghost k0 = out@.len() as int;
            out.push(((acc[0] + half) / count) as u8);
            out.push(((acc[1] + half) / count) as u8);
            out.push(((acc[2] + half) / count) as u8);
            proof {
                assert(k0 == rgb_offset(out_w as int, bx as int, by as int, 0));
                assert forall|c: int| 0 <= c < 3 implies #[trigger] out@[k0 + c] == spec_out[k0 + c] by {
                    lemma_offset_split(out_w as int, bx as int, by as int, c);
                    lemma_offset_inside(out_w as int, out_h as int, bx as int, by as int, c);
                }
                assert forall|k: int| 0 <= k < out@.len() implies #[trigger] out@[k] == spec_out[k] by {
                    if k >= k0 {
                        assert(out@[k0 + (k - k0)] == spec_out[k0 + (k - k0)]);
                    }
                }
                assert((by * out_w + bx) * 3 + 3 == (by * out_w + (bx + 1)) * 3) by (nonlinear_arith);
            }
            bx = bx + 1;
        }
        proof {
            assert((by * out_w + out_w) * 3 == (by + 1) * out_w * 3) by (nonlinear_arith);
        }
        by = by + 1;
    }
    proof {
        assert(out_h * out_w * 3 == out_w * out_h * 3) by (nonlinear_arith);
        assert(out@ =~= spec_out);
    }
    RgbImage::from_raw(out_w, out_h, out).unwrap()
}

/// Whether a double works as a scale factor: a finite number above zero.
pub open spec fn usable_factor(factor: u64) -> bool {
    is_finite(factor) && !is_negative(factor) && significand(factor) > 0
}

/// One side after a scale by `factor`, a double, computed as double-precision arithmetic computes it: the side times
/// the factor, rounded to 53 significant bits, then to the nearest whole number (halves away from zero), held to what
/// a `u32` can say and never below a pixel.
pub open spec fn spec_scaled_side(side: u32, factor: u64) -> u32 {
    let product = (side * significand(factor)) as nat;
    let rounded: int = if side == 0 {
        0
    } else {
        nearest_whole(rne_mantissa(product, 1, 53), rne_scale(product, 1, 53) + scale(factor)) as int
    };
    if rounded > u32::MAX {
        u32::MAX
    } else if rounded < 1 {
        1
    } else {
        rounded as u32
    }
}

/// The size [`scale_to_fit`] produces: the framed region's sides scaled by `factor`, or by one when `factor` is not a
/// finite number above zero.
pub open spec fn spec_scaled_size(source: (u32, u32), target: (u32, u32), fit: FitOptions, factor: u64) -> (u32, u32) {
    let rect = spec_fitted_rect(source, target, fit);
    let factor = if usable_factor(factor) {
        factor
    } else {
        ONE
    };
    (spec_scaled_side(rect.2, factor), spec_scaled_side(rect.3, factor))
}

/// Scales the `(x, y, width, height)` region of a photo to `target`.
///
/// A region already at the target size is copied out as it is. Otherwise a triangle filter widens its kernel when
/// downscaling, so it behaves like an area average rather than point sampling; run alone on a 45 MP photo that costs
/// more than the rest of the pipeline put together. So a region at least twice the target on both sides is first
/// box-averaged to within one whole factor of the target, and the triangle filter covers the fractional remainder.
fn resize_region(image: &RgbImage, rect: (u32, u32, u32, u32), target: (u32, u32)) -> (resized: RgbImage)
    requires
        rect_inside(rect, image.spec_width(), image.spec_height()),
        allocatable(target),
    ensures
        resized.spec_width() == target.0,
        resized.spec_height() == target.1,
        resized.pixels() == spec_resize_region(image.pixels(), image.spec_width() as int, rect, target),
{
    let (_, _, width, height) = rect;
    if width == target.0 && height == target.1 {
        // Nothing to scale, so the region is copied out as it is, which for the whole photo is a plain copy.
        return copy_region(image, rect);
    }
    let factor = prefilter_factor((width, height), target);
    if factor == 1 {
        resample_triangle(image, rect, target)
    } else {
        let len = image.as_raw().len();
        proof {
            crate::geometry::lemma_prefilter_never_undershoots((width, height), target);
            assert((width / factor) * (height / factor) * 3 <= width * height * 3) by (nonlinear_arith)
                requires
                    factor >= 1,
            ;
            assert(width * height * 3 <= image.spec_width() * image.spec_height() * 3) by (nonlinear_arith)
                requires
                    width <= image.spec_width(),
                    height <= image.spec_height(),
            ;
        }
        let reduced = box_reduce(image, rect, factor);
        let whole = (0, 0, reduced.width(), reduced.height());
        let reduced_len = reduced.as_raw().len();
        let resized = resample_triangle(&reduced, whole, target);
        proof {
            lemma_whole_region(reduced.pixels(), reduced.spec_width(), reduced.spec_height());
        }
        resized
    }
}

/// Scales a photo to `target`, stretching it when the two shapes disagree.
///
/// A photo already at the target size comes back unchanged.
pub fn resize_image(image: &RgbImage, target: (u32, u32)) -> (resized: RgbImage)
    requires
        allocatable(target),
    ensures
        resized.spec_width() == target.0,
        resized.spec_height() == target.1,
        resized.pixels() == spec_resize_region(
            image.pixels(),
            image.spec_width() as int,
            (0, 0, image.spec_width(), image.spec_height()),
            target,
        ),
        (image.spec_width(), image.spec_height()) == target ==> resized.pixels() == image.pixels(),
{
    let (width, height) = image.dimensions();
    let len = image.as_raw().len();
    let resized = resize_region(image, (0, 0, width, height), target);
    proof {
        lemma_whole_region(image.pixels(), width, height);
    }
    resized
}

/// Scales a photo to the working size, fitted the way `fit` asks for.
///
/// It reads [`fitted_rect`] and produces [`fitted_size`], so a caller reporting either cannot drift from what was
/// done. Turning both flags on is what keeps a photo of any shape undistorted: the target follows the photo's
/// orientation, and whatever ratio is left over comes off the long side as a crop. A region that already has the
/// size it is scaled to comes through pixel for pixel.
pub fn resize_to_fit(image: &RgbImage, target: (u32, u32), fit: FitOptions) -> (resized: RgbImage)
    requires
        allocatable(spec_fitted_size((image.spec_width(), image.spec_height()), target, fit)),
    ensures
        ({
            let source = (image.spec_width(), image.spec_height());
            let rect = spec_fitted_rect(source, target, fit);
            let size = spec_fitted_size(source, target, fit);
            &&& (resized.spec_width(), resized.spec_height()) == size
            &&& resized.pixels() == spec_resize_region(image.pixels(), image.spec_width() as int, rect, size)
            &&& (rect.2, rect.3) == size ==> resized.pixels() == region_pixels(
                image.pixels(),
                image.spec_width() as int,
                rect,
            )
        }),
{
    let source = image.dimensions();
    let rect = fitted_rect(source, target, fit);
    let size = fitted_size(source, target, fit);
    proof {
        lemma_cover_rect_inside(source, size, fit.crop_from, fit.crop_zoom);
    }
    resize_region(image, rect, size)
}

/// Whether `factor` works as a scale factor, the way [`usable_factor`] says.
fn is_usable_factor(factor: u64) -> (usable: bool)
    ensures
        usable == usable_factor(factor),
{
    proof {
        lemma2_to64();
        lemma_pow2_pos(52);
    }
    let exponent = factor / FRACTION_SPAN % 2048;
    let fraction = factor % FRACTION_SPAN;
    exponent != 2047 && factor < SIGN_BIT && !(exponent == 0 && fraction == 0)
}

/// One side scaled by a usable `factor`, the way [`spec_scaled_side`] says.
fn scaled_side(side: u32, factor: u64) -> (scaled: u32)
    requires
        usable_factor(factor),
    ensures
        scaled == spec_scaled_side(side, factor),
{
    proof {
        lemma2_to64();
        lemma2_to64_rest();
        lemma_pow2_100();
    }
    if side == 0 {
        return 1;
    }
    let exponent = factor / FRACTION_SPAN % 2048;
    let fraction = factor % FRACTION_SPAN;
    let sig: u128 = if exponent == 0 {
        fraction as u128
    } else {
        (fraction + FRACTION_SPAN) as u128
    };
    let sc: i32 = if exponent == 0 {
        -1074
    } else {
        exponent as i32 - 1075
    };
    assert(sig == significand(factor) && sc == scale(factor));
    proof {
        lemma_pow2_adds(32, 53);
        lemma_pow2_grows(85, 100);
        lemma_pow2_grows(53, 100);
        assert(side * sig < pow2(32) * pow2(53)) by (nonlinear_arith)
            requires
                side < pow2(32),
                sig < pow2(53),
        ;
        assert(side * sig >= 1) by (nonlinear_arith)
            requires
                side >= 1,
                sig >= 1,
        ;
    }
    let product = (side as u128) * sig;
    proof {
        lemma_exponent_below(product as nat, 1, 85);
        lemma_mantissa_bounds(product as nat, 1, 53);
    }
    let (m, k0) = rne(product, 1, 53);
    let k: i32 = k0 + sc;
    let ghost rounded = nearest_whole(m as nat, k as int);
    if k >= 32 {
        proof {
            lemma_pow2_grows(32, k as nat);
            assert(m * pow2(k as nat) >= pow2(32)) by (nonlinear_arith)
                requires
                    m >= 1,
                    pow2(k as nat) >= pow2(32),
            ;
        }
        return u32::MAX;
    }
    if k < -60 {
        proof {
            let j = (-k) as nat;
            lemma_pow2_grows(61, j);
            lemma_pow2_grows(54, 61);
            lemma_pow2_unfold(j + 1);
            lemma_pow2_unfold(54);
            assert(1 - k == j + 1);
            let mm = m as nat;
            assert((2 * mm + pow2(j)) / pow2(j + 1) == 0) by (nonlinear_arith)
                requires
                    2 * mm <= pow2(54),
                    pow2(54) < pow2(j),
                    pow2(j + 1) == 2 * pow2(j),
            ;
        }
        return 1;
    }
    proof {
        lemma_pow2_grows(53, 60);
    }
    let n = whole(m, k);
    if n > u32::MAX as u128 {
        u32::MAX
    } else if n < 1 {
        1
    } else {
        n as u32
    }
}

/// The size [`scale_to_fit`] produces, for a caller that wants to know before it asks.
pub fn scaled_size(source: (u32, u32), target: (u32, u32), fit: FitOptions, factor: u64) -> (size: (u32, u32))
    ensures
        size == spec_scaled_size(source, target, fit, factor),
{
    let rect = fitted_rect(source, target, fit);
    let factor = if is_usable_factor(factor) {
        factor
    } else {
        ONE
    };
    proof {
        lemma2_to64();
        lemma2_to64_rest();
        assert(usable_factor(ONE));
    }
    (scaled_side(rect.2, factor), scaled_side(rect.3, factor))
}

/// A factor of one keeps every side that has a pixel: one times a whole number is that number, at any precision.
proof fn lemma_scaled_by_one(side: u32)
    requires
        side >= 1,
    ensures
        spec_scaled_side(side, ONE) == side,
{
    lemma2_to64();
    lemma2_to64_rest();
    assert(significand(ONE) == pow2(52) && scale(ONE) == -52);
    let es = exponent_of(side as nat, 1);
    lemma_exponent_bounds(side as nat, 1);
    lemma_exponent_below(side as nat, 1, 32);
    let product = (side * pow2(52)) as nat;
    lemma_pow2_adds(es, 52);
    lemma_pow2_adds(es + 1, 52);
    assert(pow2(es) * pow2(52) <= product < pow2(es + 1) * pow2(52)) by (nonlinear_arith)
        requires
            pow2(es) <= side < pow2(es + 1),
            product == side * pow2(52),
            pow2(52) > 0,
    ;
    assert(1 * pow2(es + 52) <= product < 1 * pow2(es + 52 + 1));
    lemma_exponent_unique(product, 1, es + 52);
    let j = (52 - es) as nat;
    lemma_pow2_adds(j, es);
    assert(j + es == 52);
    let d = 1 * pow2(es);
    lemma_pow2_pos(es);
    lemma_pow2_pos(j);
    assert(product == (side * pow2(j)) * d) by (nonlinear_arith)
        requires
            product == side * pow2(52),
            pow2(52) == pow2(j) * pow2(es),
            d == pow2(es),
    ;
    lemma_fundamental_div_mod_converse(product as int, d as int, (side * pow2(j)) as int, 0);
    let m = (side * pow2(j)) as nat;
    assert(rne_mantissa(product, 1, 53) == m);
    assert(rne_scale(product, 1, 53) + scale(ONE) == -(j as int));
    lemma_pow2_unfold(j + 1);
    assert((2 * m + pow2(j)) / pow2(j + 1) == side) by (nonlinear_arith)
        requires
            m == side * pow2(j),
            pow2(j + 1) == 2 * pow2(j),
            pow2(j) > 0,
    {
        assert(2 * m + pow2(j) == side * pow2(j + 1) + pow2(j));
    }
    assert(nearest_whole(m, -(j as int)) == side);
}

/// The part of a photo [`resize_to_fit`] would read, scaled by `factor`, a double, on each side.
///
/// Between [`resize_to_fit`], which lands on a size, and [`crop_to_fit`], which lands on none: this one keeps the
/// photo's own proportions and asks only how much smaller, so 0.75 takes three quarters of each side of whatever the
/// crop kept. `target` is therefore read for its shape alone. A factor above one enlarges; one that is not a finite
/// number above zero means nothing and keeps the region's own size. Each side rounds to at least one pixel.
pub fn scale_to_fit(image: &RgbImage, target: (u32, u32), fit: FitOptions, factor: u64) -> (scaled: RgbImage)
    requires
        allocatable(spec_scaled_size((image.spec_width(), image.spec_height()), target, fit, factor)),
    ensures
        ({
            let source = (image.spec_width(), image.spec_height());
            let rect = spec_fitted_rect(source, target, fit);
            let size = spec_scaled_size(source, target, fit, factor);
            &&& (scaled.spec_width(), scaled.spec_height()) == size
            &&& scaled.pixels() == spec_resize_region(image.pixels(), image.spec_width() as int, rect, size)
        }),
{
    let source = image.dimensions();
    let rect = fitted_rect(source, target, fit);
    let size = scaled_size(source, target, fit, factor);
    proof {
        lemma_cover_rect_inside(source, spec_fitted_size(source, target, fit), fit.crop_from, fit.crop_zoom);
    }
    resize_region(image, rect, size)
}

/// The part of a photo [`resize_to_fit`] would read, kept at its own resolution.
///
/// The crop without the scale, for a caller that asked to keep the source pixels. `target` is then read for its aspect
/// ratio alone, since nothing is being fitted to its size. The pixels come through as the photo had them.
pub fn crop_to_fit(image: &RgbImage, target: (u32, u32), fit: FitOptions) -> (cropped: RgbImage)
    requires
        allocatable(spec_scaled_size((image.spec_width(), image.spec_height()), target, fit, ONE)),
    ensures
        ({
            let source = (image.spec_width(), image.spec_height());
            let rect = spec_fitted_rect(source, target, fit);
            &&& rect.2 >= 1 && rect.3 >= 1 ==> (cropped.spec_width(), cropped.spec_height()) == (rect.2, rect.3)
                && cropped.pixels() == region_pixels(image.pixels(), image.spec_width() as int, rect)
            &&& (cropped.spec_width(), cropped.spec_height()) == spec_scaled_size(source, target, fit, ONE)
            &&& cropped.pixels() == spec_resize_region(
                image.pixels(),
                image.spec_width() as int,
                rect,
                spec_scaled_size(source, target, fit, ONE),
            )
        }),
{
    let source = image.dimensions();
    proof {
        lemma_cover_rect_inside(source, spec_fitted_size(source, target, fit), fit.crop_from, fit.crop_zoom);
        assert forall|side: u32| side >= 1 implies spec_scaled_side(side, ONE) == side by {
            lemma_scaled_by_one(side);
        }
        lemma2_to64();
        lemma2_to64_rest();
        assert(usable_factor(ONE));
    }
    scale_to_fit(image, target, fit, ONE)
}

/// Scales the part of a photo that already has the target's aspect ratio, taken from `origin` at `zoom`, a double
/// taken at single precision.
///
/// Nothing is distorted, and what it costs instead is the edges. The crop is never materialised, so this reads the
/// source once, the same as a plain resize.
pub fn resize_cropped(image: &RgbImage, target: (u32, u32), origin: CropOrigin, zoom: u64) -> (resized: RgbImage)
    requires
        allocatable(target),
    ensures
        resized.spec_width() == target.0,
        resized.spec_height() == target.1,
        resized.pixels() == spec_resize_region(
            image.pixels(),
            image.spec_width() as int,
            spec_cover_rect((image.spec_width(), image.spec_height()), target, origin, zoom),
            target,
        ),
{
    let source = image.dimensions();
    proof {
        lemma_cover_rect_inside(source, target, origin, zoom);
    }
    resize_region(image, cover_rect(source, target, origin, zoom), target)
}

/// Repeats every pixel `factor` times in both directions.
///
/// The counterpart of [`IndexedImage::scale_nearest`](crate::IndexedImage::scale_nearest) for a photo that was never
/// dithered, so a scale means the same thing whether or not the palette stage ran. A factor of one or less hands the
/// photo straight back.
pub fn scale_nearest(image: &RgbImage, factor: u32) -> (scaled: RgbImage)
    requires
        factor <= 1 || (image.spec_width() * factor <= u32::MAX && image.spec_height() * factor <= u32::MAX
            && allocatable(((image.spec_width() * factor) as u32, (image.spec_height() * factor) as u32))),
    ensures
        factor <= 1 ==> scaled.spec_width() == image.spec_width() && scaled.spec_height() == image.spec_height()
            && scaled.pixels() == image.pixels(),
        factor > 1 ==> scaled.spec_width() == image.spec_width() * factor && scaled.spec_height()
            == image.spec_height() * factor,
        factor > 1 && scaled.spec_width() < NEAREST_EXACT_LIMIT && scaled.spec_height() < NEAREST_EXACT_LIMIT
            ==> forall|x: int, y: int, c: int|
            0 <= x < scaled.spec_width() && 0 <= y < scaled.spec_height() && 0 <= c < 3 ==> #[trigger] scaled.pixels()[rgb_offset(
                scaled.spec_width() as int,
                x,
                y,
                c,
            )] == image.pixels()[rgb_offset(image.spec_width() as int, x / (factor as int), y / (factor as int), c)],
{
    if factor <= 1 {
        return image.duplicate();
    }
    let target = (image.width() * factor, image.height() * factor);
    upscale_nearest(image, factor, target)
}

// ---------------------------------------------------------------------------------------------------------------------
// The `image` crate's resampling, on this crate's buffers.
// ---------------------------------------------------------------------------------------------------------------------

/// The largest side for which the nearest filter's floating-point sample positions are exact enough to land on
/// `x / factor` for every output pixel `x` of an integer upscale.
pub const NEAREST_EXACT_LIMIT: u32 = 4_194_304;

/// `image::imageops::crop_imm` followed by `SubImage::to_image`: the `(x, y, width, height)` region of `image`,
/// copied out pixel for pixel.
///
/// Claims that the copy is `width` by `height` and holds the region's pixels in row-major order.
#[verifier::external_body]
fn copy_region(image: &RgbImage, rect: (u32, u32, u32, u32)) -> (copy: RgbImage)
    requires
        rect_inside(rect, image.spec_width(), image.spec_height()),
    ensures
        copy.spec_width() == rect.2,
        copy.spec_height() == rect.3,
        copy.pixels() == region_pixels(image.pixels(), image.spec_width() as int, rect),
{
    let source = ::image::RgbImage::from_raw(image.width(), image.height(), image.as_raw().to_vec()).unwrap();
    let copied = ::image::imageops::crop_imm(&source, rect.0, rect.1, rect.2, rect.3).to_image();
    let (width, height) = copied.dimensions();
    RgbImage::from_raw(width, height, copied.into_raw()).unwrap()
}

/// `image::imageops::resize` with `FilterType::Triangle`, run on the `(x, y, width, height)` region of `image` read in
/// place through `image::imageops::crop_imm`.
///
/// Claims that the result is `target` sized and is [`triangle_resampled`] of the region's pixels, and two things the
/// crate's source shows of it: a region already at the target size is copied rather than resampled, and an empty
/// region leaves the result black.
#[verifier::external_body]
fn resample_triangle(image: &RgbImage, rect: (u32, u32, u32, u32), target: (u32, u32)) -> (resampled: RgbImage)
    requires
        rect_inside(rect, image.spec_width(), image.spec_height()),
        allocatable(target),
    ensures
        resampled.spec_width() == target.0,
        resampled.spec_height() == target.1,
        resampled.pixels() == triangle_resampled(
            region_pixels(image.pixels(), image.spec_width() as int, rect),
            rect.2,
            rect.3,
            target.0,
            target.1,
        ),
        (rect.2, rect.3) == target ==> resampled.pixels() == region_pixels(
            image.pixels(),
            image.spec_width() as int,
            rect,
        ),
        rect.2 == 0 || rect.3 == 0 ==> resampled.pixels() == Seq::new(
            (target.0 * target.1 * 3) as nat,
            |i: int| 0u8,
        ),
{
    let source = ::image::RgbImage::from_raw(image.width(), image.height(), image.as_raw().to_vec()).unwrap();
    let view = ::image::imageops::crop_imm(&source, rect.0, rect.1, rect.2, rect.3);
    let out = ::image::imageops::resize(&*view, target.0, target.1, ::image::imageops::FilterType::Triangle);
    let (width, height) = out.dimensions();
    RgbImage::from_raw(width, height, out.into_raw()).unwrap()
}

/// `image::imageops::resize` with `FilterType::Nearest` to `target`, which is `factor` times each side.
///
/// Claims that the result is `target` in size and, while both new sides stay under
/// [`NEAREST_EXACT_LIMIT`], that output pixel `(x, y)` is source pixel `(x / factor, y / factor)`: the filter samples
/// the one source pixel under each output pixel's centre, and below that limit the `f32` arithmetic that places the
/// centre cannot move it across a pixel boundary.
#[verifier::external_body]
fn upscale_nearest(image: &RgbImage, factor: u32, target: (u32, u32)) -> (scaled: RgbImage)
    requires
        factor >= 1,
        target.0 == image.spec_width() * factor,
        target.1 == image.spec_height() * factor,
        allocatable(target),
    ensures
        scaled.spec_width() == image.spec_width() * factor,
        scaled.spec_height() == image.spec_height() * factor,
        image.spec_width() * factor < NEAREST_EXACT_LIMIT && image.spec_height() * factor < NEAREST_EXACT_LIMIT
            ==> forall|x: int, y: int, c: int|
            0 <= x < scaled.spec_width() && 0 <= y < scaled.spec_height() && 0 <= c < 3 ==> #[trigger] scaled.pixels()[rgb_offset(
                scaled.spec_width() as int,
                x,
                y,
                c,
            )] == image.pixels()[rgb_offset(image.spec_width() as int, x / (factor as int), y / (factor as int), c)],
{
    let source = ::image::RgbImage::from_raw(image.width(), image.height(), image.as_raw().to_vec()).unwrap();
    let out = ::image::imageops::resize(&source, target.0, target.1, ::image::imageops::FilterType::Nearest);
    let (width, height) = out.dimensions();
    RgbImage::from_raw(width, height, out.into_raw()).unwrap()
}

} // verus!
