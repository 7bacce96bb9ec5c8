//! The framing geometry: which part of a photo is kept, and at what size.
//!
//! Everything here is integer arithmetic on sizes and rectangles. The resize
//! itself, which reads the rectangles decided here, is in [`crate::resize`].
//!
//! A crop zoom is a double, carried as its bit pattern and taken at single
//! precision, the way the pipeline's own arithmetic takes it.

use vstd::prelude::*;
use vstd::arithmetic::div_mod::lemma_fundamental_div_mod_converse;
use vstd::arithmetic::power2::{lemma2_to64, lemma2_to64_rest, lemma_pow2_adds, lemma_pow2_pos, lemma_pow2_unfold, pow2};

use crate::binary64::{FRACTION_SPAN, ONE, SIGN_BIT, is_finite, is_negative, scale, significand};
use crate::rounding::{
    exponent_of, lemma_exponent_below, lemma_exponent_bounds, lemma_exponent_unique, lemma_mantissa_bounds,
    lemma_pow2_100, lemma_pow2_grows, lemma_whole_at_most, lemma_whole_within_one, nearest_whole, power_of_two, rne,
    rne_mantissa, rne_scale, whole,
};

verus! {

/// As far into a photo as a crop will go: a zoom of 10.
///
/// Past this the kept rectangle is a stamp being blown up to the working size, which the resize can only blur.
pub const MAX_CROP_ZOOM: u32 = 10;

/// The landscape size the panel pipeline dithers at.
pub const DISPLAY_IMAGE_SIZE: (u32, u32) = (600, 400);

/// `value` held inside `[low, high]`, the way `Ord::clamp` holds it.
pub open spec fn clamp_int(value: int, low: int, high: int) -> int {
    if value < low {
        low
    } else if value > high {
        high
    } else {
        value
    }
}

/// The longer side of a pair.
pub open spec fn max_side(pair: (u32, u32)) -> int {
    if pair.0 > pair.1 {
        pair.0 as int
    } else {
        pair.1 as int
    }
}

/// `a / b` rounded to the nearest integer, halves away from zero.
pub open spec fn round_div(a: int, b: int) -> int {
    (2 * a + b) / (2 * b)
}

/// The largest `target`-shaped rectangle inside `space`, sides rounded down and never below one.
///
/// `space` is the wider of the two when `sw * th > tw * sh`, and then the sides come off; otherwise the top and
/// bottom do.
pub open spec fn spec_ratio_fit(space: (u32, u32), target: (u32, u32)) -> (u32, u32) {
    let (sw, sh) = space;
    let (tw, th) = target;
    if sw * th > tw * sh {
        (clamp_int(sh * tw / (th as int), 1, sw as int) as u32, sh)
    } else {
        (sw, clamp_int(sw * th / (tw as int), 1, sh as int) as u32)
    }
}

/// `target`, transposed when it and `source` disagree on orientation. A square counts as landscape.
pub open spec fn spec_orient_target(source: (u32, u32), target: (u32, u32)) -> (u32, u32) {
    if (source.1 > source.0) == (target.1 > target.0) {
        target
    } else {
        (target.1, target.0)
    }
}

/// The largest `ratio`-shaped size inside `bounds`, with `bounds` turned over first when the ratio disagrees with
/// it. A zero side anywhere leaves `bounds` as it was.
pub open spec fn spec_ratio_size(bounds: (u32, u32), ratio: (u32, u32)) -> (u32, u32) {
    if bounds.0 == 0 || bounds.1 == 0 || ratio.0 == 0 || ratio.1 == 0 {
        bounds
    } else {
        spec_ratio_fit(spec_orient_target(ratio, bounds), ratio)
    }
}

/// The largest `ratio`-shaped size inside `bounds` as they stand, never turned over. A zero side anywhere leaves
/// `bounds` as it was.
pub open spec fn spec_ratio_inside(bounds: (u32, u32), ratio: (u32, u32)) -> (u32, u32) {
    if bounds.0 == 0 || bounds.1 == 0 || ratio.0 == 0 || ratio.1 == 0 {
        bounds
    } else {
        spec_ratio_fit(bounds, ratio)
    }
}

/// Which part of a photo a crop keeps.
///
/// An anchor takes the largest rectangle the target's ratio allows and puts it against a side. Such a rectangle spans
/// the photo's full width or its full height, never neither, so an anchor can only move it along the axis that has
/// slack: `Top` on a photo that is losing its sides behaves like `Center`.
///
/// `At` works the other way round: the corner is where the crop starts, in source pixels with `0,0` the photo's
/// top-left. It is kept as given and the rectangle grows from it, so `0,200` always drops the top 200 rows; what it
/// costs is size, since the rectangle is only as large as what is left below and to the right of the corner.
#[derive(Debug, Clone, Copy, PartialEq, Eq, Structural)]
pub enum CropOrigin {
    Center,
    Top,
    Bottom,
    Left,
    Right,
    At { x: u32, y: u32 },
}

impl Default for CropOrigin {
    fn default() -> (origin: CropOrigin)
        ensures
            origin == CropOrigin::Center,
    {
        CropOrigin::Center
    }
}

/// How a photo that does not share the working size's shape is made to fit it.
///
/// The flags are off by default, which is the plainest thing to do: the photo is stretched into the working size
/// whatever shape it arrived in.
#[derive(Debug, Clone, Copy, PartialEq, Eq, Structural)]
pub struct FitOptions {
    /// Transpose the working size for a photo of the other orientation, so a portrait photo stays portrait.
    pub keep_orientation: bool,
    /// Crop to the working size's aspect ratio rather than stretching the photo into it.
    pub crop: bool,
    /// Which part of the photo the crop keeps. Ignored unless `crop`.
    pub crop_from: CropOrigin,
    /// How far into the photo the crop moves, as the bit pattern of a double that is taken at single precision:
    /// [`ONE`] keeps as much as the ratio allows, and anything above keeps a proportionally smaller rectangle. Ignored
    /// unless `crop`.
    pub crop_zoom: u64,
}

impl Default for FitOptions {
    fn default() -> (fit: FitOptions)
        ensures
            fit == (FitOptions {
                keep_orientation: false,
                crop: false,
                crop_from: CropOrigin::Center,
                crop_zoom: ONE,
            }),
    {
        FitOptions { keep_orientation: false, crop: false, crop_from: CropOrigin::Center, crop_zoom: ONE }
    }
}

/// The single-precision number a zoom is taken as: the double rounded to 24 significant bits, as its mantissa and the
/// power of two that scales it. `None` for a zoom that is not a finite number above zero.
pub open spec fn single_zoom(zoom: u64) -> Option<(nat, int)> {
    if !is_finite(zoom) || is_negative(zoom) || significand(zoom) == 0 {
        None
    } else {
        Some(
            (
                rne_mantissa(significand(zoom), 1, 24),
                rne_scale(significand(zoom), 1, 24) + scale(zoom),
            ),
        )
    }
}

/// Whether a zoom shrinks anything: as a single-precision number it is above one and finite. A double too large for
/// single precision becomes an infinity, which is no zoom at all.
pub open spec fn zooms_in(zoom: u64) -> bool {
    match single_zoom(zoom) {
        Some((m, k)) => if k >= 0 {
            m * pow2(k as nat) > 1 && m * pow2(k as nat) < pow2(128)
        } else {
            m > pow2((-k) as nat)
        },
        None => false,
    }
}

/// A whole number as a single-precision number, which is whole too: rounded to 24 significant bits.
pub open spec fn single_whole(n: nat) -> nat {
    if n == 0 {
        0
    } else {
        nearest_whole(rne_mantissa(n, 1, 24), rne_scale(n, 1, 24))
    }
}

/// One side of a rectangle after a zoom, computed as single-precision arithmetic computes it: the side, as a
/// single-precision number, divided by the zoom and rounded to 24 significant bits, then to the nearest whole number
/// (halves away from zero), and held between one pixel and the side. A zoom that does not zoom in leaves the side
/// alone.
pub open spec fn spec_shrink(side: u32, zoom: u64) -> u32 {
    if zooms_in(zoom) {
        let (m, k) = single_zoom(zoom)->0;
        let w = single_whole(side as nat);
        let a = if k >= 0 {
            w
        } else {
            w * pow2((-k) as nat)
        };
        let b = if k >= 0 {
            m * pow2(k as nat)
        } else {
            m
        };
        if a < b {
            1
        } else {
            clamp_int(nearest_whole(rne_mantissa(a, b, 24), rne_scale(a, b, 24)) as int, 1, side as int) as u32
        }
    } else {
        side
    }
}

/// A rectangle of `source` with `target`'s aspect ratio, placed at `origin` and shrunk by `zoom`, as
/// `(x, y, width, height)`. A zero side anywhere leaves the whole of `source`.
pub open spec fn spec_cover_rect(source: (u32, u32), target: (u32, u32), origin: CropOrigin, zoom: u64) -> (
    u32,
    u32,
    u32,
    u32,
) {
    let (sw, sh) = source;
    if target.0 == 0 || target.1 == 0 || sw == 0 || sh == 0 {
        (0, 0, sw, sh)
    } else {
        match origin {
            CropOrigin::At { x, y } => {
                let cx = if x < sw - 1 { x } else { (sw - 1) as u32 };
                let cy = if y < sh - 1 { y } else { (sh - 1) as u32 };
                let kept = spec_ratio_fit(((sw - cx) as u32, (sh - cy) as u32), target);
                (cx, cy, spec_shrink(kept.0, zoom), spec_shrink(kept.1, zoom))
            },
            _ => {
                let kept = spec_ratio_fit(source, target);
                let w = spec_shrink(kept.0, zoom);
                let h = spec_shrink(kept.1, zoom);
                let free_x = (sw - w) as u32;
                let free_y = (sh - h) as u32;
                match origin {
                    CropOrigin::Top => (free_x / 2, 0, w, h),
                    CropOrigin::Bottom => (free_x / 2, free_y, w, h),
                    CropOrigin::Left => (0, free_y / 2, w, h),
                    CropOrigin::Right => (free_x, free_y / 2, w, h),
                    _ => (free_x / 2, free_y / 2, w, h),
                }
            },
        }
    }
}

/// The size [`resize_to_fit`](crate::resize::resize_to_fit) produces: `target`, turned over to follow the photo when
/// the orientation is kept.
pub open spec fn spec_fitted_size(source: (u32, u32), target: (u32, u32), fit: FitOptions) -> (u32, u32) {
    if fit.keep_orientation {
        spec_orient_target(source, target)
    } else {
        target
    }
}

/// The region of the photo [`resize_to_fit`](crate::resize::resize_to_fit) reads: the whole photo unless `crop`.
pub open spec fn spec_fitted_rect(source: (u32, u32), target: (u32, u32), fit: FitOptions) -> (u32, u32, u32, u32) {
    if fit.crop {
        spec_cover_rect(source, spec_fitted_size(source, target, fit), fit.crop_from, fit.crop_zoom)
    } else {
        (0, 0, source.0, source.1)
    }
}

/// The largest integer box reduction that leaves both sides at or above `target`, and never below one.
pub open spec fn spec_prefilter_factor(source: (u32, u32), target: (u32, u32)) -> u32 {
    if target.0 == 0 || target.1 == 0 {
        1
    } else {
        let by_width = source.0 / target.0;
        let by_height = source.1 / target.1;
        let smaller = if by_width < by_height { by_width } else { by_height };
        if smaller < 1 {
            1
        } else {
            smaller as u32
        }
    }
}

proof fn lemma_div_below(a: nat, b: nat, c: nat)
    requires
        b > 0,
        a < c * b,
    ensures
        a / b < c,
{
    assert(a / b < c) by (nonlinear_arith)
        requires
            b > 0,
            a < c * b,
    ;
}

proof fn lemma_div_at_most(a: nat, b: nat, c: nat)
    requires
        b > 0,
        a <= c * b,
    ensures
        a / b <= c,
{
    assert(a / b <= c) by (nonlinear_arith)
        requires
            b > 0,
            a <= c * b,
    ;
}

/// The largest `target`-shaped rectangle that fits inside `space`.
///
/// The comparison is `sw * th` against `tw * sh` rather than a pair of divisions, so the ratios are exact and a space
/// that already matches the target keeps every pixel of it. Rounding down keeps the rectangle inside.
fn ratio_fit(space: (u32, u32), target: (u32, u32)) -> (kept: (u32, u32))
    requires
        space.0 >= 1,
        space.1 >= 1,
        target.0 >= 1,
        target.1 >= 1,
    ensures
        kept == spec_ratio_fit(space, target),
{
    let (sw, sh) = space;
    let (tw, th) = target;
    let sw64 = sw as u64;
    let sh64 = sh as u64;
    let tw64 = tw as u64;
    let th64 = th as u64;
    assert(sw64 * th64 <= u64::MAX) by (nonlinear_arith)
        requires
            sw64 <= u32::MAX,
            th64 <= u32::MAX,
    ;
    assert(tw64 * sh64 <= u64::MAX) by (nonlinear_arith)
        requires
            tw64 <= u32::MAX,
            sh64 <= u32::MAX,
    ;
    assert(sh64 * tw64 == tw64 * sh64) by (nonlinear_arith);
    assert(sw64 * th64 == th64 * sw64) by (nonlinear_arith);
    if sw64 * th64 > tw64 * sh64 {
        // The space is the wider of the two, so the sides come off.
        let wide = sh64 * tw64 / th64;
        proof {
            lemma_div_below((sh64 * tw64) as nat, th64 as nat, sw64 as nat);
        }
        let w = wide as u32;
        let w = if w < 1 {
            1
        } else if w > sw {
            sw
        } else {
            w
        };
        (w, sh)
    } else {
        let tall = sw64 * th64 / tw64;
        proof {
            lemma_div_at_most((sw64 * th64) as nat, tw64 as nat, sh64 as nat);
        }
        let h = tall as u32;
        let h = if h < 1 {
            1
        } else if h > sh {
            sh
        } else {
            h
        };
        (sw, h)
    }
}

/// `target`, transposed when it and `source` disagree on orientation.
///
/// A square source counts as landscape, so a square photo against a landscape target is left alone.
pub fn orient_target(source: (u32, u32), target: (u32, u32)) -> (oriented: (u32, u32))
    ensures
        oriented == spec_orient_target(source, target),
{
    if (source.1 > source.0) == (target.1 > target.0) {
        target
    } else {
        (target.1, target.0)
    }
}

/// The largest `ratio`-shaped size that fits inside `bounds`.
///
/// This is what a preset resolves to: the ratio picks the shape and `bounds` picks the scale, so the working size a
/// caller asked for still says how many pixels get dithered. `bounds` is turned over first when the ratio disagrees
/// with it, which is what keeps a portrait ratio against a landscape working size from being squeezed into its short
/// side. A zero side leaves nothing to fit, so `bounds` comes back unchanged.
pub fn ratio_size(bounds: (u32, u32), ratio: (u32, u32)) -> (size: (u32, u32))
    ensures
        size == spec_ratio_size(bounds, ratio),
{
    if bounds.0 == 0 || bounds.1 == 0 || ratio.0 == 0 || ratio.1 == 0 {
        return bounds;
    }
    ratio_fit(orient_target(ratio, bounds), ratio)
}

/// The largest `ratio`-shaped size inside `bounds` as they stand, without turning them over.
///
/// For a box that is a real photo rather than a working size: a photo is already in its own orientation, so
/// reorienting it would ask for pixels it never had. A zero side leaves `bounds` unchanged.
pub fn ratio_inside(bounds: (u32, u32), ratio: (u32, u32)) -> (size: (u32, u32))
    ensures
        size == spec_ratio_inside(bounds, ratio),
{
    if bounds.0 == 0 || bounds.1 == 0 || ratio.0 == 0 || ratio.1 == 0 {
        return bounds;
    }
    ratio_fit(bounds, ratio)
}

/// One side of a rectangle shrunk by a zoom, the way [`spec_shrink`] says.
fn shrink(side: u32, zoom: u64) -> (shrunk: u32)
    requires
        side >= 1,
    ensures
        shrunk == spec_shrink(side, zoom),
{
    proof {
        lemma2_to64();
        lemma2_to64_rest();
        lemma_pow2_100();
    }
    let exponent = zoom / FRACTION_SPAN % 2048;
    let fraction = zoom % FRACTION_SPAN;
    if exponent == 2047 || zoom >= SIGN_BIT || (exponent == 0 && fraction == 0) {
        return side;
    }
    let sig: u128 = if exponent == 0 {
        fraction as u128
    } else {
        (fraction + FRACTION_SPAN) as u128
    };
    let sc: i32 = if exponent == 0 {
        -1074
    } else {
        exponent as i32 - 1075
    };
    assert(sig == significand(zoom) && sc == scale(zoom));
    proof {
        lemma_pow2_grows(53, 100);
        lemma_pow2_grows(24, 100);
        lemma_exponent_below(sig as nat, 1, 53);
        lemma_mantissa_bounds(sig as nat, 1, 24);
    }
    let (m, k0) = rne(sig, 1, 24);
    let k: i32 = k0 + sc;
    let ghost gm = m as nat;
    assert(single_zoom(zoom) == Some((gm, k as int)));
    // Whether the zoom, at single precision, is finite and above one.
    if k >= 0 {
        if k >= 105 {
            proof {
                lemma_pow2_grows(105, k as nat);
                lemma_pow2_adds(23, 105);
                assert(m * pow2(k as nat) >= pow2(23) * pow2(105)) by (nonlinear_arith)
                    requires
                        m >= pow2(23),
                        pow2(k as nat) >= pow2(105),
                ;
            }
            return side;
        }
        if k >= 29 {
            let room = power_of_two((128 - k) as u32);
            proof {
                lemma_pow2_adds((128 - k) as nat, k as nat);
                assert(((128 - k) as nat) + (k as nat) == 128);
                assert(room * pow2(k as nat) == pow2(128));
                lemma_pow2_pos(k as nat);
            }
            if m >= room {
                proof {
                    assert(m * pow2(k as nat) >= room * pow2(k as nat)) by (nonlinear_arith)
                        requires
                            m >= room,
                    ;
                }
                return side;
            }
            proof {
                assert(m * pow2(k as nat) < room * pow2(k as nat)) by (nonlinear_arith)
                    requires
                        m < room,
                        pow2(k as nat) > 0,
                ;
            }
        } else {
            proof {
                lemma_pow2_grows(k as nat, 28);
                lemma_pow2_adds(24, 28);
                vstd::arithmetic::power2::lemma_pow2_strictly_increases(52, 128);
                lemma_pow2_pos(k as nat);
                assert(m * pow2(k as nat) <= pow2(24) * pow2(28)) by (nonlinear_arith)
                    requires
                        m <= pow2(24),
                        pow2(k as nat) <= pow2(28),
                ;
            }
        }
        proof {
            lemma_pow2_pos(k as nat);
            assert(m * pow2(k as nat) >= m) by (nonlinear_arith)
                requires
                    pow2(k as nat) >= 1,
            ;
        }
    } else {
        let j = -k;
        if j >= 25 {
            proof {
                lemma_pow2_grows(25, j as nat);
            }
            return side;
        }
        let floor = power_of_two(j as u32);
        if m <= floor {
            return side;
        }
    }
    assert(zooms_in(zoom));
    let ghost w = single_whole(side as nat);
    proof {
        lemma_exponent_below(side as nat, 1, 32);
        lemma_mantissa_bounds(side as nat, 1, 24);
        lemma_whole_at_most(rne_mantissa(side as nat, 1, 24), 24, exponent_of(side as nat, 1));
        lemma_pow2_grows((exponent_of(side as nat, 1) + 1) as nat, 32);
    }
    if k > 10 {
        proof {
            lemma_pow2_grows(11, k as nat);
            lemma_pow2_adds(23, 11);
            assert(m * pow2(k as nat) >= pow2(23) * pow2(11)) by (nonlinear_arith)
                requires
                    m >= pow2(23),
                    pow2(k as nat) >= pow2(11),
            ;
        }
        return 1;
    }
    let (mw, kw) = rne(side as u128, 1, 24);
    proof {
        lemma_pow2_grows(24, 60);
    }
    let whole_side = whole(mw, kw);
    assert(whole_side == w);
    let a: u128;
    let b: u128;
    if k >= 0 {
        let power = power_of_two(k as u32);
        proof {
            lemma_pow2_grows(k as nat, 10);
            lemma_pow2_adds(24, 10);
            assert(m * power <= pow2(24) * pow2(10)) by (nonlinear_arith)
                requires
                    m <= pow2(24),
                    power <= pow2(10),
            ;
        }
        a = whole_side;
        b = m * power;
    } else {
        let power = power_of_two((-k) as u32);
        proof {
            lemma_pow2_grows((-k) as nat, 24);
            lemma_pow2_adds(32, 24);
            assert(whole_side * power <= pow2(32) * pow2(24)) by (nonlinear_arith)
                requires
                    whole_side <= pow2(32),
                    power <= pow2(24),
            ;
        }
        a = whole_side * power;
        b = m;
    }
    if a < b {
        return 1;
    }
    proof {
        lemma_pow2_adds(34, 24);
        lemma_pow2_grows(56, 100);
        lemma_pow2_grows(58, 100);
        lemma_pow2_grows(23, 34);
        lemma_pow2_grows(24, 34);
        assert(b * pow2(24) <= pow2(34) * pow2(24)) by (nonlinear_arith)
            requires
                b <= pow2(34),
        ;
        lemma_pow2_grows(57, 100);
        lemma_pow2_unfold(57);
        lemma_exponent_below(a as nat, b as nat, 57);
        lemma_mantissa_bounds(a as nat, b as nat, 24);
    }
    let (qm, qk) = rne(a, b, 24);
    let n = whole(qm, qk);
    if n < 1 {
        1
    } else if n > side as u128 {
        side
    } else {
        n as u32
    }
}

/// A rectangle of `source` with `target`'s aspect ratio, placed at `origin`, as `(x, y, width, height)`.
///
/// The two origins work from opposite ends. An anchor asks for the largest rectangle there is and then puts it against
/// a side, so it can only slide along whichever axis has slack. A corner is the other way round: the corner is what
/// was asked for, so it is kept, and the rectangle is the largest that fits in what the photo still offers below and
/// to the right of it. A corner past the last pixel keeps that pixel.
///
/// `zoom`, the bit pattern of a double taken at single precision, shrinks whatever the origin settled on, both sides
/// by the same factor. A zoom of one or less, or one that is not a finite number, leaves it alone.
pub fn cover_rect(source: (u32, u32), target: (u32, u32), origin: CropOrigin, zoom: u64) -> (rect: (
    u32,
    u32,
    u32,
    u32,
))
    ensures
        rect == spec_cover_rect(source, target, origin, zoom),
{
    let (sw, sh) = source;
    if target.0 == 0 || target.1 == 0 || sw == 0 || sh == 0 {
        return (0, 0, sw, sh);
    }
    if let CropOrigin::At { x, y } = origin {
        // The corner cannot be past the last pixel, since a rectangle has to have something to cover.
        let cx = if x < sw - 1 { x } else { sw - 1 };
        let cy = if y < sh - 1 { y } else { sh - 1 };
        let kept = ratio_fit((sw - cx, sh - cy), target);
        proof {
            lemma_ratio_fit_inside((sw - cx) as u32, (sh - cy) as u32, target);
        }
        return (cx, cy, shrink(kept.0, zoom), shrink(kept.1, zoom));
    }
    let kept = ratio_fit(source, target);
    proof {
        lemma_ratio_fit_inside(sw, sh, target);
    }
    let w = shrink(kept.0, zoom);
    let h = shrink(kept.1, zoom);
    // What the rectangle leaves over. At a zoom of one that is only ever one axis.
    let free_x = sw - w;
    let free_y = sh - h;
    match origin {
        CropOrigin::Top => (free_x / 2, 0, w, h),
        CropOrigin::Bottom => (free_x / 2, free_y, w, h),
        CropOrigin::Left => (0, free_y / 2, w, h),
        CropOrigin::Right => (free_x, free_y / 2, w, h),
        _ => (free_x / 2, free_y / 2, w, h),
    }
}

/// The size [`resize_to_fit`](crate::resize::resize_to_fit) would produce for a photo of `source` dimensions.
///
/// That is `target` itself, unless `keep_orientation` turns it over to follow the photo.
pub fn fitted_size(source: (u32, u32), target: (u32, u32), fit: FitOptions) -> (size: (u32, u32))
    ensures
        size == spec_fitted_size(source, target, fit),
{
    if fit.keep_orientation {
        orient_target(source, target)
    } else {
        target
    }
}

/// The region of the photo [`resize_to_fit`](crate::resize::resize_to_fit) reads, as `(x, y, width, height)`.
///
/// The whole photo unless `crop`, which is what a caller reports when it wants to say which part of an upload was
/// used, and why a coordinate it asked for did not move anything.
pub fn fitted_rect(source: (u32, u32), target: (u32, u32), fit: FitOptions) -> (rect: (u32, u32, u32, u32))
    ensures
        rect == spec_fitted_rect(source, target, fit),
{
    if fit.crop {
        cover_rect(source, fitted_size(source, target, fit), fit.crop_from, fit.crop_zoom)
    } else {
        (0, 0, source.0, source.1)
    }
}

/// The largest integer reduction that still leaves both sides at or above the target, so the triangle filter that
/// follows only ever downscales.
pub fn prefilter_factor(source: (u32, u32), target: (u32, u32)) -> (factor: u32)
    ensures
        factor == spec_prefilter_factor(source, target),
{
    let (w, h) = source;
    let (tw, th) = target;
    if tw == 0 || th == 0 {
        return 1;
    }
    let by_width = w / tw;
    let by_height = h / th;
    let smaller = if by_width < by_height { by_width } else { by_height };
    if smaller < 1 {
        1
    } else {
        smaller
    }
}

// ---------------------------------------------------------------------------------------------------------------------
// What the geometry promises.
// ---------------------------------------------------------------------------------------------------------------------

/// The rectangle [`spec_ratio_fit`] keeps lies inside the space, has both sides at least one pixel, spans the space's
/// full width or its full height, and holds the target's ratio to within a pixel: `|w * th - h * tw|` is less than
/// the target side along which the space was cut.
pub proof fn lemma_ratio_fit_inside(sw: u32, sh: u32, target: (u32, u32))
    requires
        sw >= 1,
        sh >= 1,
        target.0 >= 1,
        target.1 >= 1,
    ensures
        ({
            let (w, h) = spec_ratio_fit((sw, sh), target);
            &&& 1 <= w <= sw
            &&& 1 <= h <= sh
            &&& w == sw || h == sh
            &&& -(target.0 as int) < w * target.1 - h * target.0 < target.1
                || -(target.1 as int) < w * target.1 - h * target.0 < target.0
        }),
{
    let (tw, th) = target;
    let (w, h) = spec_ratio_fit((sw, sh), target);
    if sw * th > tw * sh {
        let q = sh * tw / (th as int);
        assert(q * th <= sh * tw < (q + 1) * th) by (nonlinear_arith)
            requires
                th > 0,
                q == sh * tw / (th as int),
        ;
        assert(sh * tw == tw * sh) by (nonlinear_arith);
        lemma_div_below((sh * tw) as nat, th as nat, sw as nat);
        assert(h == sh);
        assert(q >= 0) by (nonlinear_arith)
            requires
                q == sh * tw / (th as int),
                th > 0,
                sh >= 0,
                tw >= 0,
        ;
        if q < 1 {
            assert(w == 1);
            assert(sh * tw < th) by (nonlinear_arith)
                requires
                    q == 0,
                    sh * tw < (q + 1) * th,
            ;
            assert(0 < w * th - h * tw < th) by (nonlinear_arith)
                requires
                    w == 1,
                    h == sh,
                    sh >= 1,
                    tw >= 1,
                    sh * tw < th,
            ;
        } else {
            assert(clamp_int(q, 1, sw as int) == q);
            assert(w == q);
            assert(-(th as int) < w * th - h * tw <= 0) by (nonlinear_arith)
                requires
                    w == q,
                    h == sh,
                    q * th <= sh * tw < (q + 1) * th,
            ;
        }
    } else {
        let q = sw * th / (tw as int);
        assert(q * tw <= sw * th < (q + 1) * tw) by (nonlinear_arith)
            requires
                tw > 0,
                q == sw * th / (tw as int),
        ;
        assert(sw * th == th * sw) by (nonlinear_arith);
        lemma_div_at_most((sw * th) as nat, tw as nat, sh as nat);
        assert(w == sw);
        assert(q >= 0) by (nonlinear_arith)
            requires
                q == sw * th / (tw as int),
                tw > 0,
                sw >= 0,
                th >= 0,
        ;
        if q < 1 {
            assert(h == 1);
            assert(sw * th < tw) by (nonlinear_arith)
                requires
                    q == 0,
                    sw * th < (q + 1) * tw,
            ;
            assert(-(tw as int) < w * th - h * tw < 0) by (nonlinear_arith)
                requires
                    w == sw,
                    h == 1,
                    sw >= 1,
                    th >= 1,
                    sw * th < tw,
            ;
        } else {
            assert(clamp_int(q, 1, sh as int) == q);
            assert(h == q);
            assert(0 <= w * th - h * tw < tw) by (nonlinear_arith)
                requires
                    w == sw,
                    h == q,
                    q * tw <= sw * th < (q + 1) * tw,
            ;
        }
    }
}

/// Whatever the pair or the origin, the kept rectangle is inside the photo. When nothing is zero it is at least a
/// pixel on each side.
pub proof fn lemma_cover_rect_inside(source: (u32, u32), target: (u32, u32), origin: CropOrigin, zoom: u64)
    ensures
        ({
            let (x, y, w, h) = spec_cover_rect(source, target, origin, zoom);
            &&& x + w <= source.0
            &&& y + h <= source.1
            &&& (source.0 > 0 && source.1 > 0 && target.0 > 0 && target.1 > 0) ==> w >= 1 && h >= 1
        }),
{
    let (sw, sh) = source;
    if target.0 == 0 || target.1 == 0 || sw == 0 || sh == 0 {
    } else {
        match origin {
            CropOrigin::At { x, y } => {
                let cx = if x < sw - 1 { x } else { (sw - 1) as u32 };
                let cy = if y < sh - 1 { y } else { (sh - 1) as u32 };
                lemma_ratio_fit_inside((sw - cx) as u32, (sh - cy) as u32, target);
            },
            _ => {
                lemma_ratio_fit_inside(sw, sh, target);
            },
        }
    }
}

/// A corner is kept as given, unless it is past the last pixel, where it keeps that pixel.
pub proof fn lemma_corner_is_kept(source: (u32, u32), target: (u32, u32), x: u32, y: u32, zoom: u64)
    requires
        source.0 > 0,
        source.1 > 0,
        target.0 > 0,
        target.1 > 0,
    ensures
        ({
            let rect = spec_cover_rect(source, target, CropOrigin::At { x, y }, zoom);
            &&& rect.0 == if x < source.0 { x } else { (source.0 - 1) as u32 }
            &&& rect.1 == if y < source.1 { y } else { (source.1 - 1) as u32 }
        }),
{
}

/// At a zoom of one an anchor keeps the largest rectangle there is, which spans the photo's full width or its full
/// height, holds the target's ratio to within a pixel, and sits against the side the anchor names: `Top` touches the
/// top edge, `Bottom` the bottom one, `Left` and `Right` theirs, and `Center` leaves equal slack (to within a pixel)
/// on both sides of each axis.
pub proof fn lemma_anchor_placement(source: (u32, u32), target: (u32, u32), origin: CropOrigin, zoom: u64)
    requires
        source.0 > 0,
        source.1 > 0,
        target.0 > 0,
        target.1 > 0,
        !zooms_in(zoom),
        !(origin is At),
    ensures
        ({
            let (x, y, w, h) = spec_cover_rect(source, target, origin, zoom);
            &&& w == source.0 || h == source.1
            &&& -max_side(target) <= w * target.1 - h * target.0 <= max_side(target)
            &&& origin is Top ==> y == 0
            &&& origin is Bottom ==> y + h == source.1
            &&& origin is Left ==> x == 0
            &&& origin is Right ==> x + w == source.0
            &&& origin is Center ==> x == (source.0 - w) / 2 && y == (source.1 - h) / 2
        }),
{
    lemma_ratio_fit_inside(source.0, source.1, target);
}

/// A corner's rectangle holds the target's ratio to within a pixel too, at a zoom of one.
pub proof fn lemma_corner_keeps_the_ratio(source: (u32, u32), target: (u32, u32), x: u32, y: u32, zoom: u64)
    requires
        source.0 > 0,
        source.1 > 0,
        target.0 > 0,
        target.1 > 0,
        !zooms_in(zoom),
    ensures
        ({
            let (_, _, w, h) = spec_cover_rect(source, target, CropOrigin::At { x, y }, zoom);
            -max_side(target) <= w * target.1 - h * target.0 <= max_side(target)
        }),
{
    let (sw, sh) = source;
    let cx = if x < sw - 1 { x } else { (sw - 1) as u32 };
    let cy = if y < sh - 1 { y } else { (sh - 1) as u32 };
    lemma_ratio_fit_inside((sw - cx) as u32, (sh - cy) as u32, target);
}

/// Below `2^24` a whole number is exact at single precision.
proof fn lemma_single_whole_exact(side: nat)
    requires
        1 <= side < 16_777_216,
    ensures
        single_whole(side) == side,
{
    lemma2_to64();
    lemma_exponent_below(side, 1, 24);
    let e = exponent_of(side, 1);
    let j = (23 - e) as nat;
    let big = pow2(j);
    let t = side * big;
    assert(t / 1 == t && t % 1 == 0);
    if j == 0 {
        assert(big == 1);
        assert(1 * pow2(0) == 1);
        assert(t == side) by (nonlinear_arith)
            requires
                t == side * big,
                big == 1,
        ;
        assert(side / 1 == side && side % 1 == 0);
    }
    assert(rne_mantissa(side, 1, 24) == t);
    lemma_pow2_unfold(j + 1);
    lemma_pow2_pos(j);
    assert(rne_scale(side, 1, 24) == -(j as int));
    if j == 0 {
        assert(big == 1);
        assert(t == side) by (nonlinear_arith)
            requires
                t == side * big,
                big == 1,
        ;
        assert(t * pow2(0) == t) by (nonlinear_arith)
            requires
                pow2(0) == 1,
        ;
    } else {
        assert((2 * t + big) / pow2(j + 1) == side) by (nonlinear_arith)
            requires
                t == side * big,
                pow2(j + 1) == 2 * big,
                big > 0,
        {
            assert(2 * t + big == side * pow2(j + 1) + big);
        }
    }
}

/// The numerator and denominator a zoom divides a side by: the side times `s` over `b`, where the zoom is `b / s`.
pub open spec fn zoom_scale(zoom: u64) -> (int, int) {
    let (m, k) = single_zoom(zoom)->0;
    if k >= 0 {
        (1, (m * pow2(k as nat)) as int)
    } else {
        (pow2((-k) as nat) as int, m as int)
    }
}

/// A side shrunk by a zoom is within a pixel of the exact quotient, while single precision still holds the side
/// exactly: with the zoom as `b / s`, `|b * shrunk - s * side|` is at most `b`.
proof fn lemma_shrink_close(side: u32, zoom: u64)
    requires
        1 <= side < 16_777_216,
        zooms_in(zoom),
    ensures
        ({
            let (s, b) = zoom_scale(zoom);
            &&& 1 <= s < b
            &&& -b <= b * spec_shrink(side, zoom) - s * side <= b
        }),
{
    lemma_single_whole_exact(side as nat);
    let (m, k) = single_zoom(zoom)->0;
    let (s, b) = zoom_scale(zoom);
    lemma_pow2_pos(((-k) as nat));
    let a = s * side;
    if k < 0 {
        assert(a == side * pow2((-k) as nat)) by (nonlinear_arith)
            requires
                a == s * side,
                s == pow2((-k) as nat),
        ;
    }
    let shrunk = spec_shrink(side, zoom);
    let w = single_whole(side as nat);
    assert(w == side);
    let a_spec = if k >= 0 {
        w
    } else {
        w * pow2((-k) as nat)
    };
    let b_spec = if k >= 0 {
        m * pow2(k as nat)
    } else {
        m
    };
    if k >= 0 {
        assert(s == 1);
        assert(a == side) by (nonlinear_arith)
            requires
                a == s * side,
                s == 1,
        ;
    } else {
        assert(s == pow2((-k) as nat));
    }
    assert(a_spec == a);
    assert(b_spec == b);
    if a < b {
        assert(shrunk == 1);
    } else {
        assert(a < b * 16_777_216) by (nonlinear_arith)
            requires
                a == s * side,
                side < 16_777_216,
                1 <= s < b,
        ;
        lemma2_to64();
        lemma_exponent_bounds(a as nat, b as nat);
        let e = exponent_of(a as nat, b as nat);
        if e >= 24 {
            lemma_pow2_grows(24, e);
            assert(b * pow2(e) >= b * pow2(24)) by (nonlinear_arith)
                requires
                    pow2(e) >= pow2(24),
                    b >= 1,
            ;
        }
        lemma_whole_within_one(a as nat, b as nat, 24);
        let n = nearest_whole(rne_mantissa(a as nat, b as nat, 24), rne_scale(a as nat, b as nat, 24)) as int;
        assert(-b <= b * n - a <= b);
        if n < 1 {
            assert(n == 0);
            assert(shrunk == 1);
        } else if n > side {
            assert(b * side + b <= b * n) by (nonlinear_arith)
                requires
                    n >= side + 1,
                    b >= 1,
            ;
            assert(b * side > s * side) by (nonlinear_arith)
                requires
                    b > s,
                    side >= 1,
            ;
            assert(false);
        } else {
            assert(shrunk == n);
        }
    }
}

/// A zoom shrinks both sides by the same factor, so the rectangle it leaves still holds the target's ratio: the cross
/// products differ by less than the ratio's longer side at a zoom of one, and rounding each shrunk side to a whole
/// pixel adds at most one of each side of the ratio to that. This holds while single precision carries the photo's
/// sides exactly, below `2^24`; past that the side itself is rounded before it is divided.
pub proof fn lemma_zoom_keeps_the_ratio(source: (u32, u32), target: (u32, u32), origin: CropOrigin, zoom: u64)
    requires
        0 < source.0 < 16_777_216,
        0 < source.1 < 16_777_216,
        target.0 > 0,
        target.1 > 0,
        zooms_in(zoom),
    ensures
        ({
            let (_, _, w, h) = spec_cover_rect(source, target, origin, zoom);
            let slack = max_side(target) + target.0 + target.1;
            -slack <= w * target.1 - h * target.0 <= slack
        }),
{
    let (sw, sh) = source;
    let (tw, th) = (target.0 as int, target.1 as int);
    let kept = match origin {
        CropOrigin::At { x, y } => {
            let cx = if x < sw - 1 { x } else { (sw - 1) as u32 };
            let cy = if y < sh - 1 { y } else { (sh - 1) as u32 };
            lemma_ratio_fit_inside((sw - cx) as u32, (sh - cy) as u32, target);
            spec_ratio_fit(((sw - cx) as u32, (sh - cy) as u32), target)
        },
        _ => {
            lemma_ratio_fit_inside(sw, sh, target);
            spec_ratio_fit(source, target)
        },
    };
    let (w, h) = (kept.0 as int, kept.1 as int);
    let mx = max_side(target);
    assert(-mx <= w * th - h * tw <= mx);
    lemma_shrink_close(kept.0, zoom);
    lemma_shrink_close(kept.1, zoom);
    let (s, b) = zoom_scale(zoom);
    let ws = spec_shrink(kept.0, zoom) as int;
    let hs = spec_shrink(kept.1, zoom) as int;
    let ew = b * ws - s * w;
    let eh = b * hs - s * h;
    let cross = w * th - h * tw;
    let shrunk_cross = ws * th - hs * tw;
    assert(b * shrunk_cross == th * (b * ws) - tw * (b * hs)) by (nonlinear_arith)
        requires
            shrunk_cross == ws * th - hs * tw,
    ;
    assert(th * (b * ws) == th * ew + th * (s * w)) by (nonlinear_arith)
        requires
            b * ws == ew + s * w,
    ;
    assert(tw * (b * hs) == tw * eh + tw * (s * h)) by (nonlinear_arith)
        requires
            b * hs == eh + s * h,
    ;
    assert(th * (s * w) - tw * (s * h) == s * cross) by (nonlinear_arith)
        requires
            cross == w * th - h * tw,
    ;
    assert(-(th * b) <= th * ew <= th * b) by (nonlinear_arith)
        requires
            -b <= ew <= b,
            th > 0,
    ;
    assert(-(tw * b) <= tw * eh <= tw * b) by (nonlinear_arith)
        requires
            -b <= eh <= b,
            tw > 0,
    ;
    assert(-(b * mx) <= s * cross <= b * mx) by (nonlinear_arith)
        requires
            -mx <= cross <= mx,
            1 <= s < b,
            mx >= 0,
    ;
    let slack = mx + tw + th;
    assert(-(b * slack) <= b * shrunk_cross <= b * slack) by (nonlinear_arith)
        requires
            b * shrunk_cross == th * ew - tw * eh + s * cross,
            -(th * b) <= th * ew <= th * b,
            -(tw * b) <= tw * eh <= tw * b,
            -(b * mx) <= s * cross <= b * mx,
            slack == mx + tw + th,
    ;
    assert(-slack <= shrunk_cross <= slack) by (nonlinear_arith)
        requires
            -(b * slack) <= b * shrunk_cross <= b * slack,
            b > 0,
    ;
}

/// A zoom of exactly one does not zoom in.
proof fn lemma_one_does_not_zoom()
    ensures
        !zooms_in(ONE),
{
    lemma2_to64();
    lemma2_to64_rest();
    assert(significand(ONE) == pow2(52) && scale(ONE) == -52);
    lemma_exponent_unique(pow2(52), 1, 52);
    lemma_pow2_unfold(53);
    lemma_pow2_adds(29, 23);
    assert(pow2(52) == pow2(29) * pow2(23));
    let d = 1 * pow2(29);
    assert(pow2(52) == pow2(23) * d);
    lemma_fundamental_div_mod_converse(pow2(52) as int, d as int, pow2(23) as int, 0);
    assert(rne_mantissa(pow2(52), 1, 24) == pow2(23));
    assert(single_zoom(ONE) == Some((pow2(23), -23int)));
}

/// A zoom that does not zoom in, whether it is at or below one or not a finite number, leaves the rectangle a zoom of
/// exactly one leaves.
pub proof fn lemma_no_zoom_is_one(source: (u32, u32), target: (u32, u32), origin: CropOrigin, zoom: u64)
    requires
        !zooms_in(zoom),
    ensures
        spec_cover_rect(source, target, origin, zoom) == spec_cover_rect(source, target, origin, ONE),
{
    lemma_one_does_not_zoom();
    assert forall|side: u32| #[trigger] spec_shrink(side, zoom) == spec_shrink(side, ONE) by {}
}

/// Whatever the zoom, an anchor places the rectangle it keeps against the side it names and centres it on the axis it
/// does not name: `Top` and `Bottom` centre it across, `Left` and `Right` centre it down, and `Center` leaves equal
/// slack (to within a pixel) on both sides of both axes.
pub proof fn lemma_anchor_placement_at_any_zoom(source: (u32, u32), target: (u32, u32), origin: CropOrigin, zoom: u64)
    requires
        source.0 > 0,
        source.1 > 0,
        target.0 > 0,
        target.1 > 0,
        !(origin is At),
    ensures
        ({
            let (x, y, w, h) = spec_cover_rect(source, target, origin, zoom);
            &&& 1 <= w <= source.0
            &&& 1 <= h <= source.1
            &&& origin is Top ==> y == 0 && x == (source.0 - w) / 2
            &&& origin is Bottom ==> y + h == source.1 && x == (source.0 - w) / 2
            &&& origin is Left ==> x == 0 && y == (source.1 - h) / 2
            &&& origin is Right ==> x + w == source.0 && y == (source.1 - h) / 2
            &&& origin is Center ==> x == (source.0 - w) / 2 && y == (source.1 - h) / 2
        }),
{
    lemma_cover_rect_inside(source, target, origin, zoom);
}

/// Cropping never changes the size that comes back: the size a fit lands on depends on the orientation flag alone,
/// whatever the crop, its origin or its zoom.
pub proof fn lemma_crop_leaves_the_size_alone(source: (u32, u32), target: (u32, u32), fit: FitOptions, other: FitOptions)
    requires
        fit.keep_orientation == other.keep_orientation,
    ensures
        spec_fitted_size(source, target, fit) == spec_fitted_size(source, target, other),
{
}

/// Orienting only ever transposes: the result is `target` or its transpose, and applying it twice changes nothing
/// more. Unless `target` is square, the result is portrait exactly when `source` is.
pub proof fn lemma_orient_target(source: (u32, u32), target: (u32, u32))
    ensures
        ({
            let oriented = spec_orient_target(source, target);
            &&& oriented == target || oriented == (target.1, target.0)
            &&& spec_orient_target(source, oriented) == oriented
            &&& target.0 != target.1 ==> ((oriented.1 > oriented.0) == (source.1 > source.0))
        }),
{
}

/// A preset never carries a size past its bounds: what [`spec_ratio_size`] resolves to is inside `bounds`, or inside
/// their transpose when the ratio turned them over, and never has a zero side.
pub proof fn lemma_ratio_size_inside(bounds: (u32, u32), ratio: (u32, u32))
    requires
        bounds.0 > 0,
        bounds.1 > 0,
        ratio.0 > 0,
        ratio.1 > 0,
    ensures
        ({
            let (w, h) = spec_ratio_size(bounds, ratio);
            let room = spec_orient_target(ratio, bounds);
            &&& 1 <= w <= room.0
            &&& 1 <= h <= room.1
            &&& w <= max_side(bounds)
            &&& h <= max_side(bounds)
        }),
{
    let room = spec_orient_target(ratio, bounds);
    lemma_ratio_fit_inside(room.0, room.1, ratio);
}

/// The box reduction never undershoots: for a photo at least as large as a non-empty target, reducing by the factor
/// still leaves both sides at or above the target, so the triangle pass that follows only ever downscales. A photo
/// smaller than the target is never reduced.
pub proof fn lemma_prefilter_never_undershoots(source: (u32, u32), target: (u32, u32))
    ensures
        spec_prefilter_factor(source, target) >= 1,
        target.0 > 0 && target.1 > 0 && source.0 >= target.0 && source.1 >= target.1 ==> source.0
            / spec_prefilter_factor(source, target) >= target.0 && source.1 / spec_prefilter_factor(source, target)
            >= target.1,
        (source.0 < target.0 || source.1 < target.1) ==> spec_prefilter_factor(source, target) == 1,
{
    let (w, h) = source;
    let (tw, th) = target;
    if tw > 0 && th > 0 {
        let f = spec_prefilter_factor(source, target);
        if w >= tw && h >= th {
            assert(w / tw >= 1 && h / th >= 1) by (nonlinear_arith)
                requires
                    w >= tw > 0,
                    h >= th > 0,
            ;
            assert(f <= w / tw && f <= h / th);
            assert(w / f >= tw) by (nonlinear_arith)
                requires
                    f >= 1,
                    f <= w / tw,
                    tw > 0,
            ;
            assert(h / f >= th) by (nonlinear_arith)
                requires
                    f >= 1,
                    f <= h / th,
                    th > 0,
            ;
        }
        if w < tw || h < th {
            assert(w / tw == 0 || h / th == 0) by (nonlinear_arith)
                requires
                    w < tw || h < th,
                    tw > 0,
                    th > 0,
            ;
        }
    }
}

} // verus!
