//! The settings a dithering request carries, how they are checked, and what they turn into.
//!
//! Every field has a default, so a request that names nothing runs the pipeline's own defaults. The names are also
//! what an options listing reports, so a client can send its defaults straight back.
//!
//! The four tuning values, the resize fraction and the crop zoom are doubles, carried as their binary64 bit patterns;
//! [`binary64`](crate::binary64) decides where each one falls.

use vstd::prelude::*;
use vstd::arithmetic::power2::{lemma2_to64_rest, pow2};

use crate::bayer::{BayerSize, spec_from_side};
use crate::binary64::{ONE, between, is_between, is_positive_at_most, positive_at_most};
use crate::geometry::{CropOrigin, FitOptions, ratio_size, spec_ratio_size};
use crate::kernel::{
    DEFAULT_BRIGHTNESS, DEFAULT_COLOR, DEFAULT_SATURATION, DEFAULT_THRESHOLD_SCALE, DitherMethod, DitherOptions,
    is_named_kernel,
};
use crate::names::{Format, Method, spec_method_slug};
use crate::presets::{Preset, RATIO_PRESETS, lemma_preset_stays_within, preset_index};

verus! {

/// Largest working width or height a request may ask for.
pub const MAX_DIMENSION: u32 = 4096;

/// Largest nearest-neighbour upscale factor.
pub const MAX_SCALE: u32 = 4;

/// Largest source image accepted, as a guard against decompression bombs.
pub const MAX_SOURCE_PIXELS: u64 = 50_000_000;

/// The largest crop zoom a request may ask for, as a whole number.
pub const CROP_ZOOM_LIMIT: u32 = 10;

/// What `resize` asks for.
///
/// Three answers to one question, which is how much smaller the photo should come back: the working size, nothing at
/// all, or a fraction of what the framing kept. Whichever it is, `crop` still decides the shape, so `resize` governs
/// the scaling alone.
#[derive(Debug, Clone, Copy, PartialEq, Eq, Structural)]
pub enum Resize {
    /// `true`: scale to `width`x`height`, reshaped by any `preset`.
    Fit,
    /// `false`: keep the source resolution.
    Keep,
    /// A fraction of each side of what the framing kept, as a binary64 bit pattern: `0.75` takes a quarter off.
    Factor(u64),
}

impl Resize {
    /// The fraction it asks for, or `None` when it names a size instead.
    pub fn factor(self) -> (factor: Option<u64>)
        ensures
            factor == (match self {
                Resize::Factor(fraction) => Some(fraction),
                _ => None,
            }),
    {
        match self {
            Resize::Factor(fraction) => Some(fraction),
            _ => None,
        }
    }
}

/// A setting a request can get wrong.
#[derive(Debug, Clone, Copy, PartialEq, Eq, Structural)]
pub enum Setting {
    Saturation,
    Brightness,
    Color,
    ThresholdScale,
    BayerSize,
    Width,
    Height,
    CropFrom,
    CropZoom,
    Resize,
    Scale,
}

impl Setting {
    /// The query-string name.
    pub fn name(self) -> (name: &'static str)
        ensures
            self == Setting::Saturation ==> name@ == "saturation"@,
            self == Setting::Brightness ==> name@ == "brightness"@,
            self == Setting::Color ==> name@ == "color"@,
            self == Setting::ThresholdScale ==> name@ == "threshold_scale"@,
            self == Setting::BayerSize ==> name@ == "bayer_size"@,
            self == Setting::Width ==> name@ == "width"@,
            self == Setting::Height ==> name@ == "height"@,
            self == Setting::CropFrom ==> name@ == "crop_from"@,
            self == Setting::CropZoom ==> name@ == "crop_zoom"@,
            self == Setting::Resize ==> name@ == "resize"@,
            self == Setting::Scale ==> name@ == "scale"@,
    {
        match self {
            Setting::Saturation => "saturation",
            Setting::Brightness => "brightness",
            Setting::Color => "color",
            Setting::ThresholdScale => "threshold_scale",
            Setting::BayerSize => "bayer_size",
            Setting::Width => "width",
            Setting::Height => "height",
            Setting::CropFrom => "crop_from",
            Setting::CropZoom => "crop_zoom",
            Setting::Resize => "resize",
            Setting::Scale => "scale",
        }
    }
}

/// Why a request was refused.
#[derive(Debug, Clone, Copy, PartialEq, Eq, Structural)]
pub enum ParamError {
    /// The setting's value is outside the range it accepts.
    OutOfRange(Setting),
    /// The setting places the crop, and `crop` is off, so there is nothing for it to place.
    NeedsCrop(Setting),
}

/// Everything a dithering request can say.
#[derive(Debug, Clone, Copy, PartialEq, Eq, Structural)]
pub struct DitherParams {
    pub method: Method,
    /// Blend between the pure and the muted panel palettes, 0.0 to 1.0, as a binary64 bit pattern.
    pub saturation: u64,
    /// Brightness multiplier applied before dithering, 0.0 to 5.0, as a binary64 bit pattern.
    pub brightness: u64,
    /// Colour intensity multiplier applied before dithering, 0.0 to 5.0, as a binary64 bit pattern.
    pub color: u64,
    /// Bayer matrix side. Ordered dithering only.
    pub bayer_size: u32,
    /// Scales the Bayer threshold amplitude, 0.0 to 5.0, as a binary64 bit pattern. Ordered dithering only.
    pub threshold_scale: u64,
    /// Working width, used unless `resize` is off. A `preset` reshapes it rather than replacing it.
    pub width: u32,
    /// Working height, used unless `resize` is off. A `preset` reshapes it rather than replacing it.
    pub height: u32,
    /// A named aspect ratio, fitted inside `width`x`height`: it picks the shape and the pair still picks the scale.
    pub preset: Option<Preset>,
    /// What to scale the photo to.
    pub resize: Resize,
    /// Keep the photo's orientation: a portrait photo resizes to `height`x`width`.
    pub keep_orientation: bool,
    /// Crop to the working size's aspect ratio instead of stretching the photo into it.
    pub crop: bool,
    /// Which part the crop keeps. Refused without `crop`, since there would be nothing for it to place.
    pub crop_from: Option<CropOrigin>,
    /// How far into the photo the crop moves, 1.0 to 10.0, as a binary64 bit pattern. Refused without `crop`.
    pub crop_zoom: Option<u64>,
    /// Nearest-neighbour upscale applied to the result, 1 to 4.
    pub scale: u32,
    pub format: Format,
}

/// What a request that names nothing asks for: the pipeline's own options, at the panel's landscape size.
pub open spec fn default_params() -> DitherParams {
    DitherParams {
        method: Method::FloydSteinberg,
        saturation: DEFAULT_SATURATION,
        brightness: DEFAULT_BRIGHTNESS,
        color: DEFAULT_COLOR,
        bayer_size: 4,
        threshold_scale: DEFAULT_THRESHOLD_SCALE,
        width: 600,
        height: 400,
        preset: None,
        resize: Resize::Fit,
        keep_orientation: false,
        crop: false,
        crop_from: None,
        crop_zoom: None,
        scale: 1,
        format: Format::Indexed,
    }
}

impl Default for DitherParams {
    fn default() -> (params: DitherParams)
        ensures
            params == default_params(),
    {
        DitherParams {
            method: Method::FloydSteinberg,
            saturation: DEFAULT_SATURATION,
            brightness: DEFAULT_BRIGHTNESS,
            color: DEFAULT_COLOR,
            bayer_size: 4,
            threshold_scale: DEFAULT_THRESHOLD_SCALE,
            width: 600,
            height: 400,
            preset: None,
            resize: Resize::Fit,
            keep_orientation: false,
            crop: false,
            crop_from: None,
            crop_zoom: None,
            scale: 1,
            format: Format::Indexed,
        }
    }
}

/// The first thing wrong with a request, checked in the order the settings are listed, or `None` when nothing is.
pub open spec fn first_problem(p: DitherParams) -> Option<ParamError> {
    if !between(p.saturation, 0, 1) {
        Some(ParamError::OutOfRange(Setting::Saturation))
    } else if !between(p.brightness, 0, 5) {
        Some(ParamError::OutOfRange(Setting::Brightness))
    } else if !between(p.color, 0, 5) {
        Some(ParamError::OutOfRange(Setting::Color))
    } else if !between(p.threshold_scale, 0, 5) {
        Some(ParamError::OutOfRange(Setting::ThresholdScale))
    } else if !(p.bayer_size == 2 || p.bayer_size == 4 || p.bayer_size == 8) {
        Some(ParamError::OutOfRange(Setting::BayerSize))
    } else if !(1 <= p.width <= MAX_DIMENSION) {
        Some(ParamError::OutOfRange(Setting::Width))
    } else if !(1 <= p.height <= MAX_DIMENSION) {
        Some(ParamError::OutOfRange(Setting::Height))
    } else if p.crop_from is Some && !p.crop {
        Some(ParamError::NeedsCrop(Setting::CropFrom))
    } else if p.crop_zoom is Some && !p.crop {
        Some(ParamError::NeedsCrop(Setting::CropZoom))
    } else if p.resize matches Resize::Factor(fraction) && !positive_at_most(fraction, 1) {
        Some(ParamError::OutOfRange(Setting::Resize))
    } else if p.crop_zoom matches Some(zoom) && !between(zoom, 1, CROP_ZOOM_LIMIT as nat) {
        Some(ParamError::OutOfRange(Setting::CropZoom))
    } else if p.scale == 0 || p.scale > MAX_SCALE {
        Some(ParamError::OutOfRange(Setting::Scale))
    } else {
        None
    }
}

/// Whether `chosen` is what an accepted request asks the pipeline for: nothing when it asked for the resize alone,
/// and otherwise its own method and values, with the Bayer side read back into a size.
pub open spec fn options_for(p: DitherParams, chosen: Option<DitherOptions>) -> bool {
    match chosen {
        None => p.method == Method::NoDither,
        Some(options) => {
            &&& p.method != Method::NoDither
            &&& options.saturation == p.saturation
            &&& options.brightness_factor == p.brightness
            &&& options.color_factor == p.color
            &&& options.threshold_scale == p.threshold_scale
            &&& options.bayer_size == spec_from_side(p.bayer_size)
            &&& (options.method is Ordered <==> p.method == Method::Ordered)
            &&& (options.method matches DitherMethod::ErrorDiffusion(kernel) ==> kernel.name@ == spec_method_slug(
                p.method,
            ) && is_named_kernel(kernel))
        },
    }
}

/// The shape the geometry is measured against: the preset's ratio, or `width`x`height` when none was named.
pub open spec fn spec_working_ratio(p: DitherParams) -> (u32, u32) {
    match p.preset {
        Some(preset) => RATIO_PRESETS[preset_index(preset)].1,
        None => (p.width, p.height),
    }
}

/// The size to dither at, or `None` when the source resolution is kept.
pub open spec fn spec_params_working_size(p: DitherParams) -> Option<(u32, u32)> {
    if p.resize is Fit {
        Some(spec_ratio_size((p.width, p.height), spec_working_ratio(p)))
    } else {
        None
    }
}

/// How the request fits a photo that does not share the working size's shape.
pub open spec fn spec_params_fit(p: DitherParams) -> FitOptions {
    FitOptions {
        keep_orientation: p.keep_orientation,
        crop: p.crop,
        crop_from: match p.crop_from {
            Some(origin) => origin,
            None => CropOrigin::Center,
        },
        crop_zoom: match p.crop_zoom {
            Some(zoom) => zoom,
            None => ONE,
        },
    }
}

impl DitherParams {
    /// Checks the ranges and builds the pipeline's own options.
    ///
    /// The first setting out of range, in the order they are listed, is what the error names. `None` when
    /// `method=none` asked for the resize alone, in which case the palette settings are checked but go unused, the
    /// same way `bayer_size` does under error diffusion.
    pub fn to_options(self) -> (options: Result<Option<DitherOptions>, ParamError>)
        ensures
            first_problem(self) matches Some(problem) ==> options == Err::<Option<DitherOptions>, ParamError>(
                problem,
            ),
            first_problem(self) is None ==> (options matches Ok(chosen) && options_for(self, chosen)),
    {
        if !is_between(self.saturation, 0, 1) {
            return Err(ParamError::OutOfRange(Setting::Saturation));
        }
        if !is_between(self.brightness, 0, 5) {
            return Err(ParamError::OutOfRange(Setting::Brightness));
        }
        if !is_between(self.color, 0, 5) {
            return Err(ParamError::OutOfRange(Setting::Color));
        }
        if !is_between(self.threshold_scale, 0, 5) {
            return Err(ParamError::OutOfRange(Setting::ThresholdScale));
        }
        if !(self.bayer_size == 2 || self.bayer_size == 4 || self.bayer_size == 8) {
            return Err(ParamError::OutOfRange(Setting::BayerSize));
        }
        if self.width == 0 || self.width > MAX_DIMENSION {
            return Err(ParamError::OutOfRange(Setting::Width));
        }
        if self.height == 0 || self.height > MAX_DIMENSION {
            return Err(ParamError::OutOfRange(Setting::Height));
        }
        // A setting that cannot take effect is a mistake worth naming, the way an unknown parameter is.
        if self.crop_from.is_some() && !self.crop {
            return Err(ParamError::NeedsCrop(Setting::CropFrom));
        }
        if self.crop_zoom.is_some() && !self.crop {
            return Err(ParamError::NeedsCrop(Setting::CropZoom));
        }
        if let Some(fraction) = self.resize.factor() {
            if !is_positive_at_most(fraction, 1) {
                return Err(ParamError::OutOfRange(Setting::Resize));
            }
        }
        if let Some(zoom) = self.crop_zoom {
            if !is_between(zoom, 1, CROP_ZOOM_LIMIT) {
                return Err(ParamError::OutOfRange(Setting::CropZoom));
            }
        }
        if self.scale == 0 || self.scale > MAX_SCALE {
            return Err(ParamError::OutOfRange(Setting::Scale));
        }
        match self.method.dither() {
            None => Ok(None),
            Some(method) => Ok(
                Some(
                    DitherOptions {
                        saturation: self.saturation,
                        brightness_factor: self.brightness,
                        color_factor: self.color,
                        method,
                        bayer_size: BayerSize::from_side_or_default(self.bayer_size),
                        threshold_scale: self.threshold_scale,
                    },
                ),
            ),
        }
    }

    /// The shape the geometry is measured against, whatever `resize` says.
    ///
    /// `resize=false` keeps the source resolution, but a crop still needs a shape to aim at, and this is it: the
    /// preset's ratio, or `width`x`height` when no preset was named. So `resize=false` means no scaling rather than no
    /// framing.
    pub fn working_ratio(self) -> (ratio: (u32, u32))
        ensures
            ratio == spec_working_ratio(self),
    {
        match self.preset {
            Some(preset) => preset.ratio(),
            None => (self.width, self.height),
        }
    }

    /// The size to dither at, or `None` when the source resolution is kept.
    ///
    /// A preset reshapes `width`x`height` rather than replacing it: the largest rectangle of the preset's ratio that
    /// fits inside the pair, which is turned over first when the ratio disagrees with it.
    pub fn working_size(self) -> (size: Option<(u32, u32)>)
        ensures
            size == spec_params_working_size(self),
    {
        match self.resize {
            Resize::Fit => Some(ratio_size((self.width, self.height), self.working_ratio())),
            _ => None,
        }
    }

    /// How a photo that does not share the working size's shape is fitted to it. An unset crop falls back to the
    /// middle at full size.
    pub fn fit(self) -> (fit: FitOptions)
        ensures
            fit == spec_params_fit(self),
    {
        FitOptions {
            keep_orientation: self.keep_orientation,
            crop: self.crop,
            crop_from: match self.crop_from {
                Some(origin) => origin,
                None => CropOrigin::Center,
            },
            crop_zoom: match self.crop_zoom {
                Some(zoom) => zoom,
                None => ONE,
            },
        }
    }
}

/// The defaults pass every check: a request that names nothing, or sends back the defaults it was shown, is accepted.
pub proof fn lemma_defaults_are_accepted()
    ensures
        first_problem(default_params()) is None,
{
    lemma2_to64_rest();
    assert(0 * pow2(53) == 0 && 0 * pow2(52) == 0) by (nonlinear_arith);
    assert(between(DEFAULT_SATURATION, 0, 1));
    assert(between(DEFAULT_BRIGHTNESS, 0, 5));
    assert(between(DEFAULT_COLOR, 0, 5));
    assert(between(DEFAULT_THRESHOLD_SCALE, 0, 5));
}

/// Without a preset, the working size is `width`x`height` exactly as it was sent.
pub proof fn lemma_no_preset_keeps_the_pair(p: DitherParams)
    requires
        p.preset is None,
        p.resize is Fit,
        p.width >= 1,
        p.height >= 1,
    ensures
        spec_params_working_size(p) == Some((p.width, p.height)),
{
    let (w, h) = (p.width as int, p.height as int);
    assert(w * h / w == h) by (nonlinear_arith)
        requires
            w >= 1,
    ;
    assert(w * h == h * w) by (nonlinear_arith);
}

/// A preset never carries an accepted request past the dimension limit: whatever the ratio, the working size it
/// resolves to has both sides between one and [`MAX_DIMENSION`].
pub proof fn lemma_working_size_within_limits(p: DitherParams)
    requires
        first_problem(p) is None,
        p.resize is Fit,
    ensures
        spec_params_working_size(p) matches Some(size) && 1 <= size.0 <= MAX_DIMENSION && 1 <= size.1
            <= MAX_DIMENSION,
{
    match p.preset {
        Some(preset) => lemma_preset_stays_within((p.width, p.height), preset, MAX_DIMENSION),
        None => lemma_no_preset_keeps_the_pair(p),
    }
}

/// Every Bayer side the pipeline has a matrix for is one a request can ask for, and no other is: a request that is
/// the defaults but for its Bayer side passes exactly when that side is 2, 4 or 8, and a request refused for its
/// Bayer side asked for some other side.
pub proof fn lemma_bayer_sides_accepted(side: u32, p: DitherParams)
    ensures
        first_problem(DitherParams { bayer_size: side, ..default_params() }) is None <==> (side == 2 || side == 4
            || side == 8),
        first_problem(p) == Some(ParamError::OutOfRange(Setting::BayerSize)) ==> !(p.bayer_size == 2 || p.bayer_size
            == 4 || p.bayer_size == 8),
{
    lemma_defaults_are_accepted();
}

} // verus!
