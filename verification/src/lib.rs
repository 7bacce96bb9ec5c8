//! A dithering pipeline: it reduces a full-colour photo to a fixed six-colour palette and, for the e-paper panel it
//! was written for, packs the result into the panel's frame buffer.
//!
//! What is proved here is the integer half of the pipeline: the framing geometry (what part of a photo is kept and at
//! what size), the box prefilter, the nearest-colour search in RGB, the panel's frame buffer layout, the palette and
//! Bayer tables, the request settings and how they are checked, the stages around the dither, and the names
//! everything goes by. The settings that are doubles are read exactly from their binary64 bit patterns. Resampling,
//! decoding and encoding are the `image` and `png` crates' own, reached through wrappers whose contracts say what
//! those crates do.

pub mod bayer;
pub mod binary64;
pub mod buffer;
pub mod display;
pub mod enhance;
pub mod geometry;
pub mod io;
pub mod kernel;
pub mod names;
pub mod palette;
pub mod params;
pub mod pipeline;
pub mod presets;
pub mod resize;
pub mod rounding;
pub mod samples;
pub mod studio;
pub mod text;

pub use bayer::{BayerSize, bayer_from_side};
pub use buffer::{IndexedImage, RgbImage};
pub use display::{DISPLAY_PANEL_SIZE, Orientation, img2buffer, nearest_hardware_code, pack_indices, slot_to_hardware};
pub use geometry::{
    CropOrigin, DISPLAY_IMAGE_SIZE, FitOptions, MAX_CROP_ZOOM, cover_rect, fitted_rect, fitted_size,
    orient_target, prefilter_factor, ratio_inside, ratio_size,
};
pub use io::IoError;
pub use kernel::{DitherMethod, DitherOptions, Kernel};
pub use names::{Anchor, Format, Method};
pub use palette::Palette;
pub use params::{DitherParams, ParamError, Resize, Setting};
pub use pipeline::{Frame, Output};
pub use presets::{Preset, RATIO_PRESETS, preset_names, preset_ratio, working_size};
