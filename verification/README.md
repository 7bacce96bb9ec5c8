# dither

A dithering pipeline that reduces a photo to a fixed six-colour palette and packs the result for a six-colour e-paper
panel, with its integer half verified by Verus.

## Layout

- `src/` is the verified library.
  - `geometry.rs`: framing (orientation, the largest rectangle of a ratio, crop origins and zoom) and the prefilter.
  - `resize.rs`: the box prefilter, and resampling through the `image` crate.
  - `buffer.rs`: RGB and palette-slot images, rotation and nearest-neighbour upscales.
  - `palette.rs`, `bayer.rs`, `kernel.rs`: the palette tables and RGB search, the Bayer rank tables, the
    error-diffusion kernels and the dithering options.
  - `display.rs`: the panel's hardware codes and frame buffer packing.
  - `presets.rs`, `names.rs`, `params.rs`: named aspect ratios, the names settings go by, and request validation.
  - `binary64.rs`: exact decisions on doubles read from their bit patterns.
  - `rounding.rs`: rounding to a binary precision, ties to even, which is how the crop zoom (at single precision)
    and the scale factor (at double precision) reach the framing, exactly as float arithmetic computes them.
  - `pipeline.rs`, `io.rs`: the stages around the dither, decoding and PNG encoding.
  - `samples.rs`, `text.rs`, `enhance.rs`: sample labels, string parsing and writing, and luma.
  - `studio.rs`: what the browser studio's controls decide: sample rolls, typed numbers, notes and notices.
- `tests/` exercises the library through its public API.
- `app/` is the command line front end, the floating-point dithering pass, file I/O, the serde and axum types of
  the HTTP query string, and the studio's settings and state held without a page around them.

## Running

The library is verified with Verus; `app/main.rs` is an ordinary binary that links it:

```
dither photo.jpg --method ordered --preset instagram-story --crop
```
