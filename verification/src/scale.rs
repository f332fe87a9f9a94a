//! Physical scaling: maps pixel-grid dimensions to machine steps and output
//! scan lines, resolves the decimal precision of emitted coordinates, and
//! resamples the bitmap onto the output grid.

use vstd::prelude::*;
use crate::bitmap::Bitmap;
use crate::config::{Config, Interp};
use crate::num::{ceil_div, ceil_div_u128, pow10, pow10_u128};

verus! {

/// Machine steps spanned by `px` pixels along one axis: the physical length
/// in millimeters (px * 25.4 / dpi) times steps/mm, rounded up. All factors
/// are exact: the resolution is carried in thousandths of a dot per inch, so
/// 25.4 mm/inch becomes the integer 25400.
pub open spec fn spec_axis_steps(px: int, c: Config) -> int {
    ceil_div(px * 25400 * c.steps_per_mm, c.dpi_thousandths as int)
}

/// Output scan lines: vertical machine steps divided by steps-per-line,
/// rounded down (a partial final line is dropped, not padded).
pub open spec fn spec_line_count(h_px: int, c: Config) -> int {
    spec_axis_steps(h_px, c) / c.spec_steps_per_line()
}

/// Output width in pixels: quantized to the line density when requested,
/// otherwise the native pixel width.
pub open spec fn spec_out_width(w_px: int, c: Config) -> int {
    if c.quantize_horizontal {
        spec_axis_steps(w_px, c) / c.spec_steps_per_line()
    } else {
        w_px
    }
}

/// Derived physical dimensions of one run.
pub struct Dims {
    /// Machine steps across the image, horizontally.
    pub width_steps: u128,
    /// Machine steps across the image, vertically.
    pub height_steps: u128,
    /// Number of output scan lines.
    pub line_count: u128,
    /// Output width in pixels.
    pub out_width: u128,
}

/// Machine steps spanned by `px` pixels.
pub fn axis_steps(px: u32, c: &Config) -> (r: u128)
    requires
        c.valid(),
    ensures
        r == spec_axis_steps(px as int, *c),
{
    proof {
        assert((px as int) * 25400 * (c.steps_per_mm as int) < 0x1_0000_0000_0000_0000_0000int)
            by (nonlinear_arith)
            requires
                px < 0x1_0000_0000,
                c.steps_per_mm < 0x1_0000_0000,
        ;
        assert((px as int) * 25400 * (c.steps_per_mm as int) >= 0) by (nonlinear_arith)
            requires
                px >= 0,
                c.steps_per_mm >= 0,
        ;
    }
    let n: u128 = (px as u128) * 25400 * (c.steps_per_mm as u128);
    ceil_div_u128(n, c.dpi_thousandths as u128)
}

/// Computes all derived dimensions for a run over a bitmap of the given
/// pixel size.
pub fn compute_dims(w_px: u32, h_px: u32, c: &Config) -> (d: Dims)
    requires
        c.valid(),
    ensures
        d.width_steps == spec_axis_steps(w_px as int, *c),
        d.height_steps == spec_axis_steps(h_px as int, *c),
        d.line_count == spec_line_count(h_px as int, *c),
        d.out_width == spec_out_width(w_px as int, *c),
{
    let ws = axis_steps(w_px, c);
    let hs = axis_steps(h_px, c);
    let spl = c.steps_per_line() as u128;
    let line_count = hs / spl;
    let out_width = if c.quantize_horizontal {
        ws / spl
    } else {
        w_px as u128
    };
    Dims { width_steps: ws, height_steps: hs, line_count, out_width }
}

/// The fallback decimal precision search, from candidate digit count `d` up:
/// the smallest count at which one machine step (1/steps mm) has an exact
/// decimal representation, capped at 12 digits.
pub open spec fn auto_precision_from(steps: int, d: int) -> int
    decreases 12 - d,
{
    if d < 0 || d >= 12 {
        12
    } else if pow10(d as nat) % steps == 0 {
        d
    } else {
        auto_precision_from(steps, d + 1)
    }
}

/// The decimal precision used for emitted coordinates: the explicit override
/// when configured, otherwise the minimal number of fractional digits that
/// represents 1/steps-per-mm exactly (capped at 12).
pub open spec fn spec_precision(c: Config) -> int {
    match c.precision {
        Some(p) => p as int,
        None => auto_precision_from(c.steps_per_mm as int, 0),
    }
}

/// Resolves the decimal precision for a run.
pub fn resolve_precision(c: &Config) -> (r: u32)
    requires
        c.valid(),
        c.precision matches Some(p) ==> p <= 12,
    ensures
        r == spec_precision(*c),
        r <= 12,
{
    match c.precision {
        Some(p) => p as u32,
        None => {
            let mut d: u32 = 0;
            while d < 12
                invariant
                    d <= 12,
                    c.valid(),
                    c.precision is None,
                    auto_precision_from(c.steps_per_mm as int, 0)
                        == auto_precision_from(c.steps_per_mm as int, d as int),
                decreases 12 - d,
            {
                let p = pow10_u128(d);
                if p % (c.steps_per_mm as u128) == 0 {
                    proof {
                        assert(auto_precision_from(c.steps_per_mm as int, d as int) == d);
                    }
                    return d;
                }
                proof {
                    assert(auto_precision_from(c.steps_per_mm as int, d as int)
                        == auto_precision_from(c.steps_per_mm as int, d as int + 1));
                }
                d = d + 1;
            }
            12
        },
    }
}

/// What `image::imageops::resize` returns for the given samples, input
/// dimensions, output dimensions and filter kind: fixed but stated only by
/// name, since the resampling kernels take pages to describe.
pub uninterp spec fn resampled(pixels: Seq<u8>, w: int, h: int, nw: int, nh: int, kind: int) -> Seq<u8>;

/// A small integer tag for each interpolation kind, so that `resampled` is
/// stated over plain values.
pub open spec fn interp_code(i: Interp) -> int {
    match i {
        Interp::Nearest => 0,
        Interp::Gaussian => 1,
        Interp::Lanczos3 => 2,
        Interp::Cubic => 3,
    }
}

/// Relies on `image::imageops::resize` (with `image::ImageBuffer::from_raw`
/// and `into_raw` converting between raw sample buffers and image buffers):
/// the result is a buffer of exactly the requested dimensions, one 8-bit
/// sample per pixel, and is a pure function of the input samples, the
/// dimensions and the filter kind.
#[verifier::external_body]
fn resize_pixels(pixels: &Vec<u8>, w: u32, h: u32, nw: u32, nh: u32, interp: Interp) -> (r: Vec<u8>)
    requires
        pixels@.len() == w * h,
        nw * nh <= usize::MAX,
    ensures
        r@.len() == nw * nh,
        r@ == resampled(pixels@, w as int, h as int, nw as int, nh as int, interp_code(interp)),
{
    let img: image::ImageBuffer<image::Luma<u8>, Vec<u8>> =
        image::ImageBuffer::from_raw(w, h, pixels.clone()).unwrap();
    let filter = match interp {
        Interp::Nearest => image::imageops::FilterType::Nearest,
        Interp::Gaussian => image::imageops::FilterType::Gaussian,
        Interp::Lanczos3 => image::imageops::FilterType::Lanczos3,
        Interp::Cubic => image::imageops::FilterType::CatmullRom,
    };
    image::imageops::resize(&img, nw, nh, filter).into_raw()
}

/// Resamples the bitmap onto the output grid: one row per output scan line,
/// and either the native or the quantized pixel width.
pub fn scale_bitmap(b: &Bitmap, c: &Config) -> (r: Bitmap)
    requires
        b.wf(),
        c.valid(),
        spec_out_width(b.width as int, *c) < 0x1_0000_0000,
        spec_line_count(b.height as int, *c) < 0x1_0000_0000,
        spec_out_width(b.width as int, *c) * spec_line_count(b.height as int, *c) <= usize::MAX,
    ensures
        r.wf(),
        r.width == spec_out_width(b.width as int, *c),
        r.height == spec_line_count(b.height as int, *c),
        r.pixels@ == resampled(b.pixels@, b.width as int, b.height as int, r.width as int,
            r.height as int, interp_code(c.interp)),
{
    let d = compute_dims(b.width, b.height, c);
    let nw = d.out_width as u32;
    let nh = d.line_count as u32;
    let pixels = resize_pixels(&b.pixels, b.width, b.height, nw, nh, c.interp);
    Bitmap { width: nw, height: nh, pixels }
}

} // verus!
