//! Compiles a raster image into laser-engraver motion commands: the image is
//! sampled at a configurable physical resolution, binarized against a
//! luminance threshold, and turned into horizontal scan-line toolpaths with
//! on/off laser segments, emitted as G-code text.

pub mod bitmap;
pub mod config;
pub mod emit;
pub mod num;
pub mod plan;
pub mod scale;
pub mod spans;

use vstd::prelude::*;
use crate::bitmap::Bitmap;
use crate::config::Config;

verus! {

/// Compiles an already-scaled bitmap (one row per output scan line) into the
/// complete textual motion program: the plan orders rows bottom-to-top with
/// serpentine direction alternation and coordinates quantized to 10^-dp mm,
/// and the output is exactly its rendering — preamble, planned rows, final
/// laser-off.
pub fn compile_toolpath(scaled: &Bitmap, c: &Config, dp: u32) -> (out: String)
    requires
        scaled.wf(),
        c.valid(),
        dp <= 12,
    ensures
        out@ == emit::render_gcode(plan::spec_plan(*scaled, *c, dp as nat),
            c.feed as int, c.power as int, dp as nat),
{
    let p = plan::build_plan(scaled, c, dp);
    emit::emit_gcode(&p, c.feed, c.power, dp)
}

} // verus!
