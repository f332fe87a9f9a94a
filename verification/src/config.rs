//! Configuration for a toolpath run: machine resolution, engraving density,
//! feed and power, scan direction strategy, and the invariants that tie them
//! together.

use vstd::prelude::*;

verus! {

/// Interpolation method used when resampling the input image onto the output
/// scan-line grid.
#[derive(Clone, Copy, Debug, PartialEq, Eq, Structural)]
pub enum Interp {
    Nearest,
    Gaussian,
    Lanczos3,
    Cubic,
}

/// Horizontal motion strategy: always left-to-right, or alternating
/// (serpentine) to minimize non-productive travel.
#[derive(Clone, Copy, Debug, PartialEq, Eq, Structural)]
pub enum HMotion {
    Uni,
    Bi,
}

/// A fatal configuration error, detected before any image work occurs.
#[derive(Clone, Copy, Debug, PartialEq, Eq, Structural)]
pub enum ConfigError {
    /// The input resolution was zero (or below).
    NonPositiveDpi,
    /// The machine step density was zero.
    ZeroStepsPerMm,
    /// The output line density was zero.
    ZeroLinesPerMm,
    /// steps/mm is not an exact integer multiple of lines/mm, so no valid
    /// mapping from output rows to machine steps exists.
    IndivisibleSteps,
}

/// Immutable configuration bundle for one run.
///
/// The input resolution is carried in thousandths of a dot per inch so that
/// all physical scaling downstream is exact integer arithmetic.
pub struct Config {
    /// Input resolution, in thousandths of a dot per inch (300 dpi = 300_000).
    pub dpi_thousandths: u64,
    /// Luminance level treated as "white"/"off": a pixel strictly below this
    /// value is engraved.
    pub threshold: u8,
    /// Resampling method for the scaler.
    pub interp: Interp,
    /// Output engraving density, in lines per millimeter.
    pub lines_per_mm: u32,
    /// Feed rate, in mm/min.
    pub feed: u32,
    /// Laser power for "on" segments.
    pub power: u32,
    /// Horizontal motion strategy.
    pub motion: HMotion,
    /// Explicit decimal precision for emitted coordinates; when `None` the
    /// precision is derived from the machine step size.
    pub precision: Option<u8>,
    /// Reduce horizontal resolution to match `lines_per_mm`.
    pub quantize_horizontal: bool,
    /// Machine resolution, in steps per millimeter.
    pub steps_per_mm: u32,
}

impl Config {
    /// A configuration under which the pipeline is defined: positive
    /// resolution and densities, and an exact division of machine steps into
    /// output lines.
    pub open spec fn valid(self) -> bool {
        &&& self.dpi_thousandths > 0
        &&& self.steps_per_mm > 0
        &&& self.lines_per_mm > 0
        &&& self.steps_per_mm % self.lines_per_mm == 0
    }

    /// What `validate` returns: the first failed check, in a fixed order.
    pub open spec fn validate_spec(self) -> Result<(), ConfigError> {
        if self.dpi_thousandths == 0 {
            Err(ConfigError::NonPositiveDpi)
        } else if self.steps_per_mm == 0 {
            Err(ConfigError::ZeroStepsPerMm)
        } else if self.lines_per_mm == 0 {
            Err(ConfigError::ZeroLinesPerMm)
        } else if self.steps_per_mm % self.lines_per_mm != 0 {
            Err(ConfigError::IndivisibleSteps)
        } else {
            Ok(())
        }
    }

    /// Checks the configuration, reporting the first violated constraint.
    /// Succeeds exactly on valid configurations.
    pub fn validate(&self) -> (r: Result<(), ConfigError>)
        ensures
            r == self.validate_spec(),
            r is Ok <==> self.valid(),
    {
        if self.dpi_thousandths == 0 {
            Err(ConfigError::NonPositiveDpi)
        } else if self.steps_per_mm == 0 {
            Err(ConfigError::ZeroStepsPerMm)
        } else if self.lines_per_mm == 0 {
            Err(ConfigError::ZeroLinesPerMm)
        } else if self.steps_per_mm % self.lines_per_mm != 0 {
            Err(ConfigError::IndivisibleSteps)
        } else {
            Ok(())
        }
    }

    /// Machine steps spanned by one output scan line, vertically.
    pub open spec fn spec_steps_per_line(self) -> int {
        self.steps_per_mm as int / self.lines_per_mm as int
    }

    /// Machine steps per output line; at least 1 for a valid configuration.
    pub fn steps_per_line(&self) -> (r: u32)
        requires
            self.valid(),
        ensures
            r == self.spec_steps_per_line(),
            r >= 1,
    {
        let r = self.steps_per_mm / self.lines_per_mm;
        proof {
            vstd::arithmetic::div_mod::lemma_fundamental_div_mod(
                self.steps_per_mm as int,
                self.lines_per_mm as int,
            );
            assert(r >= 1) by (nonlinear_arith)
                requires
                    self.lines_per_mm as int * r as int == self.steps_per_mm as int,
                    self.steps_per_mm > 0,
                    self.lines_per_mm > 0,
                    r >= 0,
            ;
        }
        r
    }
}

/// A configuration must divide its machine steps evenly into output lines,
/// or fail validation before any row is processed: `validate` accepts it
/// exactly when the division is exact (and the densities are positive).
pub proof fn lemma_validate_requires_divisibility(c: Config)
    ensures
        c.validate_spec() is Ok <==> (c.dpi_thousandths > 0 && c.steps_per_mm > 0
            && c.lines_per_mm > 0 && c.steps_per_mm % c.lines_per_mm == 0),
{
}

impl Interp {
    /// The name of this interpolation method, character for character.
    pub open spec fn name_spec(self) -> Seq<char> {
        match self {
            Interp::Nearest => "nearest"@,
            Interp::Gaussian => "gaussian"@,
            Interp::Lanczos3 => "lanczos3"@,
            Interp::Cubic => "cubic"@,
        }
    }

    /// Human-readable name of the interpolation method.
    pub fn name(&self) -> (r: &'static str)
        ensures
            r@ == self.name_spec(),
    {
        match self {
            Interp::Nearest => "nearest",
            Interp::Gaussian => "gaussian",
            Interp::Lanczos3 => "lanczos3",
            Interp::Cubic => "cubic",
        }
    }
}

impl HMotion {
    /// The name of this motion strategy, character for character.
    pub open spec fn name_spec(self) -> Seq<char> {
        match self {
            HMotion::Uni => "uni"@,
            HMotion::Bi => "bi"@,
        }
    }

    /// Human-readable name of the motion strategy.
    pub fn name(&self) -> (r: &'static str)
        ensures
            r@ == self.name_spec(),
    {
        match self {
            HMotion::Uni => "uni",
            HMotion::Bi => "bi",
        }
    }
}

} // verus!
