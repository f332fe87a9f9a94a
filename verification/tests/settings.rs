use lasgrav::config::{Config, ConfigError, HMotion, Interp};
use lasgrav::scale::{axis_steps, compute_dims, resolve_precision};

fn base_config() -> Config {
    Config {
        dpi_thousandths: 300_000,
        threshold: 128,
        interp: Interp::Gaussian,
        lines_per_mm: 8,
        feed: 1000,
        power: 1000,
        motion: HMotion::Bi,
        precision: None,
        quantize_horizontal: false,
        steps_per_mm: 160,
    }
}

#[test]
fn zero_dpi_is_rejected_first() {
    let mut c = base_config();
    c.dpi_thousandths = 0;
    c.steps_per_mm = 0;
    assert_eq!(c.validate(), Err(ConfigError::NonPositiveDpi));
}

#[test]
fn zero_steps_per_mm_is_rejected() {
    let mut c = base_config();
    c.steps_per_mm = 0;
    assert_eq!(c.validate(), Err(ConfigError::ZeroStepsPerMm));
}

#[test]
fn zero_lines_per_mm_is_rejected() {
    let mut c = base_config();
    c.lines_per_mm = 0;
    assert_eq!(c.validate(), Err(ConfigError::ZeroLinesPerMm));
}

#[test]
fn indivisible_step_density_is_rejected() {
    let mut c = base_config();
    c.steps_per_mm = 150;
    assert_eq!(c.validate(), Err(ConfigError::IndivisibleSteps));
}

#[test]
fn valid_configuration_passes() {
    assert_eq!(base_config().validate(), Ok(()));
}

#[test]
fn steps_per_line_divides_exactly() {
    assert_eq!(base_config().steps_per_line(), 20);
}

#[test]
fn default_step_density_needs_five_digits() {
    // 1/160 mm = 0.00625 mm: five fractional digits.
    assert_eq!(resolve_precision(&base_config()), 5);
}

#[test]
fn power_of_ten_step_density_needs_few_digits() {
    let mut c = base_config();
    c.steps_per_mm = 100;
    c.lines_per_mm = 10;
    assert_eq!(resolve_precision(&c), 2);
}

#[test]
fn non_terminating_step_size_caps_at_twelve_digits() {
    let mut c = base_config();
    c.steps_per_mm = 3;
    c.lines_per_mm = 3;
    assert_eq!(resolve_precision(&c), 12);
}

#[test]
fn one_step_per_mm_needs_no_fraction() {
    let mut c = base_config();
    c.steps_per_mm = 1;
    c.lines_per_mm = 1;
    assert_eq!(resolve_precision(&c), 0);
}

#[test]
fn explicit_precision_wins() {
    let mut c = base_config();
    c.precision = Some(2);
    assert_eq!(resolve_precision(&c), 2);
}

#[test]
fn physical_scaling_rounds_steps_up_and_lines_down() {
    let c = base_config();
    // 2 px at 300 dpi = 0.1693 mm = 27.09 steps, rounded up to 28.
    assert_eq!(axis_steps(2, &c), 28);
    let d = compute_dims(2, 2, &c);
    assert_eq!(d.width_steps, 28);
    assert_eq!(d.height_steps, 28);
    // 28 steps / 20 steps-per-line rounds down: the partial line is dropped.
    assert_eq!(d.line_count, 1);
    assert_eq!(d.out_width, 2);
}

#[test]
fn horizontal_quantization_shrinks_width_to_line_density() {
    let mut c = base_config();
    c.quantize_horizontal = true;
    let d = compute_dims(2, 2, &c);
    assert_eq!(d.out_width, 1);
    assert_eq!(d.line_count, 1);
}

#[test]
fn option_names_match_the_command_line_words() {
    assert_eq!(Interp::Nearest.name(), "nearest");
    assert_eq!(Interp::Gaussian.name(), "gaussian");
    assert_eq!(Interp::Lanczos3.name(), "lanczos3");
    assert_eq!(Interp::Cubic.name(), "cubic");
    assert_eq!(HMotion::Uni.name(), "uni");
    assert_eq!(HMotion::Bi.name(), "bi");
}
