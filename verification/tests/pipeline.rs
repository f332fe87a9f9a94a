use lasgrav::bitmap::Bitmap;
use lasgrav::compile_toolpath;
use lasgrav::config::{Config, HMotion, Interp};
use lasgrav::plan::build_plan;
use lasgrav::scale::{resolve_precision, scale_bitmap};

fn base_config() -> Config {
    Config {
        dpi_thousandths: 300_000,
        threshold: 128,
        interp: Interp::Gaussian,
        lines_per_mm: 8,
        feed: 1000,
        power: 1000,
        motion: HMotion::Bi,
        precision: None,
        quantize_horizontal: false,
        steps_per_mm: 160,
    }
}

#[test]
fn white_image_emits_only_preamble_and_postamble() {
    let c = base_config();
    assert!(c.validate().is_ok());
    let b = Bitmap::new(2, 2, vec![255u8; 4]).unwrap();
    let scaled = scale_bitmap(&b, &c);
    assert_eq!(scaled.width, 2);
    assert_eq!(scaled.height, 1);
    let dp = resolve_precision(&c);
    assert_eq!(dp, 5);
    let plan = build_plan(&scaled, &c, dp);
    assert_eq!(plan.len(), 0);
    let out = compile_toolpath(&scaled, &c, dp);
    assert_eq!(out, "G90\r\nG0 X0 Y0 F1000\r\nM3 S0\r\nM5\r\n");
}

#[test]
fn black_image_emits_one_full_width_line() {
    let c = base_config();
    let b = Bitmap::new(2, 2, vec![0u8; 4]).unwrap();
    let scaled = scale_bitmap(&b, &c);
    // 2 px at 300 dpi span ceil(2 * 25.4 / 300 * 160) = 28 machine steps;
    // with 20 steps per line that floors to exactly 1 output line.
    assert_eq!(scaled.width, 2);
    assert_eq!(scaled.height, 1);
    let dp = resolve_precision(&c);
    assert_eq!(dp, 5);
    let plan = build_plan(&scaled, &c, dp);
    assert_eq!(plan.len(), 1);
    assert_eq!(plan[0].row, 0);
    assert!(!plan[0].rtl);
    assert_eq!(plan[0].moves, vec![(0u128, 16933u128)]);
    let out = compile_toolpath(&scaled, &c, dp);
    assert_eq!(
        out,
        "G90\r\nG0 X0 Y0 F1000\r\nM3 S0\r\n( row 0: -> )\r\nG0 X0.00000 Y0.06250 S0\r\nG1 X0.16933 S1000\r\nM5\r\n"
    );
}

#[test]
fn explicit_precision_override_forces_two_digits() {
    let mut c = base_config();
    c.precision = Some(2);
    let b = Bitmap::new(2, 2, vec![0u8; 4]).unwrap();
    let scaled = scale_bitmap(&b, &c);
    let dp = resolve_precision(&c);
    assert_eq!(dp, 2);
    let out = compile_toolpath(&scaled, &c, dp);
    assert_eq!(
        out,
        "G90\r\nG0 X0 Y0 F1000\r\nM3 S0\r\n( row 0: -> )\r\nG0 X0.00 Y0.06 S0\r\nG1 X0.17 S1000\r\nM5\r\n"
    );
}

#[test]
fn resampling_actually_rescales_the_buffer() {
    let c = base_config();
    let b = Bitmap::new(2, 2, vec![0u8; 4]).unwrap();
    let scaled = scale_bitmap(&b, &c);
    // The scaled buffer has one byte per output pixel (2 x 1), not the
    // original four, and an all-black input stays black.
    assert_eq!(scaled.pixels.len(), 2);
    assert!(scaled.pixels.iter().all(|&p| p < 128));
}

#[test]
fn blank_row_is_skipped_without_desynchronizing_serpentine() {
    let c = base_config();
    // Three scan lines, top to bottom in image order: dark, blank, dark.
    let scaled = Bitmap::new(2, 3, vec![0, 0, 255, 255, 0, 0]).unwrap();
    let plan = build_plan(&scaled, &c, 5);
    // Bottom-to-top: machine row 0 shows image row 2, machine row 2 shows
    // image row 0; the blank middle row emits nothing and does not touch
    // the direction toggle, so the two emitted rows still alternate.
    assert_eq!(plan.len(), 2);
    assert_eq!(plan[0].row, 0);
    assert!(!plan[0].rtl);
    assert_eq!(plan[1].row, 2);
    assert!(plan[1].rtl);
}

#[test]
fn unidirectional_mode_never_reverses() {
    let mut c = base_config();
    c.motion = HMotion::Uni;
    let scaled = Bitmap::new(2, 3, vec![0, 0, 0, 0, 0, 0]).unwrap();
    let plan = build_plan(&scaled, &c, 5);
    assert_eq!(plan.len(), 3);
    assert!(plan.iter().all(|r| !r.rtl));
}

#[test]
fn rows_are_flipped_bottom_to_top() {
    let c = base_config();
    // Image row 0 (top) is dark, image row 1 (bottom) is blank.
    let scaled = Bitmap::new(1, 2, vec![0, 255]).unwrap();
    let plan = build_plan(&scaled, &c, 5);
    // The dark top row appears as the highest machine row, index 1.
    assert_eq!(plan.len(), 1);
    assert_eq!(plan[0].row, 1);
}

#[test]
fn serpentine_reverses_span_order_and_endpoints() {
    let c = base_config();
    // Two dark rows with two separated dark runs each.
    let row = vec![0u8, 255, 0, 0];
    let mut px = row.clone();
    px.extend_from_slice(&row);
    let scaled = Bitmap::new(4, 2, px).unwrap();
    let plan = build_plan(&scaled, &c, 5);
    assert_eq!(plan.len(), 2);
    assert!(!plan[0].rtl);
    assert!(plan[1].rtl);
    // Left-to-right: spans (0,1) and (2,4) in order, start before end.
    let x = |col: u32| -> u128 {
        // round(col * 25.4 / 300 mm, scaled by 10^5)
        (2 * (col as u128) * 25400 * 100000 + 300000) / (2 * 300000)
    };
    assert_eq!(plan[0].moves, vec![(x(0), x(1)), (x(2), x(4))]);
    // Right-to-left: the spans in reverse order, each traversed end-to-start.
    assert_eq!(plan[1].moves, vec![(x(4), x(2)), (x(1), x(0))]);
}
