use lasgrav::emit::emit_gcode;
use lasgrav::plan::{x_coord_u128, y_coord_u128, RowPlan};
use lasgrav::config::{Config, HMotion, Interp};

fn base_config() -> Config {
    Config {
        dpi_thousandths: 300_000,
        threshold: 128,
        interp: Interp::Gaussian,
        lines_per_mm: 8,
        feed: 1000,
        power: 1000,
        motion: HMotion::Bi,
        precision: None,
        quantize_horizontal: false,
        steps_per_mm: 160,
    }
}

#[test]
fn empty_plan_is_preamble_and_postamble_only() {
    let out = emit_gcode(&vec![], 1000, 1000, 5);
    assert_eq!(out, "G90\r\nG0 X0 Y0 F1000\r\nM3 S0\r\nM5\r\n");
}

#[test]
fn only_the_first_move_of_a_row_carries_y() {
    let plan = vec![RowPlan {
        row: 3,
        rtl: false,
        y_scaled: 125,
        moves: vec![(0, 50), (75, 100)],
    }];
    let out = emit_gcode(&plan, 600, 800, 2);
    assert_eq!(
        out,
        "G90\r\nG0 X0 Y0 F600\r\nM3 S0\r\n( row 3: -> )\r\nG0 X0.00 Y1.25 S0\r\nG1 X0.50 S800\r\nG0 X0.75 S0\r\nG1 X1.00 S800\r\nM5\r\n"
    );
}

#[test]
fn reverse_rows_are_marked_and_keep_their_move_order() {
    let plan = vec![RowPlan {
        row: 1,
        rtl: true,
        y_scaled: 999,
        moves: vec![(80, 20)],
    }];
    let out = emit_gcode(&plan, 100, 250, 2);
    assert_eq!(
        out,
        "G90\r\nG0 X0 Y0 F100\r\nM3 S0\r\n( row 1: <- )\r\nG0 X0.80 Y9.99 S0\r\nG1 X0.20 S250\r\nM5\r\n"
    );
}

#[test]
fn zero_precision_writes_bare_integers() {
    let plan = vec![RowPlan {
        row: 0,
        rtl: false,
        y_scaled: 7,
        moves: vec![(1, 2)],
    }];
    let out = emit_gcode(&plan, 5, 6, 0);
    assert_eq!(
        out,
        "G90\r\nG0 X0 Y0 F5\r\nM3 S0\r\n( row 0: -> )\r\nG0 X1 Y7 S0\r\nG1 X2 S6\r\nM5\r\n"
    );
}

#[test]
fn fractions_are_zero_padded_to_the_full_precision() {
    let plan = vec![RowPlan {
        row: 0,
        rtl: false,
        y_scaled: 6250,
        moves: vec![(0, 100000)],
    }];
    let out = emit_gcode(&plan, 1, 2, 5);
    assert_eq!(
        out,
        "G90\r\nG0 X0 Y0 F1\r\nM3 S0\r\n( row 0: -> )\r\nG0 X0.00000 Y0.06250 S0\r\nG1 X1.00000 S2\r\nM5\r\n"
    );
}

#[test]
fn coordinates_are_rounded_to_nearest_step_fraction() {
    let c = base_config();
    // Column 2 at 300 dpi: 2 * 25.4 / 300 = 0.169333... mm, which rounds to
    // 0.16933 at five digits.
    assert_eq!(x_coord_u128(&c, 5, 2), 16933);
    // Row 0 centers half a line up: 1/16 mm = 0.0625.
    assert_eq!(y_coord_u128(&c, 5, 0), 6250);
    // Row 1: 3/16 mm = 0.1875.
    assert_eq!(y_coord_u128(&c, 5, 1), 18750);
    // At two digits 0.0625 rounds down to 0.06 (0.169333 -> 0.17 rounds up).
    assert_eq!(y_coord_u128(&c, 2, 0), 6);
    assert_eq!(x_coord_u128(&c, 2, 2), 17);
}

#[test]
fn quantized_columns_use_the_line_pitch() {
    let mut c = base_config();
    c.quantize_horizontal = true;
    // One column = one line = 1/8 mm.
    assert_eq!(x_coord_u128(&c, 5, 1), 12500);
    assert_eq!(x_coord_u128(&c, 5, 8), 100000);
}
