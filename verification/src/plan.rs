//! Motion planning: orders rows bottom-to-top, alternates scan direction for
//! serpentine motion, and converts pixel coordinates to physical machine
//! coordinates quantized to the resolved decimal precision.

use vstd::prelude::*;
use crate::bitmap::Bitmap;
use crate::config::{Config, HMotion};
use crate::num::{pow10, pow10_u128, round_div, round_div_u128, lemma_pow10_bounds};
use crate::spans::{Span, row_spans, spans_view, extract_row_spans};

verus! {

/// The mathematical reading of one planned row: its machine row index
/// (0 = bottom), its scan direction, its physical Y coordinate scaled by
/// 10^precision, and its laser-on moves as (from, to) X coordinates scaled
/// the same way, already direction-ordered.
pub ghost struct RowPlanModel {
    pub row: int,
    pub rtl: bool,
    pub y: int,
    pub moves: Seq<(int, int)>,
}

/// One planned scan line: a machine row index (0 = bottom), a direction
/// flag, the row's physical Y coordinate, and its laser-on moves in
/// execution order. Coordinates are integers scaled by 10^precision.
pub struct RowPlan {
    pub row: u32,
    pub rtl: bool,
    pub y_scaled: u128,
    pub moves: Vec<(u128, u128)>,
}

impl RowPlan {
    /// The mathematical reading of this row plan.
    pub open spec fn model(self) -> RowPlanModel {
        RowPlanModel {
            row: self.row as int,
            rtl: self.rtl,
            y: self.y_scaled as int,
            moves: moves_view(self.moves@),
        }
    }
}

/// The mathematical reading of a move list.
pub open spec fn moves_view(v: Seq<(u128, u128)>) -> Seq<(int, int)> {
    v.map_values(|m: (u128, u128)| (m.0 as int, m.1 as int))
}

/// The mathematical reading of a whole plan.
pub open spec fn plan_view(v: Seq<RowPlan>) -> Seq<RowPlanModel> {
    v.map_values(|rp: RowPlan| rp.model())
}

/// Numerator factor of the pixel-to-physical X conversion, scaled by
/// 10^precision: one output line's pitch when horizontal quantization is
/// active, the native pixel pitch (25.4/dpi mm) otherwise.
pub open spec fn x_num(c: Config, dp: nat) -> int {
    if c.quantize_horizontal {
        pow10(dp)
    } else {
        25400 * pow10(dp)
    }
}

/// Denominator of the pixel-to-physical X conversion.
pub open spec fn x_den(c: Config) -> int {
    if c.quantize_horizontal {
        c.lines_per_mm as int
    } else {
        c.dpi_thousandths as int
    }
}

/// Physical X coordinate of pixel column `col`, scaled by 10^precision and
/// rounded to the nearest integer.
pub open spec fn x_coord(c: Config, dp: nat, col: int) -> int {
    round_div(col * x_num(c, dp), x_den(c))
}

/// Physical Y coordinate of machine row `row`, scaled by 10^precision and
/// rounded: the beam centers vertically within the scan line's band, so the
/// coordinate is row/lines_per_mm plus half a line, i.e. (2 row + 1) /
/// (2 lines_per_mm).
pub open spec fn y_coord(c: Config, dp: nat, row: int) -> int {
    round_div((2 * row + 1) * pow10(dp), 2 * c.lines_per_mm)
}

/// The moves of a left-to-right row: each span becomes one engraving move
/// from its start column's X to its end column's X.
pub open spec fn ltr_moves(sp: Seq<(int, int)>, c: Config, dp: nat) -> Seq<(int, int)> {
    sp.map_values(|s: (int, int)| (x_coord(c, dp, s.0), x_coord(c, dp, s.1)))
}

/// The moves of a right-to-left row: the spans in reverse order, each
/// traversed from its end column's X down to its start column's X.
pub open spec fn rtl_moves(sp: Seq<(int, int)>, c: Config, dp: nat) -> Seq<(int, int)> {
    Seq::new(sp.len(), |k: int| (x_coord(c, dp, sp[sp.len() - 1 - k].1),
        x_coord(c, dp, sp[sp.len() - 1 - k].0)))
}

/// The moves of a row in its direction order.
pub open spec fn row_moves(sp: Seq<(int, int)>, c: Config, dp: nat, rtl: bool) -> Seq<(int, int)> {
    if rtl {
        rtl_moves(sp, c, dp)
    } else {
        ltr_moves(sp, c, dp)
    }
}

/// The plan from machine row `r` (0 = bottom) upward, with `odd` recording
/// whether an odd number of rows has been emitted so far. Machine row `r`
/// shows image row `height - 1 - r`: the vertical flip that makes image row
/// 0 the topmost physical row. A row with no spans is skipped and does not
/// flip the direction toggle; an emitted row runs right-to-left exactly when
/// the motion mode is bidirectional and the toggle is odd.
pub open spec fn plan_from(b: Bitmap, c: Config, dp: nat, r: int, odd: bool) -> Seq<RowPlanModel>
    decreases b.height - r,
{
    if r < 0 || r >= b.height {
        Seq::empty()
    } else {
        let sp = row_spans(b.row(b.height - 1 - r), c.threshold);
        if sp.len() == 0 {
            plan_from(b, c, dp, r + 1, odd)
        } else {
            let rtl = c.motion is Bi && odd;
            seq![RowPlanModel { row: r, rtl, y: y_coord(c, dp, r), moves: row_moves(sp, c, dp, rtl) }]
                + plan_from(b, c, dp, r + 1, !odd)
        }
    }
}

/// The full plan of a scaled bitmap: every non-blank row, bottom-to-top.
pub open spec fn spec_plan(b: Bitmap, c: Config, dp: nat) -> Seq<RowPlanModel> {
    plan_from(b, c, dp, 0, false)
}

/// Physical X coordinate of pixel column `col`, scaled by 10^dp.
pub fn x_coord_u128(c: &Config, dp: u32, col: u32) -> (r: u128)
    requires
        c.valid(),
        dp <= 12,
    ensures
        r == x_coord(*c, dp as nat, col as int),
{
    let p = pow10_u128(dp);
    proof {
        lemma_pow10_bounds(dp as nat);
        assert((col as int) * 25400 * (p as int) < 0x1_0000_0000_0000_0000_0000_0000int)
            by (nonlinear_arith)
            requires
                col < 0x1_0000_0000,
                0 <= p <= 1_000_000_000_000,
        ;
        assert((col as int) * (p as int) <= (col as int) * 25400 * (p as int))
            by (nonlinear_arith)
            requires
                col >= 0,
                p >= 0,
        ;
        assert((col as int) * 25400 * (p as int) >= 0) by (nonlinear_arith)
            requires
                col >= 0,
                p >= 0,
        ;
        assert((col as int) * 25400 * (p as int) == (col as int) * (25400 * (p as int)))
            by (nonlinear_arith);
    }
    if c.quantize_horizontal {
        round_div_u128((col as u128) * p, c.lines_per_mm as u128)
    } else {
        round_div_u128((col as u128) * 25400 * p, c.dpi_thousandths as u128)
    }
}

/// Physical Y coordinate of machine row `row`, scaled by 10^dp.
pub fn y_coord_u128(c: &Config, dp: u32, row: u32) -> (r: u128)
    requires
        c.valid(),
        dp <= 12,
    ensures
        r == y_coord(*c, dp as nat, row as int),
{
    let p = pow10_u128(dp);
    proof {
        lemma_pow10_bounds(dp as nat);
        assert((2 * (row as int) + 1) * (p as int) < 0x1_0000_0000_0000_0000_0000_0000int)
            by (nonlinear_arith)
            requires
                row < 0x1_0000_0000,
                0 <= p <= 1_000_000_000_000,
        ;
        assert((2 * (row as int) + 1) * (p as int) >= 0) by (nonlinear_arith)
            requires
                row >= 0,
                p >= 1,
        ;
    }
    round_div_u128((2 * (row as u128) + 1) * p, 2 * (c.lines_per_mm as u128))
}

/// Converts one row's spans into direction-ordered physical moves.
pub fn build_moves(sp: &Vec<Span>, c: &Config, dp: u32, rtl: bool) -> (mv: Vec<(u128, u128)>)
    requires
        c.valid(),
        dp <= 12,
    ensures
        moves_view(mv@) == row_moves(spans_view(sp@), *c, dp as nat, rtl),
{
    let n = sp.len();
    let mut mv: Vec<(u128, u128)> = Vec::new();
    if rtl {
        let mut k: usize = 0;
        while k < n
            invariant
                c.valid(),
                dp <= 12,
                k <= n == sp.len(),
                mv@.len() == k,
                forall|j: int| 0 <= j < k
                    ==> #[trigger] moves_view(mv@)[j] == rtl_moves(spans_view(sp@), *c, dp as nat)[j],
            decreases n - k,
        {
            let s = sp[n - 1 - k];
            let a = x_coord_u128(c, dp, s.end);
            let b = x_coord_u128(c, dp, s.start);
            let ghost mv0 = mv@;
            mv.push((a, b));
            proof {
                assert(forall|j: int| 0 <= j < k
                    ==> #[trigger] moves_view(mv@)[j] == moves_view(mv0)[j]);
                assert(moves_view(mv@)[k as int] == (a as int, b as int));
                assert(spans_view(sp@)[n - 1 - k as int] == (s.start as int, s.end as int));
                assert(rtl_moves(spans_view(sp@), *c, dp as nat)[k as int]
                    == (a as int, b as int));
            }
            k = k + 1;
        }
        proof {
            assert(moves_view(mv@) =~= rtl_moves(spans_view(sp@), *c, dp as nat));
        }
    } else {
        let mut k: usize = 0;
        while k < n
            invariant
                c.valid(),
                dp <= 12,
                k <= n == sp.len(),
                mv@.len() == k,
                forall|j: int| 0 <= j < k
                    ==> #[trigger] moves_view(mv@)[j] == ltr_moves(spans_view(sp@), *c, dp as nat)[j],
            decreases n - k,
        {
            let s = sp[k];
            let a = x_coord_u128(c, dp, s.start);
            let b = x_coord_u128(c, dp, s.end);
            let ghost mv0 = mv@;
            mv.push((a, b));
            proof {
                assert(forall|j: int| 0 <= j < k
                    ==> #[trigger] moves_view(mv@)[j] == moves_view(mv0)[j]);
                assert(moves_view(mv@)[k as int] == (a as int, b as int));
                assert(spans_view(sp@)[k as int] == (s.start as int, s.end as int));
                assert(ltr_moves(spans_view(sp@), *c, dp as nat)[k as int]
                    == (a as int, b as int));
            }
            k = k + 1;
        }
        proof {
            assert(moves_view(mv@) =~= ltr_moves(spans_view(sp@), *c, dp as nat));
        }
    }
    mv
}

/// Builds the full motion plan of a scaled bitmap: rows bottom-to-top (the
/// vertical flip), blank rows skipped without flipping the serpentine
/// toggle, coordinates quantized to 10^-dp millimeters.
pub fn build_plan(b: &Bitmap, c: &Config, dp: u32) -> (out: Vec<RowPlan>)
    requires
        b.wf(),
        c.valid(),
        dp <= 12,
    ensures
        plan_view(out@) == spec_plan(*b, *c, dp as nat),
{
    let mut out: Vec<RowPlan> = Vec::new();
    let mut odd = false;
    let mut r: u32 = 0;
    proof {
        assert(plan_view(out@) =~= Seq::<RowPlanModel>::empty());
    }
    while r < b.height
        invariant
            b.wf(),
            c.valid(),
            dp <= 12,
            r <= b.height,
            plan_view(out@) + plan_from(*b, *c, dp as nat, r as int, odd)
                =~= spec_plan(*b, *c, dp as nat),
        decreases b.height - r,
    {
        let img_row = b.height - 1 - r;
        let sp = extract_row_spans(b, img_row, c.threshold);
        let ghost spans = row_spans(b.row(b.height - 1 - r as int), c.threshold);
        proof {
            assert(spans_view(sp@) == spans);
            assert(sp@.len() == spans.len());
        }
        if sp.len() > 0 {
            let rtl = (match c.motion {
                HMotion::Bi => true,
                HMotion::Uni => false,
            }) && odd;
            let yc = y_coord_u128(c, dp, r);
            let moves = build_moves(&sp, c, dp, rtl);
            let ghost out0 = out@;
            out.push(RowPlan { row: r, rtl, y_scaled: yc, moves });
            proof {
                let ghost m = RowPlanModel {
                    row: r as int,
                    rtl,
                    y: y_coord(*c, dp as nat, r as int),
                    moves: row_moves(spans, *c, dp as nat, rtl),
                };
                assert(out@.last().model() == m);
                assert(plan_view(out@) =~= plan_view(out0) + seq![m]);
                assert(plan_from(*b, *c, dp as nat, r as int, odd)
                    == seq![m] + plan_from(*b, *c, dp as nat, r as int + 1, !odd));
                assert((plan_view(out0) + seq![m])
                    + plan_from(*b, *c, dp as nat, r as int + 1, !odd)
                    =~= plan_view(out0) + (seq![m]
                        + plan_from(*b, *c, dp as nat, r as int + 1, !odd)));
            }
            odd = !odd;
        } else {
            proof {
                assert(plan_from(*b, *c, dp as nat, r as int, odd)
                    == plan_from(*b, *c, dp as nat, r as int + 1, odd));
            }
        }
        r = r + 1;
    }
    proof {
        assert(plan_view(out@) + Seq::<RowPlanModel>::empty() =~= plan_view(out@));
    }
    out
}

/// Converting pixel columns to physical X preserves their order: the pitch
/// numerator is non-negative and the denominator positive, and rounding a
/// larger exact position never lands below rounding a smaller one.
pub proof fn lemma_x_coord_monotone(c: Config, dp: nat, a: int, b: int)
    requires
        c.valid(),
        0 <= a <= b,
    ensures
        x_coord(c, dp, a) <= x_coord(c, dp, b),
{
    crate::num::lemma_pow10_pos(dp);
    assert(x_num(c, dp) >= 0);
    assert(a * x_num(c, dp) <= b * x_num(c, dp)) by (nonlinear_arith)
        requires
            0 <= a <= b,
            x_num(c, dp) >= 0,
    ;
    vstd::arithmetic::div_mod::lemma_div_is_ordered(
        2 * (a * x_num(c, dp)) + x_den(c),
        2 * (b * x_num(c, dp)) + x_den(c),
        2 * x_den(c),
    );
}

/// Direction-order law: in a left-to-right row every engraving move runs
/// toward larger (or equal, after rounding) X and successive moves start at
/// or beyond the previous end; in a right-to-left row the first move targets
/// the rightmost span edge and every move runs toward smaller X, successive
/// moves likewise. This holds for the spans of any row.
pub proof fn lemma_row_moves_direction_ordered(p: Seq<u8>, t: u8, c: Config, dp: nat, rtl: bool)
    requires
        c.valid(),
    ensures
        forall|k: int| 0 <= k < row_moves(row_spans(p, t), c, dp, rtl).len()
            ==> if rtl {
                (#[trigger] row_moves(row_spans(p, t), c, dp, rtl)[k]).0
                    >= row_moves(row_spans(p, t), c, dp, rtl)[k].1
            } else {
                (#[trigger] row_moves(row_spans(p, t), c, dp, rtl)[k]).0
                    <= row_moves(row_spans(p, t), c, dp, rtl)[k].1
            },
        forall|k: int| 0 <= k < row_moves(row_spans(p, t), c, dp, rtl).len() - 1
            ==> if rtl {
                (#[trigger] row_moves(row_spans(p, t), c, dp, rtl)[k]).1
                    >= row_moves(row_spans(p, t), c, dp, rtl)[k + 1].0
            } else {
                (#[trigger] row_moves(row_spans(p, t), c, dp, rtl)[k]).1
                    <= row_moves(row_spans(p, t), c, dp, rtl)[k + 1].0
            },
{
    crate::spans::lemma_row_spans_increasing(p, t);
    let sp = row_spans(p, t);
    let mv = row_moves(sp, c, dp, rtl);
    let n = sp.len() as int;
    assert(mv.len() == n);
    assert forall|k: int| 0 <= k < n
        implies if rtl { (#[trigger] mv[k]).0 >= mv[k].1 } else { (#[trigger] mv[k]).0 <= mv[k].1 } by {
        if rtl {
            assert(mv[k] == (x_coord(c, dp, sp[n - 1 - k].1), x_coord(c, dp, sp[n - 1 - k].0)));
            lemma_x_coord_monotone(c, dp, sp[n - 1 - k].0, sp[n - 1 - k].1);
        } else {
            assert(mv[k] == (x_coord(c, dp, sp[k].0), x_coord(c, dp, sp[k].1)));
            lemma_x_coord_monotone(c, dp, sp[k].0, sp[k].1);
        }
    }
    assert forall|k: int| 0 <= k < n - 1
        implies if rtl { (#[trigger] mv[k]).1 >= mv[k + 1].0 } else { (#[trigger] mv[k]).1 <= mv[k + 1].0 } by {
        if rtl {
            let j = n - 2 - k;
            assert(mv[k].1 == x_coord(c, dp, sp[n - 1 - k].0));
            assert(mv[k + 1].0 == x_coord(c, dp, sp[j].1));
            assert(sp[j].1 < sp[j + 1].0);
            assert(0 <= sp[j].1);
            lemma_x_coord_monotone(c, dp, sp[j].1, sp[n - 1 - k].0);
        } else {
            assert(mv[k].1 == x_coord(c, dp, sp[k].1));
            assert(mv[k + 1].0 == x_coord(c, dp, sp[k + 1].0));
            assert(sp[k].1 < sp[k + 1].0);
            assert(0 <= sp[k].0 < sp[k].1);
            lemma_x_coord_monotone(c, dp, sp[k].1, sp[k + 1].0);
        }
    }
}

/// Direction structure of a partial plan: its first emitted row's direction
/// comes from the running toggle, and each later emitted row reverses the
/// one before it (in bidirectional mode; unidirectional rows all run
/// left-to-right).
proof fn lemma_plan_from_directions(b: Bitmap, c: Config, dp: nat, r: int, odd: bool)
    requires
        0 <= r,
    ensures
        plan_from(b, c, dp, r, odd).len() > 0
            ==> plan_from(b, c, dp, r, odd)[0].rtl == (c.motion is Bi && odd),
        forall|i: int| 0 <= i < plan_from(b, c, dp, r, odd).len() - 1
            ==> (#[trigger] plan_from(b, c, dp, r, odd)[i + 1]).rtl
                == (c.motion is Bi && !plan_from(b, c, dp, r, odd)[i].rtl),
    decreases b.height - r,
{
    if r < b.height {
        let sp = row_spans(b.row(b.height - 1 - r), c.threshold);
        if sp.len() == 0 {
            lemma_plan_from_directions(b, c, dp, r + 1, odd);
            assert(plan_from(b, c, dp, r, odd) == plan_from(b, c, dp, r + 1, odd));
        } else {
            lemma_plan_from_directions(b, c, dp, r + 1, !odd);
            let rtl = c.motion is Bi && odd;
            let m = RowPlanModel { row: r, rtl, y: y_coord(c, dp, r), moves: row_moves(sp, c, dp, rtl) };
            let rest = plan_from(b, c, dp, r + 1, !odd);
            let whole = seq![m] + rest;
            assert(plan_from(b, c, dp, r, odd) == whole);
            assert(whole[0] == m);
            assert(forall|i: int| 0 <= i < rest.len() ==> #[trigger] whole[i + 1] == rest[i]);
            assert forall|i: int| 0 <= i < whole.len() - 1
                implies (#[trigger] whole[i + 1]).rtl == (c.motion is Bi && !whole[i].rtl) by {
                if i == 0 {
                    if rest.len() > 0 {
                        assert(whole[1] == rest[0]);
                        assert(rest[0].rtl == (c.motion is Bi && !odd));
                    }
                } else {
                    let k = i - 1;
                    assert(whole[i] == rest[k]);
                    assert(whole[i + 1] == rest[k + 1]);
                    assert(rest[k + 1].rtl == (c.motion is Bi && !rest[k].rtl));
                }
            }
        }
    }
}

/// Serpentine law: in the full plan the first emitted row runs
/// left-to-right, and in bidirectional mode each later emitted row runs
/// opposite to the emitted row before it — whatever blank rows lie between
/// them, since a skipped row never touches the toggle. In unidirectional
/// mode every row runs left-to-right.
pub proof fn lemma_serpentine(b: Bitmap, c: Config, dp: nat)
    ensures
        spec_plan(b, c, dp).len() > 0 ==> spec_plan(b, c, dp)[0].rtl == false,
        forall|i: int| 0 <= i < spec_plan(b, c, dp).len() - 1
            ==> (#[trigger] spec_plan(b, c, dp)[i + 1]).rtl
                == (c.motion is Bi && !spec_plan(b, c, dp)[i].rtl),
{
    lemma_plan_from_directions(b, c, dp, 0, false);
}

/// Row structure of a partial plan: every entry stands for a machine row in
/// [r, height) whose image row (height - 1 - row) has at least one span, it
/// carries exactly that row's direction-ordered moves and Y coordinate, the
/// machine rows appear in strictly increasing order, and every non-blank
/// machine row in [r, height) appears.
proof fn lemma_plan_from_rows(b: Bitmap, c: Config, dp: nat, r: int, odd: bool)
    requires
        0 <= r,
    ensures
        forall|i: int| 0 <= i < plan_from(b, c, dp, r, odd).len()
            ==> r <= (#[trigger] plan_from(b, c, dp, r, odd)[i]).row < b.height,
        forall|i: int, j: int| 0 <= i < j < plan_from(b, c, dp, r, odd).len()
            ==> (#[trigger] plan_from(b, c, dp, r, odd)[i]).row
                < (#[trigger] plan_from(b, c, dp, r, odd)[j]).row,
        forall|i: int| 0 <= i < plan_from(b, c, dp, r, odd).len()
            ==> {
                let m = #[trigger] plan_from(b, c, dp, r, odd)[i];
                let sp = row_spans(b.row(b.height - 1 - m.row), c.threshold);
                sp.len() > 0 && m.moves == row_moves(sp, c, dp, m.rtl)
                    && m.y == y_coord(c, dp, m.row)
            },
        forall|rr: int| r <= rr < b.height
            && (#[trigger] row_spans(b.row(b.height - 1 - rr), c.threshold)).len() > 0
            ==> exists|i: int| 0 <= i < plan_from(b, c, dp, r, odd).len()
                && (#[trigger] plan_from(b, c, dp, r, odd)[i]).row == rr,
    decreases b.height - r,
{
    if r < b.height {
        let sp = row_spans(b.row(b.height - 1 - r), c.threshold);
        if sp.len() == 0 {
            lemma_plan_from_rows(b, c, dp, r + 1, odd);
            assert(plan_from(b, c, dp, r, odd) == plan_from(b, c, dp, r + 1, odd));
        } else {
            lemma_plan_from_rows(b, c, dp, r + 1, !odd);
            let rtl = c.motion is Bi && odd;
            let m = RowPlanModel { row: r, rtl, y: y_coord(c, dp, r), moves: row_moves(sp, c, dp, rtl) };
            let rest = plan_from(b, c, dp, r + 1, !odd);
            let whole = seq![m] + rest;
            assert(plan_from(b, c, dp, r, odd) == whole);
            assert(whole[0] == m);
            assert(forall|i: int| 0 <= i < rest.len() ==> #[trigger] whole[i + 1] == rest[i]);
            assert forall|rr: int| r <= rr < b.height
                && (#[trigger] row_spans(b.row(b.height - 1 - rr), c.threshold)).len() > 0
                implies exists|i: int| 0 <= i < whole.len()
                    && (#[trigger] whole[i]).row == rr by {
                if rr == r {
                    assert(whole[0].row == rr);
                } else {
                    let i = choose|i: int| 0 <= i < rest.len() && (#[trigger] rest[i]).row == rr;
                    assert(whole[i + 1].row == rr);
                }
            }
        }
    }
}

/// Vertical flip law: every entry of the full plan shows the spans of image
/// row (height - 1 - row) at machine row `row`, machine rows increase
/// strictly bottom-to-top, and every image row with at least one span is
/// planned. In particular image row 0 (the top of the scaled bitmap)
/// appears, if it is not blank, as the highest machine row (height - 1) —
/// the last entry — and image row height - 1 as machine row 0, the first.
pub proof fn lemma_row_flip(b: Bitmap, c: Config, dp: nat)
    ensures
        forall|i: int| 0 <= i < spec_plan(b, c, dp).len()
            ==> 0 <= (#[trigger] spec_plan(b, c, dp)[i]).row < b.height,
        forall|i: int, j: int| 0 <= i < j < spec_plan(b, c, dp).len()
            ==> (#[trigger] spec_plan(b, c, dp)[i]).row
                < (#[trigger] spec_plan(b, c, dp)[j]).row,
        forall|i: int| 0 <= i < spec_plan(b, c, dp).len()
            ==> {
                let m = #[trigger] spec_plan(b, c, dp)[i];
                let sp = row_spans(b.row(b.height - 1 - m.row), c.threshold);
                sp.len() > 0 && m.moves == row_moves(sp, c, dp, m.rtl)
                    && m.y == y_coord(c, dp, m.row)
            },
        forall|rr: int| 0 <= rr < b.height
            && (#[trigger] row_spans(b.row(b.height - 1 - rr), c.threshold)).len() > 0
            ==> exists|i: int| 0 <= i < spec_plan(b, c, dp).len()
                && (#[trigger] spec_plan(b, c, dp)[i]).row == rr,
        b.height > 0 && row_spans(b.row(0), c.threshold).len() > 0
            ==> spec_plan(b, c, dp).len() > 0
                && spec_plan(b, c, dp).last().row == b.height - 1,
        b.height > 0 && row_spans(b.row(b.height - 1), c.threshold).len() > 0
            ==> spec_plan(b, c, dp).len() > 0 && spec_plan(b, c, dp)[0].row == 0,
{
    lemma_plan_from_rows(b, c, dp, 0, false);
    let p = spec_plan(b, c, dp);
    if b.height > 0 && row_spans(b.row(0), c.threshold).len() > 0 {
        let rr = b.height - 1;
        assert(b.height - 1 - rr == 0);
        assert(row_spans(b.row(b.height - 1 - rr), c.threshold).len() > 0);
        let i = choose|i: int| 0 <= i < p.len() && (#[trigger] p[i]).row == rr;
        if i < p.len() - 1 {
            assert(p[i].row < p[p.len() - 1].row);
            assert(p[p.len() - 1].row < b.height);
            assert(false);
        }
        assert(p.last() == p[p.len() - 1]);
    }
    if b.height > 0 && row_spans(b.row(b.height - 1), c.threshold).len() > 0 {
        let rr: int = 0;
        assert(row_spans(b.row(b.height - 1 - rr), c.threshold).len() > 0);
        let i = choose|i: int| 0 <= i < p.len() && (#[trigger] p[i]).row == rr;
        if i > 0 {
            assert(p[0].row < p[i].row);
            assert(p[0].row >= 0);
            assert(false);
        }
    }
}

} // verus!
