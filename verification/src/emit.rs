//! Toolpath emission: serializes a motion plan into the machine's textual
//! protocol, with every coordinate formatted at exactly the resolved decimal
//! precision.

use vstd::prelude::*;
use crate::num::{pow10, pow10_u128, lemma_pow10_bounds};
use crate::plan::{RowPlan, RowPlanModel, plan_view, moves_view};
use vstd::string::StringExecFns;

verus! {

/// The decimal digit character for `d` (0 through 9).
pub open spec fn dec_digit(d: int) -> char {
    if d == 0 { '0' }
    else if d == 1 { '1' }
    else if d == 2 { '2' }
    else if d == 3 { '3' }
    else if d == 4 { '4' }
    else if d == 5 { '5' }
    else if d == 6 { '6' }
    else if d == 7 { '7' }
    else if d == 8 { '8' }
    else { '9' }
}

/// The usual decimal notation of a non-negative integer: no leading zeros,
/// except that zero itself is "0".
pub open spec fn dec_rep(n: int) -> Seq<char>
    decreases n,
{
    if n < 10 {
        seq![dec_digit(n)]
    } else {
        dec_rep(n / 10).push(dec_digit(n % 10))
    }
}

/// The last `w` decimal digits of a non-negative integer, zero-padded to
/// exactly `w` characters.
pub open spec fn dec_fixed(n: int, w: nat) -> Seq<char>
    decreases w,
{
    if w == 0 {
        Seq::empty()
    } else {
        dec_fixed(n / 10, (w - 1) as nat).push(dec_digit(n % 10))
    }
}

/// A physical coordinate scaled by 10^dp, written with exactly dp fractional
/// digits: the integer part in decimal, then (when dp > 0) a point and the
/// zero-padded fraction. Multiplied back by 10^dp the written value is the
/// integer `v` again: no trailing-zero trimming, no sub-step fractions.
pub open spec fn coord_rep(v: int, dp: nat) -> Seq<char> {
    if dp == 0 {
        dec_rep(v)
    } else {
        dec_rep(v / pow10(dp)) + "."@ + dec_fixed(v % pow10(dp), dp)
    }
}

/// One engraving move: a rapid positioning move with the laser off (carrying
/// the row's Y only when given), then a linear move at the commanded power.
pub open spec fn render_move(m: (int, int), y: Option<int>, power: int, dp: nat) -> Seq<char> {
    match y {
        Some(yv) => "G0 X"@ + coord_rep(m.0, dp) + " Y"@ + coord_rep(yv, dp)
            + " S0\r\nG1 X"@ + coord_rep(m.1, dp) + " S"@ + dec_rep(power) + "\r\n"@,
        None => "G0 X"@ + coord_rep(m.0, dp)
            + " S0\r\nG1 X"@ + coord_rep(m.1, dp) + " S"@ + dec_rep(power) + "\r\n"@,
    }
}

/// The moves of one row from index `i` on, Y carried by none of them.
pub open spec fn render_moves_from(mv: Seq<(int, int)>, power: int, dp: nat, i: int) -> Seq<char>
    decreases mv.len() - i,
{
    if i < 0 || i >= mv.len() {
        Seq::empty()
    } else {
        render_move(mv[i], None, power, dp) + render_moves_from(mv, power, dp, i + 1)
    }
}

/// One planned row: a comment naming the row and its direction, then its
/// moves; only the first move carries the row's Y coordinate.
pub open spec fn render_row(m: RowPlanModel, power: int, dp: nat) -> Seq<char> {
    "( row "@ + dec_rep(m.row) + (if m.rtl { ": <- )\r\n"@ } else { ": -> )\r\n"@ })
        + if m.moves.len() == 0 {
            Seq::<char>::empty()
        } else {
            render_move(m.moves[0], Some(m.y), power, dp)
                + render_moves_from(m.moves, power, dp, 1)
        }
}

/// The plan's rows from index `i` on.
pub open spec fn render_rows_from(p: Seq<RowPlanModel>, power: int, dp: nat, i: int) -> Seq<char>
    decreases p.len() - i,
{
    if i < 0 || i >= p.len() {
        Seq::empty()
    } else {
        render_row(p[i], power, dp) + render_rows_from(p, power, dp, i + 1)
    }
}

/// The whole program: absolute positioning, a rapid move to the origin at
/// the configured feed, the laser armed at zero power, every planned row,
/// and a final laser-off.
pub open spec fn render_gcode(p: Seq<RowPlanModel>, feed: int, power: int, dp: nat) -> Seq<char> {
    "G90\r\nG0 X0 Y0 F"@ + dec_rep(feed) + "\r\nM3 S0\r\n"@
        + render_rows_from(p, power, dp, 0) + "M5\r\n"@
}

/// dec_fixed always writes exactly `w` characters.
pub proof fn lemma_dec_fixed_len(n: int, w: nat)
    ensures
        dec_fixed(n, w).len() == w,
    decreases w,
{
    if w > 0 {
        lemma_dec_fixed_len(n / 10, (w - 1) as nat);
    }
}

/// Rounding law: an emitted coordinate is written from an integer `v`
/// already scaled by 10^precision, with exactly `dp` fractional digits —
/// the integer part and the zero-padded fraction recombine to `v` itself,
/// so the written value, multiplied by 10^precision, is an integer again
/// and never implies sub-step motion.
pub proof fn lemma_coord_quantized(v: int, dp: nat)
    requires
        v >= 0,
        dp > 0,
    ensures
        coord_rep(v, dp) == dec_rep(v / pow10(dp)) + "."@ + dec_fixed(v % pow10(dp), dp),
        dec_fixed(v % pow10(dp), dp).len() == dp,
        (v / pow10(dp)) * pow10(dp) + (v % pow10(dp)) == v,
{
    crate::num::lemma_pow10_pos(dp);
    lemma_dec_fixed_len(v % pow10(dp), dp);
    vstd::arithmetic::div_mod::lemma_fundamental_div_mod(v, pow10(dp));
    vstd::arithmetic::mul::lemma_mul_is_commutative(pow10(dp), v / pow10(dp));
}

/// The one-character string for a decimal digit.
fn digit_str(d: u128) -> (r: &'static str)
    requires
        d < 10,
    ensures
        r@ == seq![dec_digit(d as int)],
{
    proof {
        reveal_strlit("0");
        reveal_strlit("1");
        reveal_strlit("2");
        reveal_strlit("3");
        reveal_strlit("4");
        reveal_strlit("5");
        reveal_strlit("6");
        reveal_strlit("7");
        reveal_strlit("8");
        reveal_strlit("9");
    }
    let r = if d == 0 { "0" }
    else if d == 1 { "1" }
    else if d == 2 { "2" }
    else if d == 3 { "3" }
    else if d == 4 { "4" }
    else if d == 5 { "5" }
    else if d == 6 { "6" }
    else if d == 7 { "7" }
    else if d == 8 { "8" }
    else { "9" };
    proof {
        assert(r@ =~= seq![dec_digit(d as int)]);
    }
    r
}

/// Appends the decimal notation of `n`.
fn push_dec(n: u128, out: &mut String)
    ensures
        final(out)@ == old(out)@ + dec_rep(n as int),
    decreases n,
{
    if n >= 10 {
        push_dec(n / 10, out);
        out.append(digit_str(n % 10));
        proof {
            assert(dec_rep(n as int)
                == dec_rep(n as int / 10).push(dec_digit(n as int % 10)));
            assert(old(out)@ + dec_rep(n as int)
                =~= (old(out)@ + dec_rep(n as int / 10)) + seq![dec_digit(n as int % 10)]);
        }
    } else {
        out.append(digit_str(n));
        proof {
            assert(old(out)@ + dec_rep(n as int) =~= old(out)@ + seq![dec_digit(n as int)]);
        }
    }
}

/// Appends exactly `w` decimal digits: the value `n` modulo 10^w,
/// zero-padded.
fn push_dec_fixed(n: u128, w: u32, out: &mut String)
    ensures
        final(out)@ == old(out)@ + dec_fixed(n as int, w as nat),
    decreases w,
{
    if w > 0 {
        push_dec_fixed(n / 10, w - 1, out);
        out.append(digit_str(n % 10));
        proof {
            assert(dec_fixed(n as int, w as nat)
                == dec_fixed(n as int / 10, (w - 1) as nat).push(dec_digit(n as int % 10)));
            assert(old(out)@ + dec_fixed(n as int, w as nat)
                =~= (old(out)@ + dec_fixed(n as int / 10, (w - 1) as nat))
                    + seq![dec_digit(n as int % 10)]);
        }
    } else {
        proof {
            assert(old(out)@ + dec_fixed(n as int, 0) =~= old(out)@);
        }
    }
}

/// Appends a scaled coordinate with exactly `dp` fractional digits.
fn push_coord(v: u128, dp: u32, out: &mut String)
    requires
        dp <= 12,
    ensures
        final(out)@ == old(out)@ + coord_rep(v as int, dp as nat),
{
    if dp == 0 {
        push_dec(v, out);
    } else {
        let p = pow10_u128(dp);
        proof {
            lemma_pow10_bounds(dp as nat);
        }
        push_dec(v / p, out);
        out.append(".");
        push_dec_fixed(v % p, dp, out);
        proof {
            assert(old(out)@ + coord_rep(v as int, dp as nat)
                =~= ((old(out)@ + dec_rep(v as int / pow10(dp as nat))) + "."@)
                    + dec_fixed(v as int % pow10(dp as nat), dp as nat));
        }
    }
}

/// Appends one engraving move.
fn emit_move(m: (u128, u128), y: Option<u128>, power: u32, dp: u32, out: &mut String)
    requires
        dp <= 12,
    ensures
        final(out)@ == old(out)@ + render_move((m.0 as int, m.1 as int),
            match y { Some(v) => Some(v as int), None => None::<int> },
            power as int, dp as nat),
{
    out.append("G0 X");
    push_coord(m.0, dp, out);
    match y {
        Some(v) => {
            out.append(" Y");
            push_coord(v, dp, out);
        },
        None => {},
    }
    out.append(" S0\r\nG1 X");
    push_coord(m.1, dp, out);
    out.append(" S");
    push_dec(power as u128, out);
    out.append("\r\n");
    proof {
        match y {
            Some(v) => {
                assert(out@ =~= old(out)@ + ("G0 X"@ + coord_rep(m.0 as int, dp as nat)
                    + " Y"@ + coord_rep(v as int, dp as nat)
                    + " S0\r\nG1 X"@ + coord_rep(m.1 as int, dp as nat)
                    + " S"@ + dec_rep(power as int) + "\r\n"@));
            },
            None => {
                assert(out@ =~= old(out)@ + ("G0 X"@ + coord_rep(m.0 as int, dp as nat)
                    + " S0\r\nG1 X"@ + coord_rep(m.1 as int, dp as nat)
                    + " S"@ + dec_rep(power as int) + "\r\n"@));
            },
        }
    }
}

/// Appends one planned row: its comment line, then its moves, the first
/// carrying the row's Y.
fn emit_row(rp: &RowPlan, power: u32, dp: u32, out: &mut String)
    requires
        dp <= 12,
    ensures
        final(out)@ == old(out)@ + render_row(rp.model(), power as int, dp as nat),
{
    out.append("( row ");
    push_dec(rp.row as u128, out);
    if rp.rtl {
        out.append(": <- )\r\n");
    } else {
        out.append(": -> )\r\n");
    }
    let ghost header = "( row "@ + dec_rep(rp.row as int)
        + (if rp.rtl { ": <- )\r\n"@ } else { ": -> )\r\n"@ });
    proof {
        assert(out@ =~= old(out)@ + header);
    }
    let ghost mv = moves_view(rp.moves@);
    let n = rp.moves.len();
    if n == 0 {
        proof {
            assert(render_row(rp.model(), power as int, dp as nat) =~= header);
        }
    } else {
        let m0 = rp.moves[0];
        proof {
            assert(mv[0] == (m0.0 as int, m0.1 as int));
        }
        emit_move(m0, Some(rp.y_scaled), power, dp, out);
        let ghost first = render_move(mv[0], Some(rp.y_scaled as int), power as int, dp as nat);
        proof {
            assert(out@ =~= (old(out)@ + header) + first);
        }
        let mut j: usize = 1;
        while j < n
            invariant
                dp <= 12,
                1 <= j <= n == rp.moves.len(),
                mv == moves_view(rp.moves@),
                out@ + render_moves_from(mv, power as int, dp as nat, j as int)
                    =~= ((old(out)@ + header) + first)
                        + render_moves_from(mv, power as int, dp as nat, 1),
            decreases n - j,
        {
            let m = rp.moves[j];
            proof {
                assert(mv[j as int] == (m.0 as int, m.1 as int));
            }
            let ghost before = out@;
            emit_move(m, None, power, dp, out);
            proof {
                assert(render_moves_from(mv, power as int, dp as nat, j as int)
                    == render_move(mv[j as int], None, power as int, dp as nat)
                        + render_moves_from(mv, power as int, dp as nat, j as int + 1));
                assert(out@ + render_moves_from(mv, power as int, dp as nat, j as int + 1)
                    =~= before + render_moves_from(mv, power as int, dp as nat, j as int));
            }
            j = j + 1;
        }
        proof {
            assert(render_moves_from(mv, power as int, dp as nat, n as int)
                =~= Seq::<char>::empty());
            assert(out@ =~= ((old(out)@ + header) + first)
                + render_moves_from(mv, power as int, dp as nat, 1));
            assert(rp.model().moves == mv);
            assert(render_row(rp.model(), power as int, dp as nat)
                =~= header + (first + render_moves_from(mv, power as int, dp as nat, 1)));
            assert(out@ =~= old(out)@ + render_row(rp.model(), power as int, dp as nat));
        }
    }
}

/// Serializes a motion plan into the machine's textual protocol. The result
/// is exactly `render_gcode` of the plan's mathematical reading: preamble,
/// every planned row in order, and the final laser-off, with CRLF line ends
/// and every coordinate written with exactly `dp` fractional digits.
pub fn emit_gcode(plan: &Vec<RowPlan>, feed: u32, power: u32, dp: u32) -> (out: String)
    requires
        dp <= 12,
    ensures
        out@ == render_gcode(plan_view(plan@), feed as int, power as int, dp as nat),
{
    let mut out = String::new();
    out.append("G90\r\nG0 X0 Y0 F");
    push_dec(feed as u128, &mut out);
    out.append("\r\nM3 S0\r\n");
    let ghost pre = "G90\r\nG0 X0 Y0 F"@ + dec_rep(feed as int) + "\r\nM3 S0\r\n"@;
    proof {
        assert(out@ =~= pre);
    }
    let ghost pm = plan_view(plan@);
    let mut i: usize = 0;
    while i < plan.len()
        invariant
            dp <= 12,
            i <= plan.len(),
            pm == plan_view(plan@),
            out@ + render_rows_from(pm, power as int, dp as nat, i as int)
                =~= pre + render_rows_from(pm, power as int, dp as nat, 0),
        decreases plan.len() - i,
    {
        proof {
            assert(pm[i as int] == plan@[i as int].model());
        }
        let ghost before = out@;
        emit_row(&plan[i], power, dp, &mut out);
        proof {
            assert(render_rows_from(pm, power as int, dp as nat, i as int)
                == render_row(pm[i as int], power as int, dp as nat)
                    + render_rows_from(pm, power as int, dp as nat, i as int + 1));
            assert(out@ + render_rows_from(pm, power as int, dp as nat, i as int + 1)
                =~= before + render_rows_from(pm, power as int, dp as nat, i as int));
        }
        i = i + 1;
    }
    proof {
        assert(render_rows_from(pm, power as int, dp as nat, plan@.len() as int)
            =~= Seq::<char>::empty());
        assert(out@ =~= pre + render_rows_from(pm, power as int, dp as nat, 0));
    }
    out.append("M5\r\n");
    proof {
        assert(out@ =~= render_gcode(pm, feed as int, power as int, dp as nat));
    }
    out
}

} // verus!
