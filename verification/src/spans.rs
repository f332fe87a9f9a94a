//! Span extraction: threshold binarization of one bitmap row and run-length
//! encoding of the contiguous "on" pixel runs.

use vstd::prelude::*;
use crate::bitmap::Bitmap;

verus! {

/// A contiguous run of "on" (engraved) pixel columns within one row: the
/// laser is on from column `start` up to, in coordinate terms, the leftmost
/// edge of column `end`.
#[derive(Clone, Copy, Debug, PartialEq, Eq, Structural)]
pub struct Span {
    pub start: u32,
    pub end: u32,
}

/// A pixel is "on" (engraved) when its luminance is strictly below the
/// threshold: lower luminance = darker = engrave.
pub open spec fn pixel_on(sample: u8, threshold: u8) -> bool {
    sample < threshold
}

/// The spans of row `p` from column `i` on, given that a run is already open
/// at `open` (if any): a left-to-right scan that closes a run at the first
/// "off" column after it, or at the right edge of the row.
pub open spec fn spans_from(p: Seq<u8>, t: u8, i: int, open: Option<int>) -> Seq<(int, int)>
    decreases p.len() - i,
{
    if i < 0 || i >= p.len() {
        match open {
            Some(s) => seq![(s, p.len() as int)],
            None => Seq::empty(),
        }
    } else {
        let on = pixel_on(p[i], t);
        match open {
            None => if on {
                spans_from(p, t, i + 1, Some(i))
            } else {
                spans_from(p, t, i + 1, None)
            },
            Some(s) => if on {
                spans_from(p, t, i + 1, Some(s))
            } else {
                seq![(s, i)] + spans_from(p, t, i + 1, None)
            },
        }
    }
}

/// All spans of one row: the run-length encoding of its "on" columns.
pub open spec fn row_spans(p: Seq<u8>, t: u8) -> Seq<(int, int)> {
    spans_from(p, t, 0, None)
}

/// The mathematical reading of an extracted span list.
pub open spec fn spans_view(v: Seq<Span>) -> Seq<(int, int)> {
    v.map_values(|s: Span| (s.start as int, s.end as int))
}

/// Extracts the spans of row `y`: a single left-to-right pass that opens a
/// span at the first "on" column of a run and closes it at the first "off"
/// column after it (or at the row's right edge).
pub fn extract_row_spans(b: &Bitmap, y: u32, threshold: u8) -> (r: Vec<Span>)
    requires
        b.wf(),
        y < b.height,
    ensures
        spans_view(r@) == row_spans(b.row(y as int), threshold),
{
    let ghost row = b.row(y as int);
    let mut r: Vec<Span> = Vec::new();
    let mut open: Option<u32> = None;
    let mut x: u32 = 0;
    proof {
        assert(spans_view(r@) =~= Seq::<(int, int)>::empty());
        assert(0 <= (y as int) * (b.width as int)) by (nonlinear_arith)
            requires
                y >= 0,
                b.width >= 0,
        ;
        assert((y as int + 1) * (b.width as int)
            == (y as int) * (b.width as int) + b.width as int) by (nonlinear_arith);
        assert((y as int + 1) * (b.width as int)
            <= (b.height as int) * (b.width as int)) by (nonlinear_arith)
            requires
                y < b.height,
                b.width >= 0,
        ;
        vstd::arithmetic::mul::lemma_mul_is_commutative(b.height as int, b.width as int);
        assert(row.len() == b.width);
    }
    while x < b.width
        invariant
            b.wf(),
            y < b.height,
            x <= b.width,
            row == b.row(y as int),
            row.len() == b.width,
            open matches Some(s) ==> s < x,
            spans_view(r@) + spans_from(row, threshold, x as int, match open {
                Some(s) => Some(s as int),
                None => None,
            }) =~= row_spans(row, threshold),
        decreases b.width - x,
    {
        let on = pixel_on_at(b, x, y, threshold);
        match open {
            None => {
                if on {
                    open = Some(x);
                }
            },
            Some(s) => {
                if !on {
                    let ghost r0 = r@;
                    r.push(Span { start: s, end: x });
                    proof {
                        assert(spans_view(r@) =~= spans_view(r0) + seq![(s as int, x as int)]);
                        assert(spans_view(r0) + (seq![(s as int, x as int)]
                            + spans_from(row, threshold, x as int + 1, None))
                            =~= (spans_view(r0) + seq![(s as int, x as int)])
                                + spans_from(row, threshold, x as int + 1, None));
                    }
                    open = None;
                }
            },
        }
        x = x + 1;
    }
    if let Some(s) = open {
        let ghost r0 = r@;
        r.push(Span { start: s, end: b.width });
        proof {
            assert(spans_view(r@) =~= spans_view(r0) + seq![(s as int, b.width as int)]);
            assert(spans_from(row, threshold, b.width as int, Some(s as int))
                =~= seq![(s as int, b.width as int)]);
        }
    }
    proof {
        assert(spans_view(r@) + Seq::<(int, int)>::empty() =~= spans_view(r@));
    }
    r
}

/// Whether the sample at (x, y) is engraved at the given threshold.
pub fn pixel_on_at(b: &Bitmap, x: u32, y: u32, threshold: u8) -> (r: bool)
    requires
        b.wf(),
        x < b.width,
        y < b.height,
    ensures
        r == pixel_on(b.row(y as int)[x as int], threshold),
{
    b.get(x, y) < threshold
}

/// Structure of the spans produced from column `i` on: every span lies
/// within the row and is non-empty, an open run closes as the first span at
/// its own start, spans past a closed position start at `i` or later, and
/// consecutive spans are separated by at least one "off" column.
proof fn lemma_spans_from_wf(p: Seq<u8>, t: u8, i: int, open: Option<int>)
    requires
        0 <= i <= p.len(),
        open matches Some(s) ==> 0 <= s < i || (s == i && i < p.len() && pixel_on(p[i], t)),
    ensures
        forall|k: int| 0 <= k < spans_from(p, t, i, open).len()
            ==> (#[trigger] spans_from(p, t, i, open)[k]).0
                < spans_from(p, t, i, open)[k].1 <= p.len(),
        forall|k: int| 0 <= k < spans_from(p, t, i, open).len() - 1
            ==> (#[trigger] spans_from(p, t, i, open)[k]).1
                < spans_from(p, t, i, open)[k + 1].0,
        open matches Some(s) ==> spans_from(p, t, i, open).len() > 0
            && spans_from(p, t, i, open)[0].0 == s,
        open matches Some(s) ==> forall|k: int| 0 <= k < spans_from(p, t, i, open).len()
            ==> (#[trigger] spans_from(p, t, i, open)[k]).0 >= s,
        open is None ==> forall|k: int| 0 <= k < spans_from(p, t, i, open).len()
            ==> (#[trigger] spans_from(p, t, i, open)[k]).0 >= i,
    decreases p.len() - i,
{
    if i < p.len() {
        let on = pixel_on(p[i], t);
        match open {
            None => {
                if on {
                    lemma_spans_from_wf(p, t, i + 1, Some(i));
                    assert(spans_from(p, t, i, open) == spans_from(p, t, i + 1, Some(i)));
                } else {
                    lemma_spans_from_wf(p, t, i + 1, None);
                    assert(spans_from(p, t, i, open) == spans_from(p, t, i + 1, None));
                }
            },
            Some(s) => {
                if on {
                    lemma_spans_from_wf(p, t, i + 1, Some(s));
                    assert(spans_from(p, t, i, open) == spans_from(p, t, i + 1, Some(s)));
                } else {
                    lemma_spans_from_wf(p, t, i + 1, None);
                    let rest = spans_from(p, t, i + 1, None);
                    let whole = seq![(s, i)] + rest;
                    assert(spans_from(p, t, i, open) == whole);
                    assert(whole[0] == (s, i));
                    assert(forall|k: int| 1 <= k < whole.len()
                        ==> #[trigger] whole[k] == rest[k - 1]);
                }
            },
        }
    }
}

/// Meaning of the spans produced from column `i` on: every column inside a
/// span is "on", and every "on" column in the unscanned region (or in the
/// open run) lies inside some span.
proof fn lemma_spans_from_semantics(p: Seq<u8>, t: u8, i: int, open: Option<int>)
    requires
        0 <= i <= p.len(),
        open matches Some(s) ==> 0 <= s < i || (s == i && i < p.len() && pixel_on(p[i], t)),
        open matches Some(s) ==> forall|x: int| s <= x < i ==> pixel_on(#[trigger] p[x], t),
    ensures
        forall|k: int, x: int| 0 <= k < spans_from(p, t, i, open).len()
            && (#[trigger] spans_from(p, t, i, open)[k]).0 <= x
            && x < spans_from(p, t, i, open)[k].1
            ==> pixel_on(#[trigger] p[x], t),
        forall|x: int| (match open { Some(s) => s, None => i }) <= x < p.len()
            && pixel_on(#[trigger] p[x], t)
            ==> exists|k: int| 0 <= k < spans_from(p, t, i, open).len()
                && (#[trigger] spans_from(p, t, i, open)[k]).0 <= x
                && x < spans_from(p, t, i, open)[k].1,
    decreases p.len() - i,
{
    let whole = spans_from(p, t, i, open);
    if i == p.len() {
        match open {
            Some(s) => {
                assert(whole[0] == (s, p.len() as int));
            },
            None => {},
        }
    } else {
        let on = pixel_on(p[i], t);
        match open {
            None => {
                if on {
                    lemma_spans_from_semantics(p, t, i + 1, Some(i));
                    assert(whole == spans_from(p, t, i + 1, Some(i)));
                } else {
                    lemma_spans_from_semantics(p, t, i + 1, None);
                    assert(whole == spans_from(p, t, i + 1, None));
                }
            },
            Some(s) => {
                if on {
                    lemma_spans_from_semantics(p, t, i + 1, Some(s));
                    assert(whole == spans_from(p, t, i + 1, Some(s)));
                } else {
                    lemma_spans_from_semantics(p, t, i + 1, None);
                    let rest = spans_from(p, t, i + 1, None);
                    assert(whole == seq![(s, i)] + rest);
                    assert(whole[0] == (s, i));
                    assert(forall|k: int| 1 <= k < whole.len()
                        ==> #[trigger] whole[k] == rest[k - 1]);
                    assert forall|x: int| s <= x < p.len() && pixel_on(#[trigger] p[x], t)
                        implies exists|k: int| 0 <= k < whole.len()
                            && (#[trigger] whole[k]).0 <= x && x < whole[k].1 by {
                        if x < i {
                            assert(whole[0].0 <= x < whole[0].1);
                        } else {
                            assert(x != i);
                            let k = choose|k: int| 0 <= k < rest.len()
                                && (#[trigger] rest[k]).0 <= x && x < rest[k].1;
                            assert(whole[k + 1].0 <= x < whole[k + 1].1);
                        }
                    }
                }
            },
        }
    }
}

/// Semantics of a row's spans: a column lies inside one of them exactly when
/// its sample is below the threshold.
pub proof fn lemma_row_spans_cover(p: Seq<u8>, t: u8)
    ensures
        forall|k: int, x: int| 0 <= k < row_spans(p, t).len()
            && (#[trigger] row_spans(p, t)[k]).0 <= x && x < row_spans(p, t)[k].1
            ==> pixel_on(#[trigger] p[x], t),
        forall|x: int| 0 <= x < p.len() && pixel_on(#[trigger] p[x], t)
            ==> exists|k: int| 0 <= k < row_spans(p, t).len()
                && (#[trigger] row_spans(p, t)[k]).0 <= x && x < row_spans(p, t)[k].1,
{
    lemma_spans_from_semantics(p, t, 0, None);
    assert forall|x: int| 0 <= x < p.len() && pixel_on(#[trigger] p[x], t)
        implies exists|k: int| 0 <= k < row_spans(p, t).len()
            && (#[trigger] row_spans(p, t)[k]).0 <= x && x < row_spans(p, t)[k].1 by {
        let k = choose|k: int| 0 <= k < spans_from(p, t, 0, None).len()
            && (#[trigger] spans_from(p, t, 0, None)[k]).0 <= x
            && x < spans_from(p, t, 0, None)[k].1;
        assert(row_spans(p, t)[k].0 <= x && x < row_spans(p, t)[k].1);
    }
}

/// Spans extracted from any row are strictly increasing and non-overlapping:
/// each span ends strictly after it starts and within the row, and each
/// subsequent span begins strictly after the previous one ends. Because the
/// extractor's result is fully determined by the row and the threshold
/// (`extract_row_spans` returns exactly `row_spans`), re-running the
/// binarization on the same row with the same threshold yields the same
/// spans.
pub proof fn lemma_row_spans_increasing(p: Seq<u8>, t: u8)
    ensures
        forall|k: int| 0 <= k < row_spans(p, t).len()
            ==> 0 <= (#[trigger] row_spans(p, t)[k]).0,
        forall|k: int| 0 <= k < row_spans(p, t).len()
            ==> (#[trigger] row_spans(p, t)[k]).0 < row_spans(p, t)[k].1 <= p.len(),
        forall|k: int| 0 <= k < row_spans(p, t).len() - 1
            ==> (#[trigger] row_spans(p, t)[k]).1 < row_spans(p, t)[k + 1].0,
{
    lemma_spans_from_wf(p, t, 0, None);
}

} // verus!
