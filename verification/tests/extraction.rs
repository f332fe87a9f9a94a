use lasgrav::bitmap::Bitmap;
use lasgrav::spans::{extract_row_spans, Span};

#[test]
fn separated_runs_become_separate_spans() {
    let b = Bitmap::new(5, 1, vec![0, 255, 0, 0, 255]).unwrap();
    let sp = extract_row_spans(&b, 0, 128);
    assert_eq!(sp, vec![Span { start: 0, end: 1 }, Span { start: 2, end: 4 }]);
}

#[test]
fn run_reaching_the_right_edge_closes_at_the_width() {
    let b = Bitmap::new(3, 1, vec![255, 0, 0]).unwrap();
    let sp = extract_row_spans(&b, 0, 128);
    assert_eq!(sp, vec![Span { start: 1, end: 3 }]);
}

#[test]
fn all_dark_row_is_one_full_span() {
    let b = Bitmap::new(4, 1, vec![0, 0, 0, 0]).unwrap();
    let sp = extract_row_spans(&b, 0, 128);
    assert_eq!(sp, vec![Span { start: 0, end: 4 }]);
}

#[test]
fn blank_row_yields_no_spans() {
    let b = Bitmap::new(4, 1, vec![255; 4]).unwrap();
    let sp = extract_row_spans(&b, 0, 128);
    assert!(sp.is_empty());
}

#[test]
fn single_dark_pixel_is_a_width_one_span() {
    let b = Bitmap::new(3, 1, vec![255, 0, 255]).unwrap();
    let sp = extract_row_spans(&b, 0, 128);
    assert_eq!(sp, vec![Span { start: 1, end: 2 }]);
}

#[test]
fn sample_equal_to_threshold_is_off() {
    let b = Bitmap::new(2, 1, vec![128, 127]).unwrap();
    let sp = extract_row_spans(&b, 0, 128);
    assert_eq!(sp, vec![Span { start: 1, end: 2 }]);
}

#[test]
fn extraction_is_idempotent_per_row() {
    let b = Bitmap::new(6, 1, vec![9, 200, 9, 9, 200, 9]).unwrap();
    let first = extract_row_spans(&b, 0, 128);
    let second = extract_row_spans(&b, 0, 128);
    assert_eq!(first, second);
}

#[test]
fn rows_are_independent() {
    let b = Bitmap::new(2, 2, vec![0, 255, 255, 0]).unwrap();
    assert_eq!(extract_row_spans(&b, 0, 128), vec![Span { start: 0, end: 1 }]);
    assert_eq!(extract_row_spans(&b, 1, 128), vec![Span { start: 1, end: 2 }]);
}

#[test]
fn spans_are_strictly_increasing_and_nonoverlapping() {
    let b = Bitmap::new(9, 1, vec![0, 255, 0, 0, 255, 255, 0, 0, 0]).unwrap();
    let sp = extract_row_spans(&b, 0, 128);
    for s in &sp {
        assert!(s.start < s.end && s.end <= 9);
    }
    for w in sp.windows(2) {
        assert!(w[0].end < w[1].start);
    }
}

#[test]
fn bitmap_rejects_mismatched_buffer() {
    assert!(Bitmap::new(3, 2, vec![0; 5]).is_none());
    assert!(Bitmap::new(3, 2, vec![0; 6]).is_some());
}
