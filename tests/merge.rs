use getcov::merge::merge_uncovered_regions;
use getcov::region::{can_merge, is_fully_covered, merge_regions_in_place, CodeRegion, Position};

fn span(file: &str, sl: u64, sc: u64, el: u64, ec: u64) -> CodeRegion {
    CodeRegion {
        file_path: file.to_string(),
        start_line: sl,
        start_column: sc,
        end_line: el,
        end_column: ec,
    }
}

fn in_span(r: &CodeRegion, line: u64, column: u64) -> bool {
    let p = Position { line, column };
    r.start().le(&p) && !r.end().le(&p)
}

#[test]
fn adjacent_spans_merge_into_one() {
    let out = merge_uncovered_regions(vec![span("a.c", 1, 1, 1, 5), span("a.c", 1, 5, 1, 10)]);
    assert_eq!(out, vec![span("a.c", 1, 1, 1, 10)]);
}

#[test]
fn contained_span_is_discarded() {
    let out = merge_uncovered_regions(vec![span("a.c", 2, 1, 2, 10), span("a.c", 2, 3, 2, 6)]);
    assert_eq!(out, vec![span("a.c", 2, 1, 2, 10)]);
}

#[test]
fn spans_with_a_gap_stay_apart() {
    let out = merge_uncovered_regions(vec![span("a.c", 1, 1, 1, 5), span("a.c", 3, 1, 3, 5)]);
    assert_eq!(out, vec![span("a.c", 1, 1, 1, 5), span("a.c", 3, 1, 3, 5)]);
}

#[test]
fn one_column_gap_keeps_spans_apart() {
    let out = merge_uncovered_regions(vec![span("a.c", 1, 1, 1, 5), span("a.c", 1, 6, 1, 9)]);
    assert_eq!(out.len(), 2);
}

#[test]
fn unsorted_overlapping_spans_merge() {
    let out = merge_uncovered_regions(vec![
        span("a.c", 4, 1, 5, 3),
        span("a.c", 1, 1, 2, 7),
        span("a.c", 2, 5, 4, 2),
    ]);
    assert_eq!(out, vec![span("a.c", 1, 1, 5, 3)]);
}

#[test]
fn files_are_merged_separately_in_first_seen_order() {
    let out = merge_uncovered_regions(vec![
        span("b.c", 1, 1, 1, 5),
        span("a.c", 1, 1, 1, 5),
        span("b.c", 1, 5, 1, 8),
        span("a.c", 1, 3, 2, 1),
    ]);
    assert_eq!(out, vec![span("b.c", 1, 1, 1, 8), span("a.c", 1, 1, 2, 1)]);
}

#[test]
fn empty_input_gives_empty_output() {
    assert!(merge_uncovered_regions(Vec::new()).is_empty());
}

#[test]
fn same_start_spans_keep_the_larger() {
    let out = merge_uncovered_regions(vec![span("a.c", 1, 1, 1, 4), span("a.c", 1, 1, 3, 2)]);
    assert_eq!(out, vec![span("a.c", 1, 1, 3, 2)]);
    let out = merge_uncovered_regions(vec![span("a.c", 1, 1, 3, 2), span("a.c", 1, 1, 1, 4)]);
    assert_eq!(out, vec![span("a.c", 1, 1, 3, 2)]);
}

#[test]
fn zero_width_span_next_to_another_is_absorbed() {
    let out = merge_uncovered_regions(vec![span("a.c", 1, 1, 1, 5), span("a.c", 1, 5, 1, 5)]);
    assert_eq!(out, vec![span("a.c", 1, 1, 1, 5)]);
}

#[test]
fn merging_twice_changes_nothing() {
    let input = vec![
        span("a.c", 3, 1, 3, 9),
        span("a.c", 1, 1, 1, 5),
        span("a.c", 1, 4, 2, 2),
        span("b.c", 7, 1, 7, 2),
        span("a.c", 5, 1, 5, 1),
    ];
    let once = merge_uncovered_regions(input);
    let twice = merge_uncovered_regions(once.clone());
    assert_eq!(once, twice);
}

#[test]
fn merging_keeps_covered_positions() {
    let input = vec![
        span("a.c", 1, 1, 1, 5),
        span("a.c", 1, 3, 2, 2),
        span("a.c", 4, 1, 4, 3),
        span("a.c", 4, 3, 4, 6),
    ];
    let out = merge_uncovered_regions(input.clone());
    for line in 0..7 {
        for column in 0..12 {
            let before = input.iter().any(|r| in_span(r, line, column));
            let after = out.iter().any(|r| in_span(r, line, column));
            assert_eq!(before, after, "position {}:{}", line, column);
        }
    }
}

#[test]
fn merged_spans_do_not_touch() {
    let out = merge_uncovered_regions(vec![
        span("a.c", 1, 1, 1, 5),
        span("a.c", 1, 5, 1, 6),
        span("a.c", 1, 8, 1, 9),
        span("a.c", 2, 1, 2, 4),
        span("a.c", 1, 9, 1, 12),
    ]);
    for i in 0..out.len() {
        for j in (i + 1)..out.len() {
            assert!(!can_merge(&out[i], &out[j]));
        }
    }
    assert_eq!(out.len(), 3);
}

#[test]
fn contained_input_span_does_not_survive() {
    let inner = span("a.c", 2, 3, 2, 6);
    let out = merge_uncovered_regions(vec![span("a.c", 2, 1, 3, 1), inner.clone(), span("a.c", 5, 1, 5, 2)]);
    assert!(!out.contains(&inner));
    assert_eq!(out, vec![span("a.c", 2, 1, 3, 1), span("a.c", 5, 1, 5, 2)]);
}

#[test]
fn region_helpers() {
    let a = span("a.c", 1, 1, 2, 4);
    let b = span("a.c", 2, 4, 2, 9);
    let c = span("a.c", 1, 2, 2, 3);
    assert!(can_merge(&a, &b));
    assert!(!is_fully_covered(&a, &b));
    assert!(is_fully_covered(&a, &c));
    let mut m = a.clone();
    merge_regions_in_place(&mut m, &b);
    assert_eq!(m, span("a.c", 1, 1, 2, 9));
    assert_eq!(a.start(), Position { line: 1, column: 1 });
    assert_eq!(a.end(), Position { line: 2, column: 4 });
}
