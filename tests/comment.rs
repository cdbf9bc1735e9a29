use getcov::comment::comment_flags;
use getcov::analyzer::PartiallyCoveredFunction;
use getcov::comment::{is_pure_comment, retain_regions};
use getcov::region::CodeRegion;

fn span(sl: u64) -> CodeRegion {
    CodeRegion {
        file_path: "a.c".to_string(),
        start_line: sl,
        start_column: 1,
        end_line: sl,
        end_column: 9,
    }
}

#[test]
fn block_comment_alone_is_pure_comment() {
    assert!(is_pure_comment("/* x */"));
    assert!(!is_pure_comment("/* x */ y"));
}

#[test]
fn comment_heuristic_cases() {
    assert!(is_pure_comment("// note"));
    assert!(is_pure_comment("  /* a ** b */\n  // c\n"));
    assert!(is_pure_comment("/** doc */"));
    assert!(is_pure_comment(""));
    assert!(is_pure_comment("   \n\t"));
    assert!(!is_pure_comment("x = 1; // set"));
    assert!(!is_pure_comment("/* open"));
    assert!(!is_pure_comment("a / b"));
}

#[test]
fn retain_keeps_unflagged() {
    let kept = retain_regions(&vec![span(1), span(2), span(3)], &vec![false, true, false]);
    assert_eq!(kept, vec![span(1), span(3)]);
}

#[test]
fn comment_spans_are_dropped_and_unread_ones_kept() {
    let mut f = PartiallyCoveredFunction {
        function_name: "f".to_string(),
        file_path: "a.c".to_string(),
        partially_covered_predicates: Vec::new(),
        uncovered_regions: vec![span(1), span(2), span(3), span(4)],
        whole_function: None,
    };
    let snippets = vec![
        Some("/* gone */".to_string()),
        Some("return 1;".to_string()),
        None,
        Some("// gone".to_string()),
    ];
    f.drop_pure_comments(&snippets);
    assert_eq!(f.uncovered_regions, vec![span(2), span(3)]);
    assert_eq!(f.function_name, "f");
}

#[test]
fn unicode_whitespace_around_comments_is_blank() {
    assert!(is_pure_comment("\u{a0}/* x */\u{3000}\u{2028}"));
    assert!(!is_pure_comment("\u{200b}/* x */"));
}

#[test]
fn comment_flags_follow_each_snippet() {
    let flags = comment_flags(&vec![
        Some("/* a */".to_string()),
        None,
        Some("f();".to_string()),
        Some("// b\n".to_string()),
    ]);
    assert_eq!(flags, vec![true, false, false, true]);
}
