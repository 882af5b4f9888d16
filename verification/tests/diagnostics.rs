use vinyl::diagnostics::{color, render_report, render_source, Excerpt, LabeledSpan, Severity};

#[test]
fn color_wraps_only_when_enabled() {
    assert_eq!(color("x", "31", true), "\x1b[31mx\x1b[0m");
    assert_eq!(color("x", "31", false), "x");
}

#[test]
fn renders_line_with_marker_under_label() {
    let labels = vec![LabeledSpan { offset: 4, len: 1, label: Some("here".to_string()) }];
    assert_eq!(
        render_source("let x = 1;\n", 0, 0, 1, &labels, false),
        "1 | let x = 1;\n  |      ^ here\n"
    );
}

#[test]
fn line_numbers_are_right_aligned_and_markers_clamped() {
    let labels = vec![LabeledSpan { offset: 102, len: 5, label: None }];
    assert_eq!(
        render_source("a\nbc", 100, 8, 2, &labels, false),
        " 9 | a\n10 | bc\n   |  ^^ \n"
    );
}

#[test]
fn carriage_returns_are_dropped_and_empty_labels_get_one_caret() {
    let labels = vec![LabeledSpan { offset: 1, len: 0, label: Some("end".to_string()) }];
    assert_eq!(
        render_source("x\r\n", 0, 0, 1, &labels, false),
        "1 | x\n  |   ^ end\n"
    );
    assert_eq!(render_source("", 0, 0, 1, &labels, false), "");
}

#[test]
fn colored_rendering() {
    let labels: Vec<LabeledSpan> = Vec::new();
    assert_eq!(
        render_source("ab", 0, 0, 1, &labels, true),
        "\x1b[34m1\x1b[0m \x1b[34m|\x1b[0m ab\n"
    );
}

#[test]
fn report_header_code_and_help() {
    assert_eq!(
        render_report(Some(Severity::Warning), Some("lint::x"), "unused value", None, &[], Some("remove it"), None, false),
        "warning[lint::x]: unused value\n  = help: remove it\n"
    );
    assert_eq!(
        render_report(None, None, "m", None, &[], None, None, true),
        "\x1b[31merror\x1b[0m: m\n"
    );
    assert_eq!(
        render_report(Some(Severity::Advice), None, "tip", None, &[], None, Some("https://x"), false),
        "advice: tip\n  = note: https://x\n"
    );
}

#[test]
fn report_with_source_excerpt() {
    let excerpt = Excerpt {
        name: Some("main.vn".to_string()),
        line: 0,
        column: 4,
        source: "let x = 1;\n".to_string(),
        source_start: 0,
        line_count: 1,
    };
    let labels = vec![LabeledSpan { offset: 4, len: 1, label: Some("here".to_string()) }];
    assert_eq!(
        render_report(None, None, "bad", Some(&excerpt), &labels, None, None, false),
        "error: bad\n --> main.vn:1:5\n  |\n1 | let x = 1;\n  |      ^ here\n  |\n"
    );
    let unnamed = Excerpt { name: None, ..excerpt };
    assert!(render_report(None, None, "bad", Some(&unnamed), &labels, None, None, false)
        .contains("--> <source>:1:5"));
}
