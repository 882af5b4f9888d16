use vinyl::lsp::position::{Position, Range};
use vinyl::lsp::sync::{apply_content_changes, checked_apply_content_changes, ContentChange};

fn ranged(sl: u32, sc: u32, el: u32, ec: u32, text: &str) -> ContentChange {
    ContentChange {
        range: Some(Range::new(Position::new(sl, sc), Position::new(el, ec))),
        text: text.to_string(),
    }
}

#[test]
fn full_change_replaces_document() {
    let changes = vec![ContentChange { range: None, text: "xyz".to_string() }];
    assert_eq!(checked_apply_content_changes("abc".to_string(), &changes), Some("xyz".to_string()));
}

#[test]
fn ranged_change_replaces_span() {
    let changes = vec![ranged(0, 6, 0, 11, "there")];
    assert_eq!(apply_content_changes("hello world".to_string(), &changes), "hello there");
}

#[test]
fn changes_apply_in_order() {
    let changes = vec![ranged(0, 0, 0, 0, "a"), ranged(0, 1, 0, 1, "b"), ranged(1, 0, 1, 1, "X")];
    assert_eq!(apply_content_changes("c\nd".to_string(), &changes), "abc\nX");
}

#[test]
fn utf16_columns_after_wide_characters() {
    let changes = vec![ranged(1, 0, 1, 1, "X"), ranged(0, 1, 0, 1, "!")];
    assert_eq!(apply_content_changes("é\nab".to_string(), &changes), "é!\nXb");
}

#[test]
fn reversed_or_out_of_bounds_ranges_leave_text() {
    let changes = vec![ranged(0, 3, 0, 1, "zz")];
    assert_eq!(apply_content_changes("hello".to_string(), &changes), "hello");
    let changes = vec![ranged(0, 2, 0, 9, "zz")];
    assert_eq!(apply_content_changes("hello".to_string(), &changes), "hello");
}

#[test]
fn offsets_past_u32_are_refused() {
    let changes = vec![ranged(1, u32::MAX, 1, u32::MAX, "x")];
    assert_eq!(checked_apply_content_changes("a\nb".to_string(), &changes), None);
}
