use vinyl::lsp::text::import_edit_range;
use vinyl::lsp::position::{
    checked_offset_at, full_range, offset_at, position_at, span_range, LineIndex, Position,
};

#[test]
fn positions_use_utf16_columns() {
    let source = "😀value";
    let line_index = LineIndex::new(source);
    assert_eq!(offset_at(&line_index, Position::new(0, 2)), 4);
    assert_eq!(position_at(&line_index, 4), Position::new(0, 2));
}

#[test]
fn positions_count_lines_and_clamp() {
    let source = "ab\ncd\n";
    let line_index = LineIndex::new(source);
    assert_eq!(position_at(&line_index, 0), Position::new(0, 0));
    assert_eq!(position_at(&line_index, 4), Position::new(1, 1));
    assert_eq!(position_at(&line_index, 6), Position::new(2, 0));
    assert_eq!(position_at(&line_index, 600), Position::new(2, 0));
    assert_eq!(line_index.len(), 6);
}

#[test]
fn offsets_of_positions() {
    let source = "ab\ncd\n";
    let line_index = LineIndex::new(source);
    assert_eq!(offset_at(&line_index, Position::new(1, 1)), 4);
    assert_eq!(offset_at(&line_index, Position::new(0, 9)), 9);
    assert_eq!(offset_at(&line_index, Position::new(7, 1)), 0);
    assert_eq!(checked_offset_at(&line_index, Position::new(1, 0)), Some(3));
    assert_eq!(checked_offset_at(&line_index, Position::new(1, u32::MAX)), None);
}

#[test]
fn ranges_of_spans_and_whole_text() {
    let source = "let é = 1;\nx";
    let line_index = LineIndex::new(source);
    let r = span_range(&line_index, 4, 2);
    assert_eq!(r.start, Position::new(0, 4));
    assert_eq!(r.end, Position::new(0, 5));
    let whole = full_range(&line_index);
    assert_eq!(whole.start, Position::new(0, 0));
    assert_eq!(whole.end, Position::new(1, 1));
}

#[test]
fn import_edit_range_after_leading_imports() {
    let source = "import math;\n  import io;\nfn main() {}\n";
    let line_index = LineIndex::new(source);
    let range = import_edit_range(&line_index, source);
    assert_eq!(range.start, Position::new(2, 0));
    assert_eq!(range.end, Position::new(2, 0));
    let source = "fn main() {}\n";
    let line_index = LineIndex::new(source);
    assert_eq!(import_edit_range(&line_index, source).start, Position::new(0, 0));
    let source = "import a";
    let line_index = LineIndex::new(source);
    assert_eq!(import_edit_range(&line_index, source).start, Position::new(0, 8));
    let source = "import a\r\nx";
    let line_index = LineIndex::new(source);
    assert_eq!(import_edit_range(&line_index, source).start, Position::new(0, 9));
}

#[test]
fn offsets_round_trip_through_positions() {
    let source = "a😀b\nxé\n";
    let index = LineIndex::new(source);
    for offset in [0usize, 1, 5, 6, 7, 8, 10, 11] {
        let position = position_at(&index, offset);
        assert_eq!(checked_offset_at(&index, position), Some(offset));
    }
}
