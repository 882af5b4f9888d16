use vinyl::lsp::completion::{
    attribute_completions, field_access_context, struct_literal_context, CompletionItemKind,
    MarkupContent, MarkupKind,
};
use vinyl::lsp::position::{LineIndex, Position};

#[test]
fn suggests_doc_attribute_after_at() {
    let source = "@d";
    let line_index = LineIndex::new(source);
    let items = attribute_completions(source, &line_index, source.len()).unwrap();
    assert_eq!(items[0].label, "doc");
    assert!(matches!(
        items[0].documentation,
        Some(MarkupContent { kind: MarkupKind::Markdown, .. })
    ));
}

#[test]
fn suggests_allow_and_doc_after_at() {
    let source = "@";
    let line_index = LineIndex::new(source);
    let items = attribute_completions(source, &line_index, source.len()).unwrap();
    let labels: Vec<_> = items.iter().map(|item| item.label.as_str()).collect();
    assert!(labels.contains(&"doc"));
    assert!(labels.contains(&"allow"));
    assert!(labels.contains(&"intrinsic"));
}

#[test]
fn suggests_intrinsic_attribute_after_at() {
    let source = "@i";
    let line_index = LineIndex::new(source);
    let items = attribute_completions(source, &line_index, source.len()).unwrap();
    assert_eq!(items[0].label, "intrinsic");
    assert!(matches!(
        items[0].documentation,
        Some(MarkupContent { kind: MarkupKind::Markdown, .. })
    ));
}

#[test]
fn suggests_large_array_inside_allow() {
    let source = "@allow(large_";
    let line_index = LineIndex::new(source);
    let items = attribute_completions(source, &line_index, source.len()).unwrap();
    assert_eq!(items[0].label, "large_array");
    assert!(matches!(
        items[0].documentation,
        Some(MarkupContent { kind: MarkupKind::Markdown, .. })
    ));
}

#[test]
fn no_completion_inside_doc_args() {
    let source = "@doc(\"hello";
    let line_index = LineIndex::new(source);
    assert!(attribute_completions(source, &line_index, source.len()).is_none());
}

#[test]
fn attribute_edit_replaces_partial_word() {
    let source = "fn a() {}\n  @al";
    let line_index = LineIndex::new(source);
    let items = attribute_completions(source, &line_index, source.len()).unwrap();
    assert_eq!(items.len(), 1);
    assert_eq!(items[0].kind, Some(CompletionItemKind::Keyword));
    assert_eq!(items[0].detail.as_deref(), Some("lint suppression attribute"));
    let edit = items[0].text_edit.as_ref().unwrap();
    assert_eq!(edit.range.start, Position::new(1, 3));
    assert_eq!(edit.range.end, Position::new(1, 5));
    assert_eq!(edit.new_text, "allow");
}

#[test]
fn no_attribute_completion_after_code_or_unknown_prefix() {
    let source = "x @d";
    let line_index = LineIndex::new(source);
    assert!(attribute_completions(source, &line_index, source.len()).is_none());
    let source = "@zz";
    let line_index = LineIndex::new(source);
    assert!(attribute_completions(source, &line_index, source.len()).is_none());
    let source = "@other(la";
    let line_index = LineIndex::new(source);
    assert!(attribute_completions(source, &line_index, source.len()).is_none());
}

#[test]
fn struct_literal_type_before_open_brace() {
    assert_eq!(struct_literal_context("let p = Point { x", 17), Some("Point".to_string()));
    assert_eq!(struct_literal_context("let p = point { x", 17), None);
    assert_eq!(struct_literal_context("Point { x: 1 } ", 15), None);
    assert_eq!(struct_literal_context("no brace", 8), None);
    assert_eq!(struct_literal_context("{", 1), None);
}

#[test]
fn field_access_dot_position() {
    assert_eq!(field_access_context("point.na", 8), Some(5));
    assert_eq!(field_access_context("call().", 7), Some(6));
    assert_eq!(field_access_context("1..x", 4), None);
    assert_eq!(field_access_context(" .x", 3), None);
    assert_eq!(field_access_context(".x", 2), Some(0));
    assert_eq!(field_access_context("abc", 3), None);
}
