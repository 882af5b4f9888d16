use vinyl::lsp::workspace::{
    import_prefix, is_imported, is_primitive_type, is_public_symbol, same_file, span_contains,
    split_segments, ImportPrefix,
};

fn strings(v: &[&str]) -> Vec<String> {
    v.iter().map(|s| s.to_string()).collect()
}

#[test]
fn imports_cover_modules_by_name_or_path() {
    let imports = strings(&["math", "package::util::io"]);
    assert!(is_imported(&imports, "math"));
    assert!(is_imported(&imports, "io"));
    assert!(!is_imported(&imports, "util"));
    assert!(!is_imported(&imports, "th"));
    assert!(!is_imported(&[], "math"));
}

#[test]
fn import_prefixes_resolve_leading_words() {
    assert_eq!(import_prefix(&[]), Ok(None));
    assert_eq!(import_prefix(&strings(&["package"])), Ok(Some(ImportPrefix::Package)));
    assert_eq!(import_prefix(&strings(&["parent"])), Ok(Some(ImportPrefix::Self_)));
    assert_eq!(import_prefix(&strings(&["parent", "parent"])), Ok(Some(ImportPrefix::Parent(1))));
    assert_eq!(
        import_prefix(&strings(&["parent", "package"])),
        Ok(Some(ImportPrefix::Package))
    );
    assert_eq!(import_prefix(&strings(&["self"])), Err(()));
    assert_eq!(import_prefix(&strings(&["parent", "x"])), Err(()));
}

#[test]
fn spans_are_half_open() {
    assert!(span_contains((2, 5), 2));
    assert!(span_contains((2, 5), 4));
    assert!(!span_contains((2, 5), 5));
    assert!(!span_contains((2, 5), 1));
    assert!(!span_contains((3, 3), 3));
}

#[test]
fn public_symbols_by_name() {
    let items = vec![("helper".to_string(), false), ("main".to_string(), true)];
    assert!(is_public_symbol(&items, "main"));
    assert!(!is_public_symbol(&items, "helper"));
    assert!(!is_public_symbol(&items, "other"));
}

#[test]
fn primitive_type_names() {
    assert!(is_primitive_type("int"));
    assert!(is_primitive_type("uint128"));
    assert!(is_primitive_type("string"));
    assert!(!is_primitive_type("Int"));
    assert!(!is_primitive_type("Point"));
}

#[test]
fn qualified_names_split_at_last_double_colon() {
    let source = "let x = math::vec::dot(a);";
    assert_eq!(
        split_segments(source, 8, 14),
        Some((9, "math::vec".to_string(), "dot".to_string()))
    );
    assert_eq!(split_segments(source, 8, 4), None);
    assert_eq!(
        split_segments("io::", 0, 100),
        Some((2, "io".to_string(), "".to_string()))
    );
    assert_eq!(split_segments("é::x", 1, 3), None);
}

#[test]
fn same_file_compares_components() {
    assert!(same_file("src/./main.vn", "src//main.vn", None, None));
    assert!(!same_file("src/main.vn", "/src/main.vn", None, None));
    assert!(!same_file("a/../b.vn", "b.vn", None, None));
    assert!(same_file("x.vn", "y.vn", Some("/p/z.vn"), Some("/p/z.vn/")));
    assert!(!same_file("x.vn", "x.vn", Some("/p/x.vn"), Some("/q/x.vn")));
    assert!(same_file("./x.vn", "./x.vn", Some("/p/x.vn"), None));
    assert!(!same_file("./x.vn", "x.vn", None, None));
}
