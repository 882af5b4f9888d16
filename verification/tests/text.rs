use vinyl::lsp::text::{
    current_imports, extract_type_from_span, find_identifier, is_scope_qualified,
    module_path_context, module_ref_prefix, name_range, name_span, word_before_colon,
    word_prefix, ModulePathContext,
};

#[test]
fn stale_type_span_returns_none() {
    assert_eq!(extract_type_from_span("fn main() {}", 71, 4, false), None);
}

#[test]
fn non_character_boundary_returns_none() {
    assert_eq!(extract_type_from_span("é: int", 1, 3, false), None);
}

#[test]
fn extracts_parameter_type() {
    let source = "fn add(left: int, right: int) -> int {}";
    assert_eq!(extract_type_from_span(source, 7, 9, false), Some("int".to_string()));
}

#[test]
fn extracts_let_type_before_initializer() {
    let source = "let count: UInt32 = 4;";
    assert_eq!(
        extract_type_from_span(source, 0, source.len(), true),
        Some("UInt32".to_string())
    );
}

#[test]
fn span_without_colon_or_type_gives_none() {
    assert_eq!(extract_type_from_span("let x = 4;", 0, 10, true), None);
    assert_eq!(extract_type_from_span("x:   ", 0, 5, false), None);
    assert_eq!(extract_type_from_span("abc", usize::MAX, 2, false), None);
}

#[test]
fn type_stops_at_next_colon() {
    assert_eq!(extract_type_from_span("a: Map::Entry", 0, 13, false), Some("Map".to_string()));
}

#[test]
fn finds_whole_identifier_only() {
    assert_eq!(find_identifier("counter count", "count"), Some(8));
    assert_eq!(find_identifier("count", "count"), Some(0));
    assert_eq!(find_identifier("recount", "count"), None);
    assert_eq!(find_identifier("x_count count_y", "count"), None);
    assert_eq!(find_identifier("(count)", "count"), Some(1));
}

#[test]
fn empty_name_stands_at_first_non_identifier_boundary() {
    assert_eq!(find_identifier("", ""), Some(0));
    assert_eq!(find_identifier("ab cd", ""), None);
    assert_eq!(find_identifier("ab  cd", ""), Some(3));
}

#[test]
fn name_span_is_relative_to_the_source() {
    let source = "fn helper(value: int) {}";
    assert_eq!(name_span(source, (0, source.len()), "helper"), Some((3, 9)));
    assert_eq!(name_span(source, (10, 21), "value"), Some((10, 15)));
    assert_eq!(name_span(source, (10, 21), "missing"), None);
    assert_eq!(name_span(source, (21, 10), "value"), None);
    assert_eq!(name_span(source, (0, 500), "value"), None);
}

#[test]
fn name_range_falls_back_to_span() {
    let source = "struct Point {}";
    assert_eq!(name_range(source, (0, 15), "Point"), (7, 12));
    assert_eq!(name_range(source, (0, 15), "Line"), (0, 15));
}

#[test]
fn word_prefix_takes_trailing_word() {
    assert_eq!(word_prefix("let total = val", 15), "val");
    assert_eq!(word_prefix("call(my_fn", 10), "my_fn");
    assert_eq!(word_prefix("a + ", 4), "");
    assert_eq!(word_prefix("name", 100), "name");
    assert_eq!(word_prefix("x = café", 9), "café");
}

#[test]
fn word_before_single_colon() {
    assert_eq!(word_before_colon("Point { x:", 10), Some("x".to_string()));
    assert_eq!(word_before_colon("module::", 8), None);
    assert_eq!(word_before_colon("a :", 3), None);
    assert_eq!(word_before_colon("x", 1), None);
    assert_eq!(word_before_colon("", 0), None);
    assert_eq!(word_before_colon("field:", 99), Some("field".to_string()));
}

#[test]
fn scope_qualified_paths() {
    assert!(is_scope_qualified("parent::"));
    assert!(is_scope_qualified("  self::math::"));
    assert!(is_scope_qualified("package::util::"));
    assert!(!is_scope_qualified("math::"));
    assert!(!is_scope_qualified("no colons"));
    assert!(!is_scope_qualified("parent::a::b::"));
}

#[test]
fn module_ref_prefix_splits_module_and_symbol() {
    assert_eq!(
        module_ref_prefix("let x = math::sq", 16),
        Some(("math".to_string(), "sq".to_string()))
    );
    assert_eq!(
        module_ref_prefix("math::square(1)", 8),
        Some(("math".to_string(), "square".to_string()))
    );
    assert_eq!(
        module_ref_prefix("line one\nio::", 13),
        Some(("io".to_string(), "".to_string()))
    );
    assert_eq!(module_ref_prefix("::x", 3), None);
    assert_eq!(module_ref_prefix("plain text", 5), None);
}

#[test]
fn module_ref_prefix_with_cursor_between_colons() {
    assert_eq!(
        module_ref_prefix("io::print", 3),
        None
    );
    assert_eq!(
        module_ref_prefix("io::print", 2),
        None
    );
}

#[test]
fn module_path_context_in_import() {
    match module_path_context("import parent::ma", 17) {
        Some(ModulePathContext::ImportPath { segments, partial }) => {
            assert_eq!(segments, vec!["parent".to_string()]);
            assert_eq!(partial, "ma");
        }
        _ => panic!("expected an import path"),
    }
    match module_path_context("  import math::sq", 17) {
        Some(ModulePathContext::ImportSymbol { module_name, partial }) => {
            assert_eq!(module_name, "math");
            assert_eq!(partial, "sq");
        }
        _ => panic!("expected an import symbol"),
    }
    match module_path_context("import self::math::vec::dot", 27) {
        Some(ModulePathContext::ImportSymbol { module_name, partial }) => {
            assert_eq!(module_name, "math");
            assert_eq!(partial, "vec::dot");
        }
        _ => panic!("expected an import symbol"),
    }
    assert!(module_path_context("import ::x", 10).is_none());
}

#[test]
fn module_path_context_in_expression() {
    match module_path_context("let y = self::util::fo", 22) {
        Some(ModulePathContext::ModuleRef { module_name, partial, scope_qualified }) => {
            assert_eq!(module_name, "util");
            assert_eq!(partial, "fo");
            assert!(scope_qualified);
        }
        _ => panic!("expected a module reference"),
    }
    assert!(module_path_context("let y = 1", 9).is_none());
}

#[test]
fn current_imports_collects_each_module_once() {
    let source = "import math;\n  import io ;;\nfn main() {}\nimport math\r\nimportant();\n";
    let mut imports = current_imports(source);
    imports.sort();
    assert_eq!(imports, vec!["io".to_string(), "math".to_string()]);
    assert!(current_imports("").is_empty());
}
