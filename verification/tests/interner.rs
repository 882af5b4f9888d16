use vinyl::lsp::interner::{lexical_path_key, FileId, FileInterner};

#[test]
fn interns_equivalent_paths_once() {
    let mut interner = FileInterner::new();
    let first = interner.intern("target/../src/main.vn", None);
    let second = interner.intern("src/main.vn", None);
    assert_eq!(first, second);
    assert_eq!(interner.path(first), Some("src/main.vn"));
}

#[test]
fn distinct_paths_get_distinct_ids() {
    let mut interner = FileInterner::new();
    let a = interner.intern("a.vn", None);
    let b = interner.intern("b.vn", None);
    assert_ne!(a, b);
    assert_eq!(interner.get("b.vn", None), Some(b));
    assert_eq!(interner.get("x/../a.vn", None), Some(a));
    assert_eq!(interner.get("c.vn", None), None);
    assert_eq!(interner.path(FileId(7)), None);
}

#[test]
fn canonical_key_wins_over_lexical() {
    assert_eq!(FileInterner::key("x/../y.vn", Some("/home/y.vn")), "/home/y.vn");
    assert_eq!(FileInterner::key("x/../y.vn", None), "y.vn");
    assert_eq!(lexical_path_key(r"\\?\C:\code\main.vn"), lexical_path_key(r"C:\code\main.vn"));
}

#[test]
fn resolved_paths_intern_under_their_resolution() {
    let mut interner = FileInterner::new();
    let a = interner.intern("src/../src/m.vn", Some("/p/src/m.vn"));
    let b = interner.intern("link.vn", Some("/p/src/m.vn"));
    assert_eq!(a, b);
    assert_eq!(interner.path(a), Some("/p/src/m.vn"));
    assert_eq!(interner.get("other.vn", Some("/p/src/m.vn")), Some(a));
    assert_eq!(interner.get("/p/src/m.vn", None), Some(a));
}
