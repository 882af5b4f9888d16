use vinyl::codegen::abi::{AggregateAbi, TargetData};
use vinyl::codegen::runtime::{
    begin_capture, format_hex, format_signed, format_unsigned, render_value, take_output,
    OutputCapture, Rendered, TAG_BOOL, TAG_CHAR, TAG_FLOAT32, TAG_FLOAT64, TAG_INT, TAG_RAW,
    TAG_UINT,
};
use vinyl::codegen::variable::{var_mode, VarMode};
use vinyl::lsp::vfs::{normalize_vfs_path, path_key_of, LspFileSystem, Vfs};

fn text(r: Rendered) -> String {
    match r {
        Rendered::Text(s) => s,
        other => panic!("expected text, got {other:?}"),
    }
}

#[test]
fn integers_render_in_decimal() {
    assert_eq!(format_unsigned(&[0x2a]), Some("42".to_string()));
    assert_eq!(format_unsigned(&[0xff, 0xff]), Some("65535".to_string()));
    assert_eq!(format_signed(&[0xff, 0xff, 0xff, 0xff]), Some("-1".to_string()));
    assert_eq!(format_signed(&[0x00, 0x80]), Some("-32768".to_string()));
    assert_eq!(format_unsigned(&[1, 2, 3]), None);
    assert_eq!(
        format_unsigned(&[0xff; 16]),
        Some(u128::MAX.to_string())
    );
    assert_eq!(format_signed(&[0, 0, 0, 0, 0, 0, 0, 0x80]), Some(i64::MIN.to_string()));
}

#[test]
fn raw_bytes_render_in_hex() {
    assert_eq!(format_hex(&[0x0f, 0xa0]), "0f a0");
    assert_eq!(format_hex(&[]), "");
}

#[test]
fn tagged_values_render_by_tag() {
    assert_eq!(text(render_value(&[7, 0, 0, 0], TAG_INT)), "7");
    assert_eq!(text(render_value(&[0xfe], TAG_INT)), "-2");
    assert_eq!(text(render_value(&[0xfe], TAG_UINT)), "254");
    assert_eq!(text(render_value(&[1], TAG_BOOL)), "true");
    assert_eq!(text(render_value(&[], TAG_BOOL)), "false");
    assert_eq!(text(render_value(&[0x41, 0, 0, 0], TAG_CHAR)), "A");
    assert_eq!(text(render_value(&[0x00, 0xd8, 0, 0], TAG_CHAR)), "00 d8 00 00");
    assert_eq!(text(render_value(&[1, 2, 3], TAG_INT)), "01 02 03");
    assert_eq!(text(render_value(&[0xab], TAG_RAW)), "ab");
    match render_value(&[0, 0, 0x80, 0x3f], TAG_FLOAT32) {
        Rendered::Float32Bits(bits) => assert_eq!(f32::from_bits(bits), 1.0),
        other => panic!("expected float bits, got {other:?}"),
    }
    match render_value(&[0, 0, 0, 0, 0, 0, 0xf0, 0x3f], TAG_FLOAT64) {
        Rendered::Float64Bits(bits) => assert_eq!(f64::from_bits(bits), 1.0),
        other => panic!("expected float bits, got {other:?}"),
    }
}

#[test]
fn capture_hands_back_what_was_delivered() {
    let mut capture = OutputCapture::new();
    let hello: Vec<char> = "hello".chars().collect();
    let printed = capture.deliver(&hello, 1);
    assert!(matches!(printed, Some((t, true)) if t == hello));
    begin_capture(&mut capture);
    assert!(capture.deliver(&hello, 1).is_none());
    assert!(capture.deliver(&"x".chars().collect(), 0).is_none());
    assert_eq!(take_output(&mut capture), "hello\nx");
    assert_eq!(take_output(&mut capture), "");
}

#[test]
fn aggregate_abi_queries() {
    assert_eq!(TargetData::new(8).pointer_size, 8);
    assert_eq!(AggregateAbi::Indirect.register_count(), 0);
    assert!(AggregateAbi::Indirect.is_indirect());
    assert_eq!(AggregateAbi::Registers { count: 2 }.register_count(), 2);
    assert!(!AggregateAbi::Registers { count: 2 }.is_indirect());
}

#[test]
fn variable_modes() {
    let refs = vec!["r".to_string()];
    assert_eq!(var_mode("r", false, &refs), VarMode::StackSlot);
    assert_eq!(var_mode("m", true, &refs), VarMode::Variable);
    assert_eq!(var_mode("v", false, &refs), VarMode::Value);
}

#[test]
fn vfs_reads_back_what_was_set() {
    let mut vfs = Vfs::new();
    vfs.set("a.vn".to_string(), "one".to_string());
    vfs.set("b.vn".to_string(), "two".to_string());
    vfs.set("a.vn".to_string(), "three".to_string());
    assert_eq!(vfs.get("a.vn"), Some("three".to_string()));
    assert_eq!(vfs.files().len(), 2);
    vfs.remove("a.vn");
    assert_eq!(vfs.get("a.vn"), None);
    assert_eq!(vfs.get("b.vn"), Some("two".to_string()));
}

#[test]
fn vfs_source_tries_normalized_forms() {
    let mut vfs = Vfs::new();
    vfs.set("C:\\p\\m.vn".to_string(), "text".to_string());
    assert_eq!(vfs.source("\\\\?\\C:\\p\\m.vn", None), Some("text".to_string()));
    assert_eq!(vfs.source("other.vn", Some("\\\\?\\C:\\p\\m.vn")), Some("text".to_string()));
    assert_eq!(vfs.source("other.vn", None), None);
    assert_eq!(normalize_vfs_path("\\\\?\\C:\\x"), "C:\\x");
    assert_eq!(normalize_vfs_path("/x"), "/x");
}

#[test]
fn file_system_sees_open_documents() {
    let fs = LspFileSystem::new(vec![("a.vn".to_string(), "x".to_string())]);
    assert!(fs.has_document("a.vn"));
    assert!(!fs.has_document("b.vn"));
}

#[test]
fn vfs_paths_compare_by_components() {
    let mut vfs = Vfs::new();
    vfs.set("/w/src/main.vn".to_string(), "one".to_string());
    assert_eq!(vfs.get("/w//src/main.vn"), Some("one".to_string()));
    assert_eq!(vfs.get("/w/./src/main.vn"), Some("one".to_string()));
    assert_eq!(vfs.get("/w/src/main.vn/"), Some("one".to_string()));
    assert_eq!(vfs.get("w/src/main.vn"), None);
    assert_eq!(vfs.get("/w/src/../src/main.vn"), None);
    vfs.set("/w//src/main.vn".to_string(), "two".to_string());
    assert_eq!(vfs.files().len(), 1);
    assert_eq!(vfs.get("/w/src/main.vn"), Some("two".to_string()));
    vfs.remove("/w/src/./main.vn");
    assert_eq!(vfs.get("/w/src/main.vn"), None);
}

#[test]
fn path_components_follow_path_rules() {
    let key = |s: &str| -> Vec<String> { path_key_of(s).iter().map(|c| c.iter().collect()).collect() };
    assert_eq!(key("/a//b/./c/"), vec!["/", "a", "b", "c"]);
    assert_eq!(key("./a/."), vec![".", "a"]);
    assert_eq!(key("a/../b"), vec!["a", "..", "b"]);
    assert_eq!(key(""), Vec::<String>::new());
    let fs = LspFileSystem::new(vec![("/p/a.vn".to_string(), "x".to_string())]);
    assert!(fs.has_document("/p//a.vn"));
}
