use vinyl::lsp::update::{next_diagnostic_files, should_clear, update_candidates, update_entry};

#[test]
fn manifest_roots_look_in_src_then_ancestors() {
    let ancestors = vec!["/w/src/a".to_string(), "/w/src".to_string()];
    assert_eq!(
        update_candidates("/w", true, &ancestors),
        vec![
            "/w/src/main.vn",
            "/w/src/lib.vn",
            "/w/src/a/main.vn",
            "/w/src/a/lib.vn",
            "/w/src/main.vn",
            "/w/src/lib.vn",
        ]
    );
    assert_eq!(update_candidates("/w/", false, &vec![]), vec!["/w/main.vn", "/w/lib.vn"]);
}

#[test]
fn entry_is_first_existing_candidate_or_the_changed_file() {
    let candidates = vec!["/w/main.vn".to_string(), "/w/lib.vn".to_string()];
    assert_eq!(update_entry(&candidates, &vec![false, true], "/w/x.vn"), "/w/lib.vn");
    assert_eq!(update_entry(&candidates, &vec![true, true], "/w/x.vn"), "/w/main.vn");
    assert_eq!(update_entry(&candidates, &vec![false, false], "/w/x.vn"), "/w/x.vn");
}

#[test]
fn stale_diagnostics_are_cleared() {
    assert!(should_clear(&[1, 2], &[2], 1));
    assert!(!should_clear(&[1, 2], &[1], 1));
    assert!(!should_clear(&[2], &[], 1));
}

#[test]
fn entry_with_diagnostics_is_kept() {
    assert_eq!(next_diagnostic_files(&vec![3, 4], Some(5)), vec![3, 4, 5]);
    assert_eq!(next_diagnostic_files(&vec![3, 4], Some(4)), vec![3, 4]);
    assert_eq!(next_diagnostic_files(&vec![3], None), vec![3]);
}
