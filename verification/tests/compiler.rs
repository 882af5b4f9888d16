use vinyl::compiler::{entry_candidates, find_entry_file, no_entry_error};

#[test]
fn entry_candidates_in_order() {
    assert_eq!(entry_candidates("src"), vec!["src/main.vn".to_string(), "src/lib.vn".to_string()]);
    assert_eq!(entry_candidates("src/"), vec!["src/main.vn".to_string(), "src/lib.vn".to_string()]);
    assert_eq!(entry_candidates(""), vec!["main.vn".to_string(), "lib.vn".to_string()]);
}

#[test]
fn first_existing_candidate_wins() {
    let candidates = entry_candidates("proj");
    assert_eq!(find_entry_file(&candidates, &vec![true, true]), Some("proj/main.vn".to_string()));
    assert_eq!(find_entry_file(&candidates, &vec![false, true]), Some("proj/lib.vn".to_string()));
    assert_eq!(find_entry_file(&candidates, &vec![false, false]), None);
}

#[test]
fn missing_entry_message() {
    let error = no_entry_error("proj");
    assert_eq!(
        error.message(),
        "no entry file found in `proj` (looked for main.vn, lib.vn)"
    );
}
