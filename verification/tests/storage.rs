use bsr::storage::{
    config_dir_candidate, config_dir_choice, get_compare_file_path, get_file_path, get_reports_dir, is_blank,
    pending_from_content, pending_to_content, read_pending_from_content,
};

#[test]
fn config_dir_lies_under_home() {
    assert_eq!(config_dir_candidate(Some("/home/u")), Some("/home/u/.config/bsr".to_string()));
    assert_eq!(config_dir_candidate(None), None);
}

#[test]
fn config_dir_falls_back_to_current_directory() {
    let cwd = || "/work".to_string();
    assert_eq!(config_dir_choice(Some("/home/u/.config/bsr".to_string()), true, cwd()), "/home/u/.config/bsr");
    assert_eq!(config_dir_choice(Some("/home/u/.config/bsr".to_string()), false, cwd()), "/work");
    assert_eq!(config_dir_choice(None, true, cwd()), "/work");
}

#[test]
fn stored_files_are_named_in_config_dir() {
    assert_eq!(get_file_path("/c"), "/c/projects.json");
    assert_eq!(get_compare_file_path("/c"), "/c/compare_pending");
    assert_eq!(get_reports_dir("/c"), "/c/reports");
    assert_eq!(get_file_path("/work"), "/work/projects.json");
    assert_ne!(get_file_path("/c"), get_compare_file_path("/c"));
}

#[test]
fn blank_content_holds_only_white_space() {
    assert!(is_blank(""));
    assert!(is_blank(" \n\t "));
    assert!(!is_blank(" x "));
}

#[test]
fn pending_area_read_from_content() {
    assert!(pending_from_content("  \n", Some(vec!["/a".to_string()])).is_empty());
    let parsed = vec!["/a".to_string(), "/b".to_string()];
    assert_eq!(pending_from_content("[\"/a\",\"/b\"]", Some(parsed.clone())), parsed);
    assert_eq!(pending_from_content("  /old/dir\n", None), vec!["/old/dir".to_string()]);
    assert!(pending_from_content("[]", Some(vec![])).is_empty());
}

#[test]
fn pending_area_parsed_from_json() {
    assert_eq!(read_pending_from_content("[\"/a\", \"/b\"]"), vec!["/a".to_string(), "/b".to_string()]);
    assert_eq!(read_pending_from_content("/old/dir\n"), vec!["/old/dir".to_string()]);
    assert!(read_pending_from_content(" \n").is_empty());
    assert!(read_pending_from_content("[]").is_empty());
}

#[test]
fn pending_area_reads_back_what_was_written() {
    let dirs = vec!["/a b".to_string(), "/q\"uote".to_string(), "/ü".to_string()];
    let text = pending_to_content(&dirs);
    assert!(text.starts_with('['));
    assert_eq!(read_pending_from_content(&text), dirs);
    assert_eq!(pending_to_content(&vec![]), "[]");
}
