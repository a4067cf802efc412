use bsr::order::{path_less, same_path_exec, sort_unique, strip_prefix};
use bsr::paths::{file_name, join_path, parent};
use bsr::utils::{is_hidden_entry, path_to_dir_string, project_marker, tilde_path};

#[test]
fn join_appends_with_one_separator() {
    assert_eq!(join_path("/a", "b"), "/a/b");
    assert_eq!(join_path("/a/", "b"), "/a/b");
    assert_eq!(join_path("", "b"), "b");
    assert_eq!(join_path("/a", "/etc"), "/etc");
    assert_eq!(join_path("~", ""), "~/");
}

#[test]
fn parent_and_file_name_follow_components() {
    assert_eq!(parent("/a/b/c"), Some("/a/b".to_string()));
    assert_eq!(parent("a/b/"), Some("a".to_string()));
    assert_eq!(parent("a"), Some("".to_string()));
    assert_eq!(parent("/"), None);
    assert_eq!(file_name("/a/b.txt"), Some("b.txt".to_string()));
    assert_eq!(file_name("/a/.."), None);
    assert_eq!(file_name("/"), None);
}

#[test]
fn dir_string_is_last_component_or_empty() {
    assert_eq!(path_to_dir_string("/home/u/proj"), "proj");
    assert_eq!(path_to_dir_string("/"), "");
}

#[test]
fn strip_prefix_goes_by_components() {
    assert_eq!(strip_prefix("/a/b/c", "/a"), Some("b/c".to_string()));
    assert_eq!(strip_prefix("/a//b", "/a/"), Some("b".to_string()));
    assert_eq!(strip_prefix("/ab/c", "/a"), None);
    assert_eq!(strip_prefix("/a", "/a"), Some("".to_string()));
}

#[test]
fn tilde_replaces_leading_home() {
    let home = Some("/home/u".to_string());
    assert_eq!(tilde_path("/home/u/work", &home), "~/work");
    assert_eq!(tilde_path("/srv/x", &home), "/srv/x");
    assert_eq!(tilde_path("/home/u/work", &None), "/home/u/work");
}

#[test]
fn hidden_entries_start_with_a_dot() {
    assert!(is_hidden_entry(Some(".git")));
    assert!(!is_hidden_entry(Some("src")));
    assert!(!is_hidden_entry(Some("")));
    assert!(!is_hidden_entry(None));
}

#[test]
fn project_marker_is_package_json() {
    assert_eq!(project_marker("/p"), "/p/package.json");
}

#[test]
fn paths_compare_by_components() {
    assert!(same_path_exec("a/b", "a//b/"));
    assert!(!same_path_exec("a/b", "a/c"));
    assert!(path_less("a/b", "a/c"));
    assert!(path_less("a", "a/b"));
    assert!(path_less("a.b", "a/b") == false);
}

#[test]
fn sort_unique_orders_and_drops_repeats() {
    let v = vec!["b/x".to_string(), "a".to_string(), "b//x".to_string(), "a/z".to_string()];
    let r = sort_unique(&v);
    assert_eq!(r.len(), 3);
    assert_eq!(r[0], "a");
    assert_eq!(r[1], "a/z");
    assert!(r[2] == "b/x" || r[2] == "b//x");
}

#[test]
fn leading_dot_stays_a_component() {
    assert_eq!(parent("./a"), Some(".".to_string()));
    assert_eq!(parent("."), Some("".to_string()));
    assert_eq!(parent("a/./b"), Some("a".to_string()));
    assert_eq!(file_name("."), None);
    assert_eq!(file_name("./"), None);
    assert_eq!(file_name("./x"), Some("x".to_string()));
    assert!(!same_path_exec("./a", "a"));
    assert!(same_path_exec("./a", ".//a/."));
    assert!(path_less("./z", "../a"));
    assert!(path_less("../a", "a"));
}
