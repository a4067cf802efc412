use bsr::commands::compare::{
    FileStep, first_step, head_step,
    CompareContext, FileKind, GitVersion, RootProbe, added_entry, assemble_differences, binary_entry, build_report,
    cache_git_root, cache_git_version, check_structure_similarity, content_entry, deleted_entry, differences_text,
    format_git_version, get_cached_git_root, get_cached_git_version, git_root_first, git_root_step, git_version_from,
    is_binary_prefix, is_origin_source, list_relative_files, origin_entry, origin_file_diff, origin_summary,
    origin_versions_match, plan_comparison, rel_parent_exec, report_file_name, strip_ansi_codes,
};
use bsr::styled::{Style, plain_lines_text, plain_text};

fn s(v: &[&str]) -> Vec<String> {
    v.iter().map(|x| x.to_string()).collect()
}

#[test]
fn versions_written_with_kind_and_dirty_mark() {
    assert_eq!(format_git_version(&GitVersion::Tag("v1.0".to_string(), true)), "Tag: v1.0");
    assert_eq!(format_git_version(&GitVersion::Branch("main".to_string(), false)), "Branch: main*");
    assert_eq!(format_git_version(&GitVersion::Commit("0123456789abcdef".to_string(), true)), "Commit: 0123456");
    assert_eq!(format_git_version(&GitVersion::Commit("abc".to_string(), false)), "Commit: abc*");
}

#[test]
fn version_of_checkout_prefers_first_matching_tag() {
    let tags = vec![
        ("v0".to_string(), Some("111".to_string())),
        ("broken".to_string(), None),
        ("v1".to_string(), Some("222".to_string())),
        ("v1b".to_string(), Some("222".to_string())),
    ];
    let v = git_version_from(true, "HEAD".to_string(), "222".to_string(), &tags, true);
    assert_eq!(format_git_version(&v), "Tag: v1");
    let v = git_version_from(true, "HEAD".to_string(), "3333333333".to_string(), &tags, false);
    assert_eq!(format_git_version(&v), "Commit: 3333333*");
    let v = git_version_from(false, "dev".to_string(), "222".to_string(), &tags, true);
    assert_eq!(format_git_version(&v), "Branch: dev");
}

#[test]
fn same_release_needs_equal_clean_tags() {
    let t = |n: &str, c: bool| GitVersion::Tag(n.to_string(), c);
    assert!(origin_versions_match(&t("v1", true), &t("v1", true)));
    assert!(!origin_versions_match(&t("v1", true), &t("v1", false)));
    assert!(!origin_versions_match(&t("v1", true), &t("v2", true)));
    assert!(!origin_versions_match(&GitVersion::Branch("v1".to_string(), true), &t("v1", true)));
}

#[test]
fn context_caches_roots_and_versions() {
    let mut ctx = CompareContext::new();
    assert!(get_cached_git_root("/a/b", &ctx).is_none());
    assert_eq!(cache_git_root("/a/b", Some("/a".to_string()), &mut ctx), Some("/a".to_string()));
    assert_eq!(cache_git_root("/x", None, &mut ctx), None);
    assert_eq!(get_cached_git_root("/a//b/", &ctx), Some(Some("/a".to_string())));
    assert_eq!(get_cached_git_root("/x", &ctx), Some(None));
    assert!(get_cached_git_version("/a", &ctx).is_none());
    let kept = cache_git_version("/a", GitVersion::Tag("v2".to_string(), true), &mut ctx);
    assert_eq!(format_git_version(&kept), "Tag: v2");
    let v = get_cached_git_version("/a", &ctx).unwrap();
    assert_eq!(format_git_version(&v), "Tag: v2");
}

#[test]
fn root_search_climbs_from_file_parent() {
    match git_root_first("/a/b/f.txt", true) {
        RootProbe::Check(d) => assert_eq!(d, "/a/b"),
        p => panic!("expected a directory, got {:?}", p),
    }
    match git_root_first("/a/b", false) {
        RootProbe::Check(d) => assert_eq!(d, "/a/b"),
        p => panic!("expected a directory, got {:?}", p),
    }
    match git_root_step("/a", false) {
        RootProbe::Check(d) => assert_eq!(d, "/"),
        p => panic!("expected the root, got {:?}", p),
    }
    match git_root_step("/a/b", true) {
        RootProbe::Found(d) => assert_eq!(d, "/a/b"),
        p => panic!("expected the repository root, got {:?}", p),
    }
    assert!(matches!(git_root_step("/", false), RootProbe::Exhausted));
}

#[test]
fn origin_source_found_among_components() {
    assert!(is_origin_source("originSource/lib/a.c"));
    assert!(is_origin_source("/p/originSource"));
    assert!(!is_origin_source("originSourceX/a"));
    assert!(!is_origin_source("src/a.c"));
}

#[test]
fn plan_lists_union_in_order_with_kinds() {
    let a = s(&["b.txt", "a.txt", "originSource/x.c", "gone.txt"]);
    let b = s(&["a.txt", "new.txt", "b.txt", "originSource/x.c"]);
    let plan = plan_comparison(&a, &b, false);
    let got: Vec<(String, FileKind)> = plan.into_iter().map(|t| (t.rel_path, t.kind)).collect();
    assert_eq!(
        got,
        vec![
            ("a.txt".to_string(), FileKind::Content),
            ("b.txt".to_string(), FileKind::Content),
            ("gone.txt".to_string(), FileKind::Deleted),
            ("new.txt".to_string(), FileKind::Added),
        ]
    );
    let plan = plan_comparison(&a, &b, true);
    assert_eq!(plan.len(), 5);
    assert_eq!(plan[4].rel_path, "originSource/x.c");
    assert_eq!(plan[4].kind, FileKind::OriginSource);
}

#[test]
fn entries_read_as_the_report_shows_them() {
    assert_eq!(plain_text(&deleted_entry("a/x")), "Deleted: a/x");
    assert_eq!(plain_text(&added_entry("a/y")), "Added:   a/y");
    assert!(binary_entry("img.png", 10, 10).is_none());
    assert_eq!(plain_text(&binary_entry("img.png", 10, 12).unwrap()), "M img.png (binary files differ)");
    let d = deleted_entry("q");
    assert_eq!(d[0].style, Style::Red);
}

#[test]
fn binary_files_hold_a_zero_byte() {
    assert!(is_binary_prefix(&[1, 2, 0, 3]));
    assert!(!is_binary_prefix(b"plain text"));
    assert!(!is_binary_prefix(&[]));
}

#[test]
fn diff_of_changed_file_shows_numbered_lines() {
    let a = "a\nb\n".to_string();
    let b = "a\nc\n".to_string();
    assert!(content_entry(&a, &a, "f.txt", 3).is_none());
    let d = content_entry(&a, &b, "f.txt", 3).unwrap();
    assert_eq!(plain_text(&d), "File: f.txt\n   1 |   a\n   2 | - b\n   2 | + c\n");
}

#[test]
fn origin_diff_skipped_for_same_release() {
    let a = "x\n".to_string();
    let b = "y\n".to_string();
    assert!(origin_file_diff(true, &a, &b, "m.c", 3).is_none());
    assert!(origin_file_diff(false, &a, &a, "m.c", 3).is_none());
    let d = origin_file_diff(false, &a, &b, "m.c", 3).unwrap();
    let e = origin_entry("originSource/m.c", d);
    assert_eq!(plain_text(&e), "originSource/m.c (originSource)\nFile: m.c\n   1 | - x\n   1 | + y\n");
}

#[test]
fn differences_grouped_by_directory() {
    assert_eq!(rel_parent_exec("a.txt"), "");
    assert_eq!(rel_parent_exec("d/e/f.txt"), "d/e");
    let entries = vec![
        ("z/b.txt".to_string(), deleted_entry("z/b.txt")),
        ("top.txt".to_string(), added_entry("top.txt")),
        ("z/a.txt".to_string(), added_entry("z/a.txt")),
    ];
    let lines = assemble_differences(&entries);
    let text = differences_text(&lines, false);
    assert_eq!(
        text,
        "Directory: \nAdded:   top.txt\n\nDirectory: z\nDeleted: z/b.txt\nAdded:   z/a.txt\n\n"
    );
    assert_eq!(lines[0][0].style, Style::BlueBold);
}

#[test]
fn no_differences_reported_as_such() {
    let lines = assemble_differences(&vec![]);
    assert_eq!(lines.len(), 1);
    assert_eq!(plain_lines_text(&lines), "No differences found.\n");
    assert_eq!(differences_text(&lines, true), "No differences found.");
}

#[test]
fn summary_lists_differing_components() {
    let a = vec![
        ("lib/x".to_string(), GitVersion::Tag("v1".to_string(), true)),
        ("lib/y".to_string(), GitVersion::Branch("main".to_string(), true)),
        ("only_a".to_string(), GitVersion::Tag("v0".to_string(), true)),
    ];
    let b = vec![
        ("lib/y".to_string(), GitVersion::Branch("main".to_string(), true)),
        ("lib/x".to_string(), GitVersion::Tag("v2".to_string(), false)),
        ("only_b".to_string(), GitVersion::Commit("abcdef0123".to_string(), true)),
    ];
    let text = plain_lines_text(&origin_summary(&a, &b));
    assert_eq!(
        text,
        "\n--- originSource Version Comparison ---\nlib/x: Tag: v1 vs Tag: v2*\nonly_a: Missing (only in A)\nonly_b: Missing (only in B)\n"
    );
}

#[test]
fn summary_says_when_all_match() {
    let a = vec![("c".to_string(), GitVersion::Tag("v1".to_string(), true))];
    let b = vec![("c".to_string(), GitVersion::Tag("v1".to_string(), true))];
    let text = plain_lines_text(&origin_summary(&a, &b));
    assert_eq!(text, "\n--- originSource Version Comparison ---\nAll originSource repositories match.\n");
}

#[test]
fn color_codes_removed() {
    assert_eq!(strip_ansi_codes("\x1b[31mred\x1b[0m and \x1b[1;32mgreen\x1b[0m"), "red and green");
    assert_eq!(strip_ansi_codes("plain"), "plain");
}

#[test]
fn report_named_by_timestamp() {
    assert_eq!(report_file_name("20240102_030405"), "diff_20240102_030405.txt");
}

#[test]
fn report_holds_header_differences_and_summary() {
    let r = build_report("2024-01-02 03:04:05", "/a", "/b", "\x1b[31mDeleted:\x1b[0m x", Some("sum"));
    assert_eq!(
        r,
        "# Comparison Report\n\n- **Generated at**: 2024-01-02 03:04:05\n- **Directory A**: `/a`\n- **Directory B**: `/b`\n\n---\n\n## File Differences\n\n```diff\nDeleted: x\n```\n\n## originSource Version Comparison\n\n```diff\nsum\n```\n\n"
    );
    let r = build_report("t", "/a", "/b", "  \n", None);
    assert!(r.ends_with("## File Differences\n\n*No file differences found.*\n\n"));
}

#[test]
fn structure_similarity_threshold_is_three_tenths() {
    assert!(check_structure_similarity(&vec![], &vec![]));
    let a = s(&["1", "2", "3", "4", "5", "6", "7"]);
    let b = s(&["1", "2", "3", "x1", "x2", "x3"]);
    assert!(check_structure_similarity(&a, &b));
    let c = s(&["1", "2", "y1", "y2", "y3", "y4", "y5", "y6"]);
    assert!(!check_structure_similarity(&a, &c));
    assert!(check_structure_similarity(&s(&["a", "a/./b"]), &s(&["a", "a/b"])));
}

#[test]
fn walked_files_made_relative_and_sorted() {
    let walked = s(&["/r/b.txt", "/r/a/c.txt", "/elsewhere/x", "/r/b.txt"]);
    assert_eq!(list_relative_files("/r", &walked), s(&["a/c.txt", "b.txt"]));
}

#[test]
fn second_walk_under_origin_source_only_adds() {
    let main = s(&["/r/a.txt", "/r/d/b.txt"]);
    let mut both = main.clone();
    both.extend(s(&["/r/originSource/x/y.c", "/r/originSource/z"]));
    assert_eq!(list_relative_files("/r", &main), s(&["a.txt", "d/b.txt"]));
    assert_eq!(
        list_relative_files("/r", &both),
        s(&["a.txt", "d/b.txt", "originSource/x/y.c", "originSource/z"])
    );
}

#[test]
fn file_steps_follow_the_kind() {
    match first_step(FileKind::Deleted, "x") {
        FileStep::Done(Some(l)) => assert_eq!(plain_text(&l), "Deleted: x"),
        s => panic!("unexpected step {:?}", s),
    }
    match first_step(FileKind::Added, "x") {
        FileStep::Done(Some(l)) => assert_eq!(plain_text(&l), "Added:   x"),
        s => panic!("unexpected step {:?}", s),
    }
    assert!(matches!(first_step(FileKind::OriginSource, "x"), FileStep::CompareOrigin));
    assert!(matches!(first_step(FileKind::Content, "x"), FileStep::ReadHeadA));
    assert!(matches!(head_step(true, true), FileStep::ReadSizes));
    assert!(matches!(head_step(true, false), FileStep::ReadHeadB));
    assert!(matches!(head_step(false, true), FileStep::ReadSizes));
    assert!(matches!(head_step(false, false), FileStep::ReadTexts));
}

#[test]
fn equal_texts_give_only_the_file_line() {
    let d = bsr::diff::generate_diff("same\n", "same\n", "s", usize::MAX / 2);
    assert_eq!(d.len(), 1);
    assert_eq!(plain_text(&d), "File: s\n");
}
