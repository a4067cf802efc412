use bsr::commands::status::status_report;
use bsr::styled::{Style, plain_lines_text};
use bsr::utils::{GitStatusInfo, attached_head_label, detached_head_label};

fn info(branch: &str, files: &[&str], stashes: usize) -> GitStatusInfo {
    GitStatusInfo::new(branch.to_string(), files.iter().map(|f| f.to_string()).collect(), stashes)
}

#[test]
fn status_clean_when_no_file_differs() {
    assert!(info("main", &[], 0).is_clean);
    assert!(!info("main", &["a"], 0).is_clean);
}

#[test]
fn report_shows_changed_repositories() {
    let repos = vec![
        ("/p/originSource/a".to_string(), Ok(info("main", &[], 0))),
        ("/p/originSource/b".to_string(), Ok(info("dev", &["x.c", "y.h"], 2))),
        ("/p/originSource/c".to_string(), Err("broken".to_string())),
    ];
    let lines = status_report(&repos, false);
    assert_eq!(
        plain_lines_text(&lines),
        "\nb [dev] (modified)\n  → 2 stashes\n  - x.c\n  - y.h\nError c: broken\n\n"
    );
    assert_eq!(lines[0][1].style, Style::CyanBold);
}

#[test]
fn report_with_all_shows_clean_ones() {
    let repos = vec![("/o/a".to_string(), Ok(info("main", &[], 0)))];
    assert_eq!(plain_lines_text(&status_report(&repos, true)), "\na [main] (clean)\n\n");
}

#[test]
fn report_says_when_all_are_clean() {
    let repos = vec![("/o/a".to_string(), Ok(info("main", &[], 1)))];
    assert_eq!(
        plain_lines_text(&status_report(&repos, false)),
        "\nAll repositories are clean. Use --all to show them.\n\n"
    );
}

#[test]
fn report_without_repositories() {
    assert_eq!(plain_lines_text(&status_report(&vec![], false)), "No git repositories found in originSource.\n\n");
}

#[test]
fn detached_head_named_by_tag_or_short_id() {
    let tags = vec![("v1".to_string(), Some("aaaaaaaaaa".to_string())), ("v2".to_string(), Some("bbbbbbbbbb".to_string()))];
    assert_eq!(detached_head_label(&tags, &Some("bbbbbbbbbb".to_string())), "v2");
    assert_eq!(detached_head_label(&tags, &Some("0123456789".to_string())), "0123456");
    assert_eq!(detached_head_label(&tags, &None), "Unknown");
}

#[test]
fn attached_head_named_by_short_name() {
    assert_eq!(attached_head_label(Some(Some("main".to_string()))), "main");
    assert_eq!(attached_head_label(Some(None)), "HEAD");
    assert_eq!(attached_head_label(None), "Unknown");
}
