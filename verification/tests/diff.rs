use bsr::cache::PathCache;
use bsr::diff::{ChangeKind, DiffChange, decimal_chars, generate_diff, render_diff};
use bsr::styled::{Style, plain_text};
use bsr::text::trim_chars;

fn change(kind: ChangeKind, old: Option<usize>, new: Option<usize>, vals: &[(bool, &str)], missing: bool) -> DiffChange {
    DiffChange {
        kind,
        old_index: old,
        new_index: new,
        values: vals.iter().map(|(e, v)| (*e, v.to_string())).collect(),
        missing_newline: missing,
    }
}

#[test]
fn decimal_digits() {
    assert_eq!(decimal_chars(0), vec!['0']);
    assert_eq!(decimal_chars(1024), vec!['1', '0', '2', '4']);
}

#[test]
fn rendered_groups_are_separated_by_dashes() {
    let groups = vec![
        vec![change(ChangeKind::Delete, Some(0), None, &[(true, "old"), (false, "\n")], false)],
        vec![change(ChangeKind::Insert, None, Some(11999), &[(false, "new")], true)],
    ];
    let out = render_diff("f", &groups);
    let expected = format!("File: f\n   1 | - old\n{}\n12000 | + new\n", "-".repeat(80));
    assert_eq!(plain_text(&out), expected);
    assert_eq!(out[5].style, Style::RedBold);
    assert_eq!(out[6].style, Style::Red);
}

#[test]
fn generated_diff_lists_changed_lines() {
    let d = generate_diff("one\ntwo\nthree\n", "one\n2\nthree\n", "n.txt", 0);
    assert_eq!(plain_text(&d), "File: n.txt\n   2 | - two\n   2 | + 2\n");
}

#[test]
fn identical_texts_have_no_groups() {
    let d = generate_diff("same\n", "same\n", "s", 3);
    assert_eq!(plain_text(&d), "File: s\n");
}

#[test]
fn cache_reads_back_what_was_written() {
    let mut c: PathCache<u32> = PathCache::new();
    assert!(c.get("/a").is_none());
    c.insert("/a/b", 1);
    c.insert("/a//b/", 2);
    c.insert("/c", 3);
    assert_eq!(c.get("/a/b"), Some(&2));
    assert_eq!(c.get("/c"), Some(&3));
    assert!(c.get("/d").is_none());
}

#[test]
fn trim_removes_outer_white_space() {
    assert_eq!(trim_chars("  a b \n"), "a b");
    assert_eq!(trim_chars(" \t"), "");
}
