use bsr::scan::{DirScan, EntryInfo, ScanAction, ScannedDir, collect_repos, project_tree};

/// A directory of a made-up tree: whether it is marked, and its entries
/// (name, whether a directory).
fn dir_of(path: &str) -> (bool, Vec<(&'static str, bool)>) {
    match path {
        "/r" => (false, vec![("a", true), (".hid", true), ("f.txt", false), ("b", true)]),
        "/r/a" => (true, vec![("inner", true)]),
        "/r/b" => (false, vec![("c", true), ("d", true)]),
        "/r/b/c" => (false, vec![]),
        "/r/b/d" => (true, vec![]),
        "/r/.hid" => (true, vec![]),
        "/r/a/inner" => (true, vec![]),
        _ => (false, vec![]),
    }
}

fn run(root: &str) -> (ScannedDir, Vec<String>) {
    let (mut scan, mut action) = DirScan::start(root.to_string());
    let mut asked = Vec::new();
    loop {
        action = match action {
            ScanAction::CheckMarker(p) => {
                asked.push(p.clone());
                scan.marker(dir_of(&p).0)
            }
            ScanAction::ReadEntries(p) => {
                let es = dir_of(&p)
                    .1
                    .into_iter()
                    .map(|(n, d)| EntryInfo { path: format!("{}/{}", p, n), name: Some(n.to_string()), is_dir: d })
                    .collect();
                scan.entries(es)
            }
            ScanAction::Finished(t) => return (t, asked),
        };
    }
}

#[test]
fn scan_asks_in_order_and_skips_hidden_and_marked() {
    let (_, asked) = run("/r");
    assert_eq!(asked, vec!["/r", "/r/a", "/r/b", "/r/b/c", "/r/b/d"]);
}

#[test]
fn project_tree_keeps_only_branches_with_projects() {
    let (tree, _) = run("/r");
    let node = project_tree(&tree).expect("projects found");
    assert_eq!(node.path, "/r");
    assert_eq!(node.name, "r");
    assert!(!node.matched);
    assert_eq!(node.child_dirs.len(), 2);
    assert_eq!(node.child_dirs[0].path, "/r/a");
    assert!(node.child_dirs[0].matched);
    assert!(node.child_dirs[0].child_dirs.is_empty());
    let b = &node.child_dirs[1];
    assert_eq!(b.name, "b");
    assert!(!b.matched);
    assert_eq!(b.child_dirs.len(), 1);
    assert_eq!(b.child_dirs[0].path, "/r/b/d");
    assert_eq!(b.child_dirs[0].name, "d");
}

#[test]
fn project_tree_of_empty_scan_is_none() {
    let (tree, asked) = run("/r/b/c");
    assert_eq!(asked, vec!["/r/b/c"]);
    assert!(project_tree(&tree).is_none());
}

#[test]
fn marked_root_is_the_whole_tree() {
    let (tree, asked) = run("/r/a");
    assert_eq!(asked, vec!["/r/a"]);
    let node = project_tree(&tree).unwrap();
    assert!(node.matched);
    assert!(node.child_dirs.is_empty());
}

#[test]
fn repositories_collected_in_scan_order() {
    let (tree, _) = run("/r");
    let mut repos = vec!["/earlier".to_string()];
    collect_repos(&tree, &mut repos);
    assert_eq!(repos, vec!["/earlier", "/r/a", "/r/b/d"]);
}

#[test]
fn entry_without_text_name_is_not_hidden() {
    let (mut scan, _) = DirScan::start("/x".to_string());
    let a = scan.marker(false);
    assert!(matches!(a, ScanAction::ReadEntries(ref p) if p == "/x"));
    let a = scan.entries(vec![EntryInfo { path: "/x/y".to_string(), name: None, is_dir: true }]);
    assert!(matches!(a, ScanAction::CheckMarker(ref p) if p == "/x/y"));
    let a = scan.marker(true);
    match a {
        ScanAction::Finished(t) => {
            let mut repos = Vec::new();
            collect_repos(&t, &mut repos);
            assert_eq!(repos, vec!["/x/y"]);
        }
        _ => panic!("scan should be finished"),
    }
}

#[test]
fn listed_projects_match_marked_directories() {
    let (tree, _) = run("/r");
    let node = project_tree(&tree).unwrap();
    let mut listed = Vec::new();
    bsr::projects::flatten_projects_with_home(&node, &None, &mut listed);
    let paths: Vec<String> = listed.into_iter().map(|o| o.path).collect();
    let mut marked = Vec::new();
    collect_repos(&tree, &mut marked);
    assert_eq!(paths, marked);
    assert_eq!(paths, vec!["/r/a", "/r/b/d"]);
}
