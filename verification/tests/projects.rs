use bsr::projects::{add_tree, flatten_projects_with_home};
use bsr::types::{DirectoryNode, ProjectOption};

fn leaf(path: &str, name: &str) -> DirectoryNode {
    DirectoryNode { path: path.to_string(), name: name.to_string(), matched: true, child_dirs: vec![] }
}

#[test]
fn node_from_path_and_name() {
    let n = DirectoryNode::from("/a/b".to_string(), "b".to_string());
    assert_eq!(n.path, "/a/b");
    assert_eq!(n.name, "b");
    assert!(!n.matched);
    assert!(n.child_dirs.is_empty());
}

#[test]
fn flatten_lists_projects_in_preorder() {
    let mut sub = DirectoryNode::from("/home/u/w/g".to_string(), "g".to_string());
    sub.child_dirs.push(leaf("/home/u/w/g/p2", "p2"));
    let mut root = DirectoryNode::from("/home/u/w".to_string(), "w".to_string());
    root.child_dirs.push(leaf("/home/u/w/p1", "p1"));
    root.child_dirs.push(sub);
    let mut out = Vec::new();
    flatten_projects_with_home(&root, &Some("/home/u".to_string()), &mut out);
    assert_eq!(out.len(), 2);
    assert_eq!(out[0].name, "p1");
    assert_eq!(out[0].path, "/home/u/w/p1");
    assert_eq!(out[0].parent_path, "~/w");
    assert_eq!(out[1].name, "p2");
    assert_eq!(out[1].parent_path, "~/w/g");
}

#[test]
fn flatten_matched_root_directory() {
    let mut out = Vec::new();
    flatten_projects_with_home(&leaf("/", ""), &None, &mut out);
    assert_eq!(out.len(), 1);
    assert_eq!(out[0].parent_path, "/");
}

#[test]
fn option_label_shows_parent_in_brackets() {
    let o = ProjectOption { name: "app".to_string(), path: "/x/app".to_string(), parent_path: "~/x".to_string() };
    assert_eq!(o.label(), "app [~/x]");
}

fn tree(path: &str) -> DirectoryNode {
    let mut n = DirectoryNode::from(path.to_string(), "x".to_string());
    n.child_dirs.push(leaf(&format!("{}/p", path), "p"));
    n
}

#[test]
fn adding_trees_keeps_earlier_directories() {
    let first = add_tree(None, tree("/a"));
    assert_eq!(first.path, "/a");
    let both = add_tree(Some(first), tree("/b"));
    assert_eq!(both.path, "");
    let paths: Vec<String> = both.child_dirs.iter().map(|c| c.path.clone()).collect();
    assert_eq!(paths, vec!["/a", "/b"]);
    let again = add_tree(Some(both), tree("/a/"));
    let paths: Vec<String> = again.child_dirs.iter().map(|c| c.path.clone()).collect();
    assert_eq!(paths, vec!["/b", "/a/"]);
    let mut listed = Vec::new();
    flatten_projects_with_home(&again, &None, &mut listed);
    let names: Vec<String> = listed.into_iter().map(|o| o.path).collect();
    assert_eq!(names, vec!["/b/p", "/a//p"]);
    let replaced = add_tree(Some(tree("/a")), tree("/a"));
    assert_eq!(replaced.path, "/a");
}
