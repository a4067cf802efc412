//! The project tree: flattening it into a list of projects.

use vstd::prelude::*;
use crate::paths::{parent, parent_spec};
use crate::types::{DirectoryNode, ProjectOption, option_view, option_views};
use crate::utils::{home_dir, opt_view, tilde_path, tilde_spec};
use crate::order::{same_path, same_path_exec};

verus! {

/// The directory that holds `path`, or the root when it has none.
pub open spec fn holder_spec(path: Seq<char>) -> Seq<char> {
    match parent_spec(path) {
        Some(p) => p,
        None => seq!['/'],
    }
}

/// The option that a matched node contributes, given the home directory.
pub open spec fn option_of(n: DirectoryNode, home: Option<Seq<char>>) -> (Seq<char>, Seq<char>, Seq<char>) {
    (n.name@, n.path@, tilde_spec(holder_spec(n.path@), home))
}

/// The projects of the tree under `n`, in pre-order: a matched node before
/// the projects below it, children in their order.
pub open spec fn flat_node(n: DirectoryNode, home: Option<Seq<char>>) -> Seq<(Seq<char>, Seq<char>, Seq<char>)>
    decreases n, 1int,
{
    let own = if n.matched { seq![option_of(n, home)] } else { Seq::empty() };
    own + flat_children(n.child_dirs@, home)
}

/// The projects under each of the nodes `cs`, one node after another.
pub open spec fn flat_children(cs: Seq<DirectoryNode>, home: Option<Seq<char>>) -> Seq<(Seq<char>, Seq<char>, Seq<char>)>
    decreases cs, 0int,
{
    if cs.len() == 0 {
        Seq::empty()
    } else {
        flat_children(cs.drop_last(), home) + flat_node(cs.last(), home)
    }
}

/// Appends the projects of the tree under `node` to `projects`, in
/// pre-order, each with its holding directory shown relative to `home`.
pub fn flatten_projects_with_home(node: &DirectoryNode, home: &Option<String>, projects: &mut Vec<ProjectOption>)
    ensures
        option_views(final(projects)@) == option_views(old(projects)@) + flat_node(*node, opt_view(*home)),
    decreases *node,
{
    let ghost h = opt_view(*home);
    let ghost start = option_views(projects@);
    if node.matched {
        let holder = match parent(node.path.as_str()) {
            Some(p) => p,
            None => String::from_str("/"),
        };
        proof {
            reveal_strlit("/");
        }
        assert(holder@ == holder_spec(node.path@));
        let shown = tilde_path(holder.as_str(), home);
        let ghost before = projects@;
        let item = ProjectOption { name: node.name.clone(), path: node.path.clone(), parent_path: shown };
        assert(option_view(item) == option_of(*node, h));
        projects.push(item);
        assert(option_views(projects@) =~= option_views(before).push(option_of(*node, h)));
    }
    let ghost mid = option_views(projects@);
    let ghost own = if node.matched { seq![option_of(*node, h)] } else { Seq::empty() };
    assert(mid =~= start + own);
    let mut i: usize = 0;
    while i < node.child_dirs.len()
        invariant
            i <= node.child_dirs.len(),
            h == opt_view(*home),
            option_views(projects@) == mid + flat_children(node.child_dirs@.take(i as int), h),
        decreases node.child_dirs.len() - i,
    {
        let ghost before = option_views(projects@);
        assert(decreases_to!(*node => node.child_dirs@[i as int]));
        flatten_projects_with_home(&node.child_dirs[i], home, projects);
        assert(node.child_dirs@.take(i + 1).drop_last() =~= node.child_dirs@.take(i as int));
        assert(option_views(projects@) =~= mid + flat_children(node.child_dirs@.take(i + 1), h));
        i = i + 1;
    }
    assert(node.child_dirs@.take(node.child_dirs.len() as int) =~= node.child_dirs@);
}

/// Appends the projects of the tree under `node` to `projects`, in
/// pre-order, each with its holding directory shown relative to the
/// current user's home directory.
pub fn flatten_projects(node: &DirectoryNode, projects: &mut Vec<ProjectOption>)
    ensures
        exists|home: Option<Seq<char>>| option_views(final(projects)@) == option_views(old(projects)@) + flat_node(*node, home),
{
    let home = home_dir();
    flatten_projects_with_home(node, &home, projects);
}

/// The project trees a stored tree records: the trees of a collection (a
/// node with an empty path), else the tree itself.
pub open spec fn stored_trees(stored: Option<DirectoryNode>) -> Seq<DirectoryNode> {
    match stored {
        None => Seq::empty(),
        Some(n) => if n.path@.len() == 0 { n.child_dirs@ } else { seq![n] },
    }
}

/// The trees of `ts` scanned from a directory other than `p`, in order.
pub open spec fn trees_apart(ts: Seq<DirectoryNode>, p: Seq<char>) -> Seq<DirectoryNode>
    decreases ts.len(),
{
    if ts.len() == 0 {
        Seq::empty()
    } else {
        trees_apart(ts.drop_last(), p) + if same_path(ts.last().path@, p) { Seq::empty() } else { seq![ts.last()] }
    }
}

/// What to store after `new` was scanned: the trees recorded before, but
/// one scanned from the same directory, followed by `new`. One tree is
/// stored as it is; more are held by a collection node with an empty path.
pub fn add_tree(stored: Option<DirectoryNode>, new: DirectoryNode) -> (r: DirectoryNode)
    requires
        new.path@.len() > 0,
    ensures
        stored_trees(Some(r)) == trees_apart(stored_trees(stored), new.path@).push(new),
{
    let ghost orig = stored_trees(stored);
    let mut trees: Vec<DirectoryNode> = match stored {
        None => Vec::new(),
        Some(n) => {
            if n.path.as_str().is_empty() {
                n.child_dirs
            } else {
                let mut v: Vec<DirectoryNode> = Vec::new();
                v.push(n);
                v
            }
        },
    };
    assert(trees@ =~= orig);
    let mut kept: Vec<DirectoryNode> = Vec::new();
    let ghost mut k: int = 0;
    assert(orig.take(0) =~= Seq::<DirectoryNode>::empty());
    while trees.len() > 0
        invariant
            0 <= k <= orig.len(),
            trees@ == orig.skip(k),
            kept@ == trees_apart(orig.take(k), new.path@),
        decreases trees.len(),
    {
        let t = trees.remove(0);
        proof {
            assert(t == orig[k]);
            assert(orig.take(k + 1).drop_last() =~= orig.take(k));
            assert(orig.take(k + 1).last() == orig[k]);
        }
        if !same_path_exec(t.path.as_str(), new.path.as_str()) {
            let ghost before = kept@;
            kept.push(t);
            assert(kept@ =~= before + seq![orig[k]]);
        } else {
            assert(kept@ =~= kept@ + Seq::<DirectoryNode>::empty());
        }
        proof {
            assert(trees@ =~= orig.skip(k + 1));
            k = k + 1;
        }
    }
    assert(orig.take(k) =~= orig);
    if kept.len() == 0 {
        assert(stored_trees(Some(new)) =~= kept@.push(new));
        return new;
    }
    let ghost before = kept@;
    kept.push(new);
    let r = DirectoryNode { path: String::new(), name: String::new(), matched: false, child_dirs: kept };
    assert(r.path@.len() == 0);
    assert(stored_trees(Some(r)) =~= before.push(new));
    r
}

} // verus!
