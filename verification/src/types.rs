//! The data that the commands share.

use vstd::prelude::*;
use crate::text::{chars_of, string_of};
use crate::paths::append_chars;

verus! {

/// A directory in the tree of scanned projects.
///
/// A matched directory is a Bisheng project; an unmatched one is kept only
/// because some directory below it is a project.
#[derive(Debug)]
pub struct DirectoryNode {
    /// The absolute path of the directory.
    pub path: String,
    /// The name of the directory.
    pub name: String,
    /// Whether the directory is a Bisheng project.
    pub matched: bool,
    /// The directories below it that hold projects.
    pub child_dirs: Vec<DirectoryNode>,
}

impl DirectoryNode {
    /// A node for `path` named `name`, not matched and without children.
    pub fn from(path: String, name: String) -> (r: Self)
        ensures
            r.path@ == path@,
            r.name@ == name@,
            !r.matched,
            r.child_dirs@.len() == 0,
    {
        DirectoryNode { path, name, matched: false, child_dirs: Vec::new() }
    }
}

/// A project as offered for selection.
#[derive(Clone)]
pub struct ProjectOption {
    /// The name of the project.
    pub name: String,
    /// The full path of the project.
    pub path: String,
    /// The directory that holds the project, as shown to the user.
    pub parent_path: String,
}

/// The texts of a project option: name, path and parent path.
pub open spec fn option_view(o: ProjectOption) -> (Seq<char>, Seq<char>, Seq<char>) {
    (o.name@, o.path@, o.parent_path@)
}

/// The texts of a sequence of project options.
pub open spec fn option_views(s: Seq<ProjectOption>) -> Seq<(Seq<char>, Seq<char>, Seq<char>)> {
    s.map_values(|o: ProjectOption| option_view(o))
}

/// How a project option reads in a list: `name [parent]`.
pub open spec fn label_spec(name: Seq<char>, parent: Seq<char>) -> Seq<char> {
    name + seq![' ', '['] + parent + seq![']']
}

impl ProjectOption {
    /// The line that stands for this option in a selection list.
    pub fn label(&self) -> (r: String)
        ensures
            r@ == label_spec(self.name@, self.parent_path@),
    {
        let mut out = chars_of(self.name.as_str());
        out.push(' ');
        out.push('[');
        let p = chars_of(self.parent_path.as_str());
        append_chars(&mut out, p.as_slice());
        out.push(']');
        assert(out@ =~= label_spec(self.name@, self.parent_path@));
        string_of(out.as_slice())
    }
}

} // verus!
