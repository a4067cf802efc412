//! Path naming, home-relative display and the state of a git checkout.

use vstd::prelude::*;
use crate::text::{chars_of, string_of};
use crate::paths::{file_name, file_name_spec, join_path, join_spec};
use crate::order::{strip_prefix, strip_prefix_spec};

verus! {

/// `dirs::home_dir`, as text: the home directory of the user that runs the
/// program. It is read from the environment, so nothing is stated of it.
#[verifier::external_body]
pub(crate) fn home_dir() -> Option<String> {
    dirs::home_dir().map(|p| p.to_string_lossy().into_owned())
}

/// The name of the directory `path` names, or the empty text when it has none.
pub open spec fn dir_string_spec(path: Seq<char>) -> Seq<char> {
    match file_name_spec(path) {
        Some(n) => n,
        None => Seq::<char>::empty(),
    }
}

/// The last component of `path`, or an empty string when there is none.
pub fn path_to_dir_string(path: &str) -> (r: String)
    ensures
        r@ == dir_string_spec(path@),
{
    match file_name(path) {
        Some(n) => n,
        None => String::new(),
    }
}

/// `path` with the leading home directory `home` written as `~`.
pub open spec fn tilde_spec(path: Seq<char>, home: Option<Seq<char>>) -> Seq<char> {
    match home {
        Some(h) => match strip_prefix_spec(path, h) {
            Some(rest) => join_spec(seq!['~'], rest),
            None => path,
        },
        None => path,
    }
}

/// The texts of an optional string.
pub open spec fn opt_view(o: Option<String>) -> Option<Seq<char>> {
    match o {
        Some(s) => Some(s@),
        None => None,
    }
}

/// `path` with the home directory `home`, when it leads the path, written as `~`.
pub fn tilde_path(path: &str, home: &Option<String>) -> (r: String)
    ensures
        r@ == tilde_spec(path@, opt_view(*home)),
{
    match home {
        Some(h) => match strip_prefix(path, h.as_str()) {
            Some(rest) => {
                proof {
                    reveal_strlit("~");
                }
                join_path("~", rest.as_str())
            },
            None => string_of(chars_of(path).as_slice()),
        },
        None => string_of(chars_of(path).as_slice()),
    }
}

/// `path` with the current user's home directory, when it leads the path,
/// written as `~`.
pub fn get_tilde_path(path: &str) -> (r: String)
    ensures
        exists|home: Option<Seq<char>>| r@ == tilde_spec(path@, home),
{
    let home = home_dir();
    tilde_path(path, &home)
}

/// Whether a directory entry is hidden: its name is valid text starting with `.`.
pub fn is_hidden_entry(file_name: Option<&str>) -> (r: bool)
    ensures
        r == (file_name matches Some(n) && n@.len() > 0 && n@[0] == '.'),
{
    match file_name {
        Some(n) => {
            let cs = chars_of(n);
            cs.len() > 0 && cs[0] == '.'
        },
        None => false,
    }
}

/// The file whose presence marks a directory as a Bisheng project.
pub fn project_marker(path: &str) -> (r: String)
    ensures
        r@ == join_spec(path@, "package.json"@),
{
    join_path(path, "package.json")
}

/// The state of a git checkout.
#[derive(Debug)]
pub struct GitStatusInfo {
    /// The branch, tag or short commit id that is checked out.
    pub branch: String,
    /// Whether the work tree has no changes.
    pub is_clean: bool,
    /// The files that differ from the index or are untracked.
    pub modified_files: Vec<String>,
    /// How many entries the stash holds.
    pub stash_count: usize,
}

impl GitStatusInfo {
    /// The state with these parts; the checkout is clean when no file differs.
    pub fn new(branch: String, modified_files: Vec<String>, stash_count: usize) -> (r: Self)
        ensures
            r.branch == branch,
            r.modified_files == modified_files,
            r.stash_count == stash_count,
            r.is_clean == (modified_files@.len() == 0),
    {
        let is_clean = modified_files.len() == 0;
        GitStatusInfo { branch, is_clean, modified_files, stash_count }
    }
}

/// The first tag, in the order given, whose target is the commit `head`.
pub open spec fn first_tag_at(tags: Seq<(Seq<char>, Option<Seq<char>>)>, head: Option<Seq<char>>) -> Option<Seq<char>>
    decreases tags.len(),
{
    if tags.len() == 0 {
        None
    } else if head is Some && tags[0].1 == head {
        Some(tags[0].0)
    } else {
        first_tag_at(tags.drop_first(), head)
    }
}

/// The texts of a list of tags with their targets.
pub open spec fn tag_views(tags: Seq<(String, Option<String>)>) -> Seq<(Seq<char>, Option<Seq<char>>)> {
    tags.map_values(|t: (String, Option<String>)| (t.0@, opt_view(t.1)))
}

/// What names a detached head: the first tag at the head commit, else the
/// first seven characters of the commit id, else `Unknown`.
pub open spec fn detached_label_spec(tags: Seq<(Seq<char>, Option<Seq<char>>)>, head: Option<Seq<char>>) -> Seq<char> {
    match first_tag_at(tags, head) {
        Some(t) => t,
        None => match head {
            Some(id) => id.take(7),
            None => "Unknown"@,
        },
    }
}

/// The label of a detached head, given each tag with the commit it names
/// (`None` where the tag could not be resolved) and the head commit id.
pub fn detached_head_label(tags: &Vec<(String, Option<String>)>, head_id: &Option<String>) -> (r: String)
    requires
        head_id matches Some(id) ==> id@.len() >= 7,
    ensures
        r@ == detached_label_spec(tag_views(tags@), opt_view(*head_id)),
{
    let ghost tv = tag_views(tags@);
    let ghost hv = opt_view(*head_id);
    let mut i: usize = 0;
    assert(tv.skip(0) =~= tv);
    while i < tags.len()
        invariant
            i <= tags.len(),
            tv == tag_views(tags@),
            hv == opt_view(*head_id),
            first_tag_at(tv, hv) == first_tag_at(tv.skip(i as int), hv),
        decreases tags.len() - i,
    {
        assert(tv.skip(i as int)[0] == tv[i as int]);
        let matches = match (&tags[i].1, head_id) {
            (Some(t), Some(h)) => *t == *h,
            _ => false,
        };
        if matches {
            return tags[i].0.clone();
        }
        assert(tv.skip(i as int).drop_first() =~= tv.skip(i + 1));
        i = i + 1;
    }
    match head_id {
        Some(id) => {
            let mut cs = chars_of(id.as_str());
            cs.truncate(7);
            assert(cs@ =~= id@.take(7));
            string_of(cs.as_slice())
        },
        None => String::from_str("Unknown"),
    }
}

/// The label of an attached head: its short name (`HEAD` when it has none),
/// or `Unknown` when the head could not be read (`None`).
pub fn attached_head_label(head: Option<Option<String>>) -> (r: String)
    ensures
        r@ == match head {
            Some(Some(n)) => n@,
            Some(None) => "HEAD"@,
            None => "Unknown"@,
        },
{
    match head {
        Some(Some(n)) => n,
        Some(None) => String::from_str("HEAD"),
        None => String::from_str("Unknown"),
    }
}

} // verus!
