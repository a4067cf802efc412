//! The command line: its subcommands and the checks on their arguments.

use vstd::prelude::*;
use crate::text::{chars_of, string_of};
use crate::paths::append_chars;

verus! {

/// The parsed command line.
#[derive(Debug)]
pub struct Args {
    /// The subcommand, if one was given.
    pub command: Option<Subcommands>,
}

/// The subcommands.
#[derive(Debug)]
pub enum Subcommands {
    /// Scan a directory for Bisheng projects and record them.
    Add { dir: String },
    /// List the recorded projects.
    List,
    /// Show the git state of the components under `originSource` in `dir`;
    /// clean ones too when `all`.
    Status { dir: String, all: bool },
    /// Add `dir` to the waiting area, or compare the waiting directories,
    /// with `context` lines around each change; with `origin_source`, compare
    /// that subdirectory of `originSource` in both.
    Compare { dir: Option<String>, context: usize, origin_source: Option<String> },
    /// Replace the program with its latest release.
    Upgrade,
}

/// The message that refuses a directory argument.
pub open spec fn dir_message(present: bool, dir: Seq<char>) -> Seq<char> {
    if !present {
        "Invalid directory: "@ + dir
    } else {
        "Path is not a directory: "@ + dir
    }
}

/// Accepts a directory argument when the path present and is a directory;
/// refuses it with a message that names the path otherwise.
pub fn validate_dir(dir: &str, present: bool, is_dir: bool) -> (r: Result<String, String>)
    ensures
        (present && is_dir) ==> (r matches Ok(p) && p@ == dir@),
        !(present && is_dir) ==> (r matches Err(m) && m@ == dir_message(present, dir@)),
{
    let d = chars_of(dir);
    if !present || !is_dir {
        let mut m = if !present { chars_of("Invalid directory: ") } else { chars_of("Path is not a directory: ") };
        append_chars(&mut m, d.as_slice());
        return Err(string_of(m.as_slice()));
    }
    Ok(string_of(d.as_slice()))
}

} // verus!
