//! The first form of the command line: `add`, `list` and `status`.

use vstd::prelude::*;
use crate::text::{chars_of, string_of};

verus! {

/// The parsed command line.
#[derive(Debug)]
pub struct Args {
    pub command: Option<Subcommands>,
}

/// The subcommands.
#[derive(Debug)]
pub enum Subcommands {
    /// Scan a directory for Bisheng projects and record them.
    Add { dir: String },
    /// List the recorded projects.
    List,
    /// Show the state of the component repositories of a project.
    Status { dir: String, all: bool },
}

/// Accepts a directory argument when the path is present and is a
/// directory; refuses it with `Invalid directory` otherwise.
pub fn validate_dir(dir: &str, present: bool, is_dir: bool) -> (r: Result<String, String>)
    ensures
        (present && is_dir) ==> (r matches Ok(p) && p@ == dir@),
        !(present && is_dir) ==> (r matches Err(m) && m@ == "Invalid directory"@),
{
    if !present || !is_dir {
        return Err(String::from_str("Invalid directory"));
    }
    Ok(string_of(chars_of(dir).as_slice()))
}

} // verus!
