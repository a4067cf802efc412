//! Where the program keeps its files, and how their contents are read.

use vstd::prelude::*;
use crate::text::{chars_of, string_of, trim, trim_chars, trim_end, trim_start, is_ws};
use crate::paths::{is_absolute, join_path, join_spec};
use crate::order::texts;

verus! {

/// The file that holds the scanned project tree.
pub open spec fn file_name_spec() -> Seq<char> {
    "projects.json"@
}

/// The file that holds the waiting area of the compare command.
pub open spec fn compare_file_name_spec() -> Seq<char> {
    "compare_pending"@
}

/// A path under an absolute directory is absolute.
pub proof fn lemma_join_keeps_absolute(base: Seq<char>, rel: Seq<char>)
    requires
        is_absolute(base),
    ensures
        is_absolute(join_spec(base, rel)),
{
    if !is_absolute(rel) {
        if base.len() > 0 && base.last() != '/' {
            assert((base + seq!['/'] + rel)[0] == base[0]);
        } else {
            assert((base + rel)[0] == base[0]);
        }
    }
}

/// The directory for the program's files under the home directory `home`:
/// `.config/bsr` in it; absolute when the home directory is.
pub fn config_dir_candidate(home: Option<&str>) -> (r: Option<String>)
    ensures
        home is None ==> r is None,
        home matches Some(h) ==> (r matches Some(d) && d@ == join_spec(join_spec(h@, ".config"@), "bsr"@)),
        home matches Some(h) && is_absolute(h@) ==> (r matches Some(d) && is_absolute(d@)),
{
    match home {
        Some(h) => {
            let c = join_path(h, ".config");
            let d = join_path(c.as_str(), "bsr");
            proof {
                if is_absolute(h@) {
                    lemma_join_keeps_absolute(h@, ".config"@);
                    lemma_join_keeps_absolute(c@, "bsr"@);
                }
            }
            Some(d)
        },
        None => None,
    }
}

/// The directory the program keeps its files in: the candidate under the
/// home directory when it exists (or could be made) and can be written,
/// else the current directory `current_dir`, as an absolute path.
pub fn config_dir_choice(candidate: Option<String>, usable: bool, current_dir: String) -> (r: String)
    ensures
        (candidate matches Some(d) && usable) ==> (candidate matches Some(d) && r@ == d@),
        !(candidate is Some && usable) ==> r@ == current_dir@,
{
    match candidate {
        Some(d) => if usable { d } else { current_dir },
        None => current_dir,
    }
}

/// The directory for comparison reports under the configuration directory.
pub fn get_reports_dir(config_dir: &str) -> (r: String)
    ensures
        r@ == join_spec(config_dir@, "reports"@),
{
    join_path(config_dir, "reports")
}

/// The two stored files lie in the configuration directory, are absolute
/// when it is, and are not the same file.
pub proof fn stored_files_absolute_and_apart(config_dir: Seq<char>)
    ensures
        is_absolute(config_dir) ==> is_absolute(join_spec(config_dir, file_name_spec())),
        is_absolute(config_dir) ==> is_absolute(join_spec(config_dir, compare_file_name_spec())),
        join_spec(config_dir, file_name_spec()) != join_spec(config_dir, compare_file_name_spec()),
{
    reveal_strlit("projects.json");
    reveal_strlit("compare_pending");
    if is_absolute(config_dir) {
        lemma_join_keeps_absolute(config_dir, file_name_spec());
        lemma_join_keeps_absolute(config_dir, compare_file_name_spec());
    }
    assert(!is_absolute(file_name_spec()));
    assert(!is_absolute(compare_file_name_spec()));
    assert(join_spec(config_dir, file_name_spec()).len() + 2 == join_spec(config_dir, compare_file_name_spec()).len());
}

/// The file that holds the scanned project tree, in `config_dir`: an
/// absolute path when the directory is one.
pub fn get_file_path(config_dir: &str) -> (r: String)
    ensures
        r@ == join_spec(config_dir@, file_name_spec()),
        is_absolute(config_dir@) ==> is_absolute(r@),
{
    proof {
        stored_files_absolute_and_apart(config_dir@);
    }
    join_path(config_dir, "projects.json")
}

/// The file that holds the waiting area, in `config_dir`: an absolute path
/// when the directory is one, and not the file of the project tree.
pub fn get_compare_file_path(config_dir: &str) -> (r: String)
    ensures
        r@ == join_spec(config_dir@, compare_file_name_spec()),
        is_absolute(config_dir@) ==> is_absolute(r@),
        r@ != join_spec(config_dir@, file_name_spec()),
{
    proof {
        stored_files_absolute_and_apart(config_dir@);
    }
    join_path(config_dir, "compare_pending")
}

/// Whether a stored file holds nothing but white space, and so stands for no data.
pub fn is_blank(content: &str) -> (r: bool)
    ensures
        r == (trim(content@).len() == 0),
{
    let t = trim_chars(content);
    t.as_str().is_empty()
}

/// The waiting area that the text `content` of its file stands for, given
/// the list that the text holds as JSON (`parsed`), if it holds one.
pub open spec fn pending_spec(content: Seq<char>, parsed: Option<Seq<Seq<char>>>) -> Seq<Seq<char>> {
    if trim(content).len() == 0 {
        Seq::empty()
    } else {
        match parsed {
            Some(v) => v,
            None => seq![trim(content)],
        }
    }
}

/// The texts of an optional list of strings.
pub open spec fn opt_texts(o: Option<Vec<String>>) -> Option<Seq<Seq<char>>> {
    match o {
        Some(v) => Some(texts(v@)),
        None => None,
    }
}

/// The waiting area read from the text of its file: nothing when the text
/// is blank; else the list that the text holds as JSON (`parsed`); else,
/// as files of an earlier form held, the one path that the text is.
pub fn pending_from_content(content: &str, parsed: Option<Vec<String>>) -> (r: Vec<String>)
    ensures
        texts(r@) == pending_spec(content@, opt_texts(parsed)),
        trim(content@).len() == 0 ==> r@.len() == 0,
        trim(content@).len() != 0 ==> match parsed {
            Some(v) => r == v,
            None => texts(r@) == seq![trim(content@)],
        },
{
    if is_blank(content) {
        let r: Vec<String> = Vec::new();
        assert(texts(r@) =~= Seq::<Seq<char>>::empty());
        return r;
    }
    match parsed {
        Some(v) => v,
        None => {
            let mut r: Vec<String> = Vec::new();
            r.push(trim_chars(content));
            assert(texts(r@) =~= seq![trim(content@)]);
            r
        },
    }
}

/// The list of paths that a text holds as a JSON array of strings, or
/// nothing when it holds none.
pub uninterp spec fn json_path_list(content: Seq<char>) -> Option<Seq<Seq<char>>>;

/// The JSON text that `serde_json` writes for a list of paths.
pub uninterp spec fn json_of_path_list(paths: Seq<Seq<char>>) -> Seq<char>;

/// `serde_json::from_str::<Vec<String>>`: the list of strings the text
/// holds as a JSON array, or `None` when the text is not such an array.
/// The result is named `json_path_list`.
#[verifier::external_body]
fn parse_path_list(content: &str) -> (r: Option<Vec<String>>)
    ensures
        opt_texts(r) == json_path_list(content@),
{
    match serde_json::from_str::<Vec<String>>(content) {
        Ok(v) => Some(v),
        Err(_) => None,
    }
}

/// `serde_json::to_string` on a list of strings: the JSON array of the
/// strings, named `json_of_path_list`. Writing a list of strings cannot
/// fail (the text goes to memory); the text starts with `[`, and reading it
/// back with `serde_json::from_str` gives the same list.
#[verifier::external_body]
fn write_path_list(paths: &Vec<String>) -> (r: String)
    ensures
        r@ == json_of_path_list(texts(paths@)),
        r@.len() > 0 && r@[0] == '[',
        json_path_list(r@) == Some(texts(paths@)),
{
    match serde_json::to_string(paths) {
        Ok(t) => t,
        Err(_) => String::new(),
    }
}

/// The waiting area that the text of its file stands for: nothing when the
/// text is blank, else the list it holds as JSON, else the one path that
/// the text is.
pub fn read_pending_from_content(content: &str) -> (r: Vec<String>)
    ensures
        texts(r@) == pending_spec(content@, json_path_list(content@)),
{
    let parsed = parse_path_list(content);
    pending_from_content(content, parsed)
}

/// The text to store for the waiting area `dirs`: the JSON array of the paths.
pub fn pending_to_content(dirs: &Vec<String>) -> (r: String)
    ensures
        r@ == json_of_path_list(texts(dirs@)),
        pending_spec(r@, json_path_list(r@)) == texts(dirs@),
{
    let r = write_path_list(dirs);
    proof {
        written_list_reads_back(r@, texts(dirs@));
    }
    r
}

/// A text that starts with a character other than white space is not blank.
proof fn lemma_not_blank(s: Seq<char>)
    requires
        s.len() > 0,
        !is_ws(s[0]),
    ensures
        trim(s).len() > 0,
{
    assert(trim_start(s) == s);
    lemma_trim_end_keeps_first(s);
}

proof fn lemma_trim_end_keeps_first(s: Seq<char>)
    requires
        s.len() > 0,
        !is_ws(s[0]),
    ensures
        trim_end(s).len() > 0,
    decreases s.len(),
{
    if s.len() > 1 && is_ws(s.last()) {
        assert(s.drop_last()[0] == s[0]);
        lemma_trim_end_keeps_first(s.drop_last());
    }
}

/// The waiting area reads back what was written: a text that starts with
/// `[` is not blank, so when it holds the list `written` as JSON, that list
/// is what it stands for.
pub proof fn written_list_reads_back(content: Seq<char>, written: Seq<Seq<char>>)
    requires
        content.len() > 0,
        content[0] == '[',
        json_path_list(content) == Some(written),
    ensures
        pending_spec(content, json_path_list(content)) == written,
{
    lemma_not_blank(content);
}

} // verus!
