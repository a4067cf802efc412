//! The report of the status command: the state of each component repository.

use vstd::prelude::*;
use crate::text::{chars_of, string_of};
use crate::utils::{GitStatusInfo, dir_string_spec, path_to_dir_string};
use crate::order::texts;
use crate::diff::{decimal, decimal_chars};
use crate::styled::{Segment, Style, line_view, lines_view, push_seg, seg};

verus! {

/// A styled line as plain values.
pub type LineView = Seq<(Seq<char>, Style)>;

/// The state of a repository as plain values: branch, clean, changed files, stashes.
pub type StatusView = (Seq<char>, bool, Seq<Seq<char>>, usize);

pub open spec fn status_view(s: GitStatusInfo) -> StatusView {
    (s.branch@, s.is_clean, texts(s.modified_files@), s.stash_count)
}

/// A repository as plain values: its path, and its state or the error met reading it.
pub type RepoView = (Seq<char>, Result<StatusView, Seq<char>>);

pub open spec fn repo_view(r: (String, Result<GitStatusInfo, String>)) -> RepoView {
    (r.0@, match r.1 {
        Ok(s) => Ok(status_view(s)),
        Err(e) => Err(e@),
    })
}

pub open spec fn repo_views(rs: Seq<(String, Result<GitStatusInfo, String>)>) -> Seq<RepoView> {
    rs.map_values(|r: (String, Result<GitStatusInfo, String>)| repo_view(r))
}

/// The heading line of a repository: an empty line, then its name, branch and state.
pub open spec fn heading_spec(name: Seq<char>, s: StatusView) -> LineView {
    seq![("\n"@, Style::Plain), (name, Style::CyanBold), (" ["@, Style::Plain), (s.0, Style::Blue), ("] ("@, Style::Plain),
        if s.1 { ("clean"@, Style::Green) } else { ("modified"@, Style::Red) }, (")"@, Style::Plain)]
}

/// The line with the number of stashes, when there are any.
pub open spec fn stash_spec(s: StatusView) -> Seq<LineView> {
    if s.3 > 0 {
        seq![seq![("  "@, Style::Plain), ("→"@, Style::Yellow), (" "@, Style::Plain), (decimal(s.3 as nat), Style::Plain), (" stashes"@, Style::Plain)]]
    } else {
        Seq::empty()
    }
}

/// The lines that list the changed files, when the work tree is not clean.
pub open spec fn files_spec(s: StatusView) -> Seq<LineView> {
    if !s.1 {
        s.2.map_values(|f: Seq<char>| seq![("  - "@, Style::Plain), (f, Style::Plain)])
    } else {
        Seq::empty()
    }
}

/// The lines for one repository; none for a clean one unless `all`.
pub open spec fn repo_spec(r: RepoView, all: bool) -> Seq<LineView> {
    let name = dir_string_spec(r.0);
    match r.1 {
        Ok(s) => if !all && s.1 {
            Seq::empty()
        } else {
            seq![heading_spec(name, s)] + stash_spec(s) + files_spec(s)
        },
        Err(e) => seq![seq![("Error"@, Style::Red), (" "@, Style::Plain), (name, Style::Plain), (": "@, Style::Plain), (e, Style::Plain)]],
    }
}

/// Whether the repository is shown with its state.
pub open spec fn shown(r: RepoView, all: bool) -> bool {
    r.1 matches Ok(s) && (all || !s.1)
}

/// The lines for the repositories, one after another.
pub open spec fn repos_spec(rs: Seq<RepoView>, all: bool) -> Seq<LineView>
    decreases rs.len(),
{
    if rs.len() == 0 {
        Seq::empty()
    } else {
        repos_spec(rs.drop_last(), all) + repo_spec(rs.last(), all)
    }
}

/// How many repositories are shown with their state.
pub open spec fn shown_count(rs: Seq<RepoView>, all: bool) -> nat
    decreases rs.len(),
{
    if rs.len() == 0 {
        0
    } else {
        shown_count(rs.drop_last(), all) + if shown(rs.last(), all) { 1nat } else { 0nat }
    }
}

/// The report of the status command for the repositories found, each with
/// its state or the error met reading it, ended by an empty line.
pub open spec fn status_report_spec(rs: Seq<RepoView>, all: bool) -> Seq<LineView> {
    if rs.len() == 0 {
        seq![seq![("No git repositories found in originSource."@, Style::Yellow)], Seq::empty()]
    } else {
        repos_spec(rs, all)
            + if shown_count(rs, all) == 0 && !all {
                seq![seq![("\n"@, Style::Plain), ("All repositories are clean. Use --all to show them."@, Style::Green)]]
            } else {
                Seq::empty()
            }
            + seq![Seq::empty()]
    }
}

fn push_empty(out: &mut Vec<Vec<Segment>>)
    ensures
        lines_view(final(out)@) == lines_view(old(out)@).push(Seq::<(Seq<char>, Style)>::empty()),
{
    let e: Vec<Segment> = Vec::new();
    assert(line_view(e@) =~= Seq::<(Seq<char>, Style)>::empty());
    push_line(out, e);
}

fn push_line(out: &mut Vec<Vec<Segment>>, l: Vec<Segment>)
    ensures
        lines_view(final(out)@) == lines_view(old(out)@).push(line_view(l@)),
{
    let ghost before = out@;
    out.push(l);
    assert(lines_view(out@) =~= lines_view(before).push(line_view(l@)));
}

fn repo_lines(r: &(String, Result<GitStatusInfo, String>), all: bool) -> (out: Vec<Vec<Segment>>)
    ensures
        lines_view(out@) == repo_spec(repo_view(*r), all),
{
    let ghost rv = repo_view(*r);
    let name = path_to_dir_string(r.0.as_str());
    let mut out: Vec<Vec<Segment>> = Vec::new();
    assert(lines_view(out@) =~= Seq::<LineView>::empty());
    match &r.1 {
        Ok(s) => {
            if !all && s.is_clean {
                return out;
            }
            let ghost sv = status_view(*s);
            let mut h: Vec<Segment> = Vec::new();
            assert(line_view(h@) =~= Seq::<(Seq<char>, Style)>::empty());
            push_seg(&mut h, seg("\n", Style::Plain));
            push_seg(&mut h, Segment { text: string_of(chars_of(name.as_str()).as_slice()), style: Style::CyanBold });
            push_seg(&mut h, seg(" [", Style::Plain));
            push_seg(&mut h, seg(s.branch.as_str(), Style::Blue));
            push_seg(&mut h, seg("] (", Style::Plain));
            if s.is_clean {
                push_seg(&mut h, seg("clean", Style::Green));
            } else {
                push_seg(&mut h, seg("modified", Style::Red));
            }
            push_seg(&mut h, seg(")", Style::Plain));
            assert(line_view(h@) =~= heading_spec(dir_string_spec(r.0@), sv));
            push_line(&mut out, h);
            if s.stash_count > 0 {
                let mut l: Vec<Segment> = Vec::new();
                assert(line_view(l@) =~= Seq::<(Seq<char>, Style)>::empty());
                push_seg(&mut l, seg("  ", Style::Plain));
                push_seg(&mut l, seg("→", Style::Yellow));
                push_seg(&mut l, seg(" ", Style::Plain));
                let d = decimal_chars(s.stash_count as u128);
                push_seg(&mut l, Segment { text: string_of(d.as_slice()), style: Style::Plain });
                push_seg(&mut l, seg(" stashes", Style::Plain));
                assert(line_view(l@) =~= stash_spec(sv)[0]);
                push_line(&mut out, l);
            }
            let ghost after_stash = lines_view(out@);
            assert(after_stash =~= seq![heading_spec(dir_string_spec(r.0@), sv)] + stash_spec(sv));
            if !s.is_clean {
                let ghost fv = files_spec(sv);
                let mut i: usize = 0;
                while i < s.modified_files.len()
                    invariant
                        i <= s.modified_files.len(),
                        sv == status_view(*s),
                        !sv.1,
                        fv == files_spec(sv),
                        lines_view(out@) == after_stash + fv.take(i as int),
                    decreases s.modified_files.len() - i,
                {
                    let mut l: Vec<Segment> = Vec::new();
                    assert(line_view(l@) =~= Seq::<(Seq<char>, Style)>::empty());
                    push_seg(&mut l, seg("  - ", Style::Plain));
                    push_seg(&mut l, seg(s.modified_files[i].as_str(), Style::Plain));
                    assert(texts(s.modified_files@)[i as int] == s.modified_files@[i as int]@);
                    assert(line_view(l@) =~= fv[i as int]);
                    push_line(&mut out, l);
                    assert(fv.take(i + 1) =~= fv.take(i as int).push(fv[i as int]));
                    i = i + 1;
                }
                assert(fv.take(s.modified_files.len() as int) =~= fv);
            } else {
                assert(files_spec(sv) =~= Seq::<LineView>::empty());
            }
            assert(lines_view(out@) =~= repo_spec(rv, all));
            out
        },
        Err(e) => {
            let mut l: Vec<Segment> = Vec::new();
            assert(line_view(l@) =~= Seq::<(Seq<char>, Style)>::empty());
            push_seg(&mut l, seg("Error", Style::Red));
            push_seg(&mut l, seg(" ", Style::Plain));
            push_seg(&mut l, Segment { text: name, style: Style::Plain });
            push_seg(&mut l, seg(": ", Style::Plain));
            push_seg(&mut l, seg(e.as_str(), Style::Plain));
            assert(line_view(l@) =~= repo_spec(rv, all)[0]);
            push_line(&mut out, l);
            assert(lines_view(out@) =~= repo_spec(rv, all));
            out
        },
    }
}

/// The lines of the status report for `repos`, each a repository path with
/// its state or the error met reading it: every repository with changes,
/// or every one when `all`.
pub fn status_report(repos: &Vec<(String, Result<GitStatusInfo, String>)>, all: bool) -> (r: Vec<Vec<Segment>>)
    ensures
        lines_view(r@) == status_report_spec(repo_views(repos@), all),
{
    let ghost rv = repo_views(repos@);
    let mut out: Vec<Vec<Segment>> = Vec::new();
    assert(lines_view(out@) =~= Seq::<LineView>::empty());
    if repos.len() == 0 {
        push_line(&mut out, crate::styled::line1("No git repositories found in originSource.", Style::Yellow));
        push_empty(&mut out);
        assert(lines_view(out@) =~= status_report_spec(rv, all));
        return out;
    }
    let mut count: usize = 0;
    let mut i: usize = 0;
    while i < repos.len()
        invariant
            i <= repos.len(),
            rv == repo_views(repos@),
            lines_view(out@) == repos_spec(rv.take(i as int), all),
            count == shown_count(rv.take(i as int), all),
            count <= i,
        decreases repos.len() - i,
    {
        let ghost before = lines_view(out@);
        let mut block = repo_lines(&repos[i], all);
        let ghost bv = lines_view(block@);
        let ghost ov = out@;
        let ghost blk = block@;
        out.append(&mut block);
        assert(out@ == ov + blk);
        assert(lines_view(out@) =~= before + bv);
        assert(rv[i as int] == repo_view(repos@[i as int]));
        assert(rv.take(i + 1).drop_last() =~= rv.take(i as int));
        assert(rv.take(i + 1).last() == rv[i as int]);
        let is_shown = match &repos[i].1 {
            Ok(s) => all || !s.is_clean,
            Err(_) => false,
        };
        if is_shown {
            count = count + 1;
        }
        i = i + 1;
    }
    assert(rv.take(repos.len() as int) =~= rv);
    if count == 0 && !all {
        let mut l: Vec<Segment> = Vec::new();
        assert(line_view(l@) =~= Seq::<(Seq<char>, Style)>::empty());
        push_seg(&mut l, seg("\n", Style::Plain));
        push_seg(&mut l, seg("All repositories are clean. Use --all to show them.", Style::Green));
        assert(line_view(l@) =~= seq![("\n"@, Style::Plain), ("All repositories are clean. Use --all to show them."@, Style::Green)]);
        push_line(&mut out, l);
    }
    let ghost mid = lines_view(out@);
    assert(mid =~= repos_spec(rv, all) + if shown_count(rv, all) == 0 && !all {
        seq![seq![("\n"@, Style::Plain), ("All repositories are clean. Use --all to show them."@, Style::Green)]]
    } else {
        Seq::<LineView>::empty()
    });
    push_empty(&mut out);
    assert(lines_view(out@) =~= status_report_spec(rv, all));
    out
}

/// A repository whose work tree is clean is left out of the report unless
/// `--all` is given; one with changes is shown either way; when shown, a
/// repository gets a heading that names it with its branch and state.
pub proof fn clean_repositories_shown_only_with_all(path: Seq<char>, s: StatusView)
    ensures
        s.1 ==> repo_spec((path, Ok(s)), false).len() == 0,
        !s.1 ==> repo_spec((path, Ok(s)), false) == repo_spec((path, Ok(s)), true),
        repo_spec((path, Ok(s)), true)[0] == heading_spec(dir_string_spec(path), s),
{
}

/// A repository that could not be read is reported with its error, with or without `--all`.
pub proof fn unreadable_repositories_always_reported(path: Seq<char>, e: Seq<char>)
    ensures
        repo_spec((path, Err(e)), false) == repo_spec((path, Err(e)), true),
        repo_spec((path, Err(e)), true).len() == 1,
{
}

/// Every repository that the report shows, clean or not, with entries in
/// its stash is followed at once by the line `  → n stashes`.
pub proof fn shown_stashes_always_listed(path: Seq<char>, s: StatusView, all: bool)
    requires
        all || !s.1,
        s.3 > 0,
    ensures
        repo_spec((path, Ok(s)), all).len() >= 2,
        repo_spec((path, Ok(s)), all)[1] == seq![("  "@, Style::Plain), ("→"@, Style::Yellow), (" "@, Style::Plain),
            (decimal(s.3 as nat), Style::Plain), (" stashes"@, Style::Plain)],
{
}

} // verus!
