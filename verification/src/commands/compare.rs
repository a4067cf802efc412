//! Comparing two Bisheng trees: the waiting area, the file-by-file
//! comparison, the summary of component versions and the saved report.

use vstd::prelude::*;
use crate::text::{chars_of, string_of, trim, trim_chars};
use crate::paths::{append_chars, join_slash, parent, parent_spec};
use crate::order::{
    strip_prefix, strip_prefix_spec, comps_equal, concat_strings, has_component, has_component_exec, holds_path, holds_path_exec,
    key_of, keys_of, path_key, same_path, sort_unique, strictly_sorted, texts,
};
use crate::cache::PathCache;
use crate::utils::{first_tag_at, opt_view, tag_views};
use crate::styled::{
    Segment, Style, clone_line, extend_line, line_view, lines_view, plain, plain_lines, plain_lines_text, push_seg, seg, seg_view,
};
use crate::diff::{ChangeView, count_seg, diff_spec, diff_text, generate_diff, line_diff, number_bar, skeletons, total_lines};

verus! {

/// What a component repository has checked out, and whether its work tree is clean.
#[derive(Debug)]
pub enum GitVersion {
    Tag(String, bool),
    Branch(String, bool),
    Commit(String, bool),
}

/// A version as plain values: kind (0 tag, 1 branch, 2 commit), name, clean.
pub open spec fn version_view(v: GitVersion) -> (int, Seq<char>, bool) {
    match v {
        GitVersion::Tag(t, c) => (0, t@, c),
        GitVersion::Branch(b, c) => (1, b@, c),
        GitVersion::Commit(h, c) => (2, h@, c),
    }
}

impl GitVersion {
    /// A copy of this version.
    pub fn duplicate(&self) -> (r: GitVersion)
        ensures
            version_view(r) == version_view(*self),
    {
        match self {
            GitVersion::Tag(t, c) => GitVersion::Tag(t.clone(), *c),
            GitVersion::Branch(b, c) => GitVersion::Branch(b.clone(), *c),
            GitVersion::Commit(h, c) => GitVersion::Commit(h.clone(), *c),
        }
    }
}

/// At most the first `n` characters of `s` (`{:.n}`).
pub open spec fn at_most(s: Seq<char>, n: nat) -> Seq<char> {
    if s.len() <= n {
        s
    } else {
        s.take(n as int)
    }
}

/// `*` after a version whose work tree has changes.
pub open spec fn dirty_mark(clean: bool) -> Seq<char> {
    if clean { Seq::empty() } else { seq!['*'] }
}

/// How a version is written: `Tag: name`, `Branch: name` or `Commit: ` and
/// the first seven characters of the id, each followed by `*` when the work
/// tree has changes.
pub open spec fn version_text(v: (int, Seq<char>, bool)) -> Seq<char> {
    if v.0 == 0 {
        "Tag: "@ + v.1 + dirty_mark(v.2)
    } else if v.0 == 1 {
        "Branch: "@ + v.1 + dirty_mark(v.2)
    } else {
        "Commit: "@ + at_most(v.1, 7) + dirty_mark(v.2)
    }
}

/// How `v` is written in a comparison.
pub fn format_git_version(v: &GitVersion) -> (r: String)
    ensures
        r@ == version_text(version_view(*v)),
{
    let (mut out, name, clean) = match v {
        GitVersion::Tag(t, c) => (chars_of("Tag: "), chars_of(t.as_str()), *c),
        GitVersion::Branch(b, c) => (chars_of("Branch: "), chars_of(b.as_str()), *c),
        GitVersion::Commit(h, c) => {
            let mut n = chars_of(h.as_str());
            if n.len() > 7 {
                n.truncate(7);
            }
            (chars_of("Commit: "), n, *c)
        },
    };
    let ghost vv = version_view(*v);
    assert(name@ == if vv.0 == 2 { at_most(vv.1, 7) } else { vv.1 });
    append_chars(&mut out, name.as_slice());
    if !clean {
        out.push('*');
    }
    assert(out@ =~= version_text(vv));
    string_of(out.as_slice())
}

/// The version of a checkout: on a detached head, the first tag whose
/// commit is the head commit, else the head commit; otherwise the branch.
pub open spec fn git_version_spec(
    detached: bool,
    head_name: Seq<char>,
    head_oid: Seq<char>,
    tag_commits: Seq<(Seq<char>, Option<Seq<char>>)>,
    clean: bool,
) -> (int, Seq<char>, bool) {
    if detached {
        match first_tag_at(tag_commits, Some(head_oid)) {
            Some(t) => (0, t, clean),
            None => (2, head_oid, clean),
        }
    } else {
        (1, head_name, clean)
    }
}

/// The version of a checkout, given whether its head is detached, the
/// head's short name, the head commit id, each tag with the commit it leads
/// to (`None` where that could not be found), and whether it is clean.
pub fn git_version_from(
    detached: bool,
    head_name: String,
    head_oid: String,
    tag_commits: &Vec<(String, Option<String>)>,
    is_clean: bool,
) -> (r: GitVersion)
    ensures
        version_view(r) == git_version_spec(detached, head_name@, head_oid@, tag_views(tag_commits@), is_clean),
{
    if !detached {
        return GitVersion::Branch(head_name, is_clean);
    }
    let ghost tv = tag_views(tag_commits@);
    let ghost hv = Some(head_oid@);
    let mut i: usize = 0;
    assert(tv.skip(0) =~= tv);
    while i < tag_commits.len()
        invariant
            i <= tag_commits.len(),
            tv == tag_views(tag_commits@),
            hv == Some(head_oid@),
            detached,
            first_tag_at(tv, hv) == first_tag_at(tv.skip(i as int), hv),
        decreases tag_commits.len() - i,
    {
        assert(tv.skip(i as int)[0] == tv[i as int]);
        let hit = match &tag_commits[i].1 {
            Some(t) => *t == head_oid,
            None => false,
        };
        assert(tv[i as int] == (tag_commits@[i as int].0@, opt_view(tag_commits@[i as int].1)));
        if hit {
            assert(tv[i as int].1 == hv);
            return GitVersion::Tag(tag_commits[i].0.clone(), is_clean);
        }
        assert(tv.skip(i as int).drop_first() =~= tv.skip(i + 1));
        i = i + 1;
    }
    GitVersion::Commit(head_oid, is_clean)
}

/// Whether two component checkouts count as the same release: both on the
/// same tag, both clean.
pub open spec fn same_release(a: (int, Seq<char>, bool), b: (int, Seq<char>, bool)) -> bool {
    a.0 == 0 && b.0 == 0 && a.1 == b.1 && a.2 && b.2
}

/// Two checkouts count as the same release the same way round in either
/// order; one with uncommitted changes never does; and those that do are
/// two tags of one name.
pub proof fn only_clean_equal_tags_match(a: (int, Seq<char>, bool), b: (int, Seq<char>, bool))
    ensures
        same_release(a, b) == same_release(b, a),
        (!a.2 || !b.2) ==> !same_release(a, b),
        same_release(a, b) ==> a.0 == 0 && b.0 == 0 && a.1 == b.1,
{
}

/// Whether the checkouts `a` and `b` are the same clean tag.
pub fn origin_versions_match(a: &GitVersion, b: &GitVersion) -> (r: bool)
    ensures
        r == same_release(version_view(*a), version_view(*b)),
{
    match (a, b) {
        (GitVersion::Tag(t1, c1), GitVersion::Tag(t2, c2)) => *t1 == *t2 && *c1 && *c2,
        _ => false,
    }
}


/// What has been learned about the component repositories of one tree
/// during a comparison.
pub struct CompareContext {
    /// The version found for each repository root.
    pub git_version_cache: PathCache<GitVersion>,
    /// The repository root found for each path (`None`: not in a repository).
    pub git_root_cache: PathCache<Option<String>>,
}

impl CompareContext {
    /// A context that has learned nothing yet.
    pub fn new() -> (r: Self)
        ensures
            r.git_version_cache.view() == Map::<Seq<Seq<char>>, GitVersion>::empty(),
            r.git_root_cache.view() == Map::<Seq<Seq<char>>, Option<String>>::empty(),
    {
        CompareContext { git_version_cache: PathCache::new(), git_root_cache: PathCache::new() }
    }
}

/// The repository root remembered for `path`, if one was looked up:
/// `Some(None)` when `path` was found to lie in no repository.
pub fn get_cached_git_root(path: &str, ctx: &CompareContext) -> (r: Option<Option<String>>)
    ensures
        r is Some <==> ctx.git_root_cache.view().contains_key(path_key(path@)),
        r matches Some(root) ==> opt_view(root) == opt_view(ctx.git_root_cache.view()[path_key(path@)]),
{
    match ctx.git_root_cache.get(path) {
        Some(Some(root)) => Some(Some(root.clone())),
        Some(None) => Some(None),
        None => None,
    }
}

/// Remembers `root` as the repository root of `path`, and gives it back.
pub fn cache_git_root(path: &str, root: Option<String>, ctx: &mut CompareContext) -> (r: Option<String>)
    ensures
        final(ctx).git_root_cache.view() == old(ctx).git_root_cache.view().insert(path_key(path@), root),
        final(ctx).git_version_cache.view() == old(ctx).git_version_cache.view(),
        opt_view(r) == opt_view(root),
{
    let copy = match &root {
        Some(d) => Some(d.clone()),
        None => None,
    };
    ctx.git_root_cache.insert(path, root);
    copy
}

/// The version remembered for the repository at `repo_path`, if it was read.
pub fn get_cached_git_version(repo_path: &str, ctx: &CompareContext) -> (r: Option<GitVersion>)
    ensures
        r is Some <==> ctx.git_version_cache.view().contains_key(path_key(repo_path@)),
        r matches Some(v) ==> version_view(v) == version_view(ctx.git_version_cache.view()[path_key(repo_path@)]),
{
    match ctx.git_version_cache.get(repo_path) {
        Some(v) => Some(v.duplicate()),
        None => None,
    }
}

/// Remembers `version` as the version of the repository at `repo_path`,
/// and gives it back.
pub fn cache_git_version(repo_path: &str, version: GitVersion, ctx: &mut CompareContext) -> (r: GitVersion)
    ensures
        final(ctx).git_version_cache.view() == old(ctx).git_version_cache.view().insert(path_key(repo_path@), version),
        final(ctx).git_root_cache.view() == old(ctx).git_root_cache.view(),
        version_view(r) == version_view(version),
{
    let copy = version.duplicate();
    ctx.git_version_cache.insert(repo_path, version);
    copy
}

/// A cache that agrees with a search keeps agreeing when it is used as the
/// compare command uses it: given that every remembered root is what the
/// search (`search`, by path) gives, the root served for `path` (the one
/// remembered, or else the one `found` by searching, which is then
/// remembered) is what the search gives, and every entry afterwards still
/// agrees with the search.
pub proof fn cached_roots_agree_with_search(
    cache: Map<Seq<Seq<char>>, Option<String>>,
    path: Seq<char>,
    found: Option<String>,
    search: spec_fn(Seq<Seq<char>>) -> Option<Seq<char>>,
)
    requires
        forall|k: Seq<Seq<char>>| cache.contains_key(k) ==> opt_view(#[trigger] cache[k]) == search(k),
        !cache.contains_key(path_key(path)) ==> opt_view(found) == search(path_key(path)),
    ensures
        opt_view(if cache.contains_key(path_key(path)) { cache[path_key(path)] } else { found }) == search(path_key(path)),
        ({
            let after = if cache.contains_key(path_key(path)) { cache } else { cache.insert(path_key(path), found) };
            forall|k: Seq<Seq<char>>| after.contains_key(k) ==> opt_view(#[trigger] after[k]) == search(k)
        }),
{
}

/// The same for versions, which are remembered only when they could be
/// read: the version served for a repository is what reading it gives, and
/// every remembered version still agrees.
pub proof fn cached_versions_agree_with_reading(
    cache: Map<Seq<Seq<char>>, GitVersion>,
    repo: Seq<char>,
    read: GitVersion,
    reading: spec_fn(Seq<Seq<char>>) -> (int, Seq<char>, bool),
)
    requires
        forall|k: Seq<Seq<char>>| cache.contains_key(k) ==> version_view(#[trigger] cache[k]) == reading(k),
        !cache.contains_key(path_key(repo)) ==> version_view(read) == reading(path_key(repo)),
    ensures
        version_view(if cache.contains_key(path_key(repo)) { cache[path_key(repo)] } else { read }) == reading(path_key(repo)),
        ({
            let after = if cache.contains_key(path_key(repo)) { cache } else { cache.insert(path_key(repo), read) };
            forall|k: Seq<Seq<char>>| after.contains_key(k) ==> version_view(#[trigger] after[k]) == reading(k)
        }),
{
}

/// Where the search for a repository root stands: a directory to look at
/// for a `.git` entry, the root found, or no directory left.
#[derive(Debug)]
pub enum RootProbe {
    Check(String),
    Found(String),
    Exhausted,
}

/// Where the search for the repository root of `path` starts: at `path`
/// itself, or at its parent when `path` is a file.
pub fn git_root_first(path: &str, is_file: bool) -> (r: RootProbe)
    ensures
        !is_file ==> (r matches RootProbe::Check(d) && d@ == path@),
        is_file ==> match parent_spec(path@) {
            Some(p) => (r matches RootProbe::Check(d) && d@ == p),
            None => r is Exhausted,
        },
{
    if is_file {
        match parent(path) {
            Some(p) => RootProbe::Check(p),
            None => RootProbe::Exhausted,
        }
    } else {
        RootProbe::Check(string_of(chars_of(path).as_slice()))
    }
}

/// The step of the search after looking at `curr`: it is the root when it
/// holds a `.git` entry; else the search goes on at its parent, or ends
/// when it has none.
pub fn git_root_step(curr: &str, has_git: bool) -> (r: RootProbe)
    ensures
        has_git ==> (r matches RootProbe::Found(d) && d@ == curr@),
        !has_git ==> match parent_spec(curr@) {
            Some(p) => (r matches RootProbe::Check(d) && d@ == p),
            None => r is Exhausted,
        },
{
    if has_git {
        return RootProbe::Found(string_of(chars_of(curr).as_slice()));
    }
    match parent(curr) {
        Some(p) => RootProbe::Check(p),
        None => RootProbe::Exhausted,
    }
}

/// What to do with a file that one of the two trees holds.
#[derive(Debug, Clone, Copy, PartialEq, Eq, Structural)]
pub enum FileKind {
    /// Only the first tree holds it.
    Deleted,
    /// Only the second tree holds it.
    Added,
    /// Both hold it, inside a component repository under `originSource`.
    OriginSource,
    /// Both hold it: compare the contents.
    Content,
}

/// A file to report on, relative to the roots of the trees.
#[derive(Debug)]
pub struct FileTask {
    pub rel_path: String,
    pub kind: FileKind,
}

/// Whether the path lies under an `originSource` directory.
pub open spec fn is_origin_source_spec(p: Seq<char>) -> bool {
    path_key(p).contains("originSource"@)
}

/// Whether one of the components of `path` is `originSource`.
pub fn is_origin_source(path: &str) -> (r: bool)
    ensures
        r == is_origin_source_spec(path@),
{
    let r = has_component_exec(path, "originSource");
    proof {
        reveal_strlit("originSource");
        let k = path_key(path@);
        let c = crate::paths::components(path@);
        let name = "originSource"@;
        if crate::paths::is_absolute(path@) {
            assert(k == seq![seq!['/']] + c);
            if c.contains(name) {
                let i = choose|i: int| 0 <= i < c.len() && c[i] == name;
                assert(k[i + 1] == name);
            }
            if k.contains(name) {
                let i = choose|i: int| 0 <= i < k.len() && k[i] == name;
                assert(name.len() == 12);
                assert(k[0].len() == 1);
                assert(i != 0);
                assert(c[i - 1] == name);
            }
        }
    }
    r
}

proof fn lemma_kind_of_same_path(a: Seq<Seq<char>>, b: Seq<Seq<char>>, p: Seq<char>, q: Seq<char>, with_origin: bool)
    requires
        path_key(p) == path_key(q),
    ensures
        kind_of(a, b, p, with_origin) == kind_of(a, b, q, with_origin),
{
    if holds_path(a, p) {
        let i = choose|i: int| 0 <= i < a.len() && same_path(#[trigger] a[i], p);
        assert(same_path(a[i], q));
    }
    if holds_path(a, q) {
        let i = choose|i: int| 0 <= i < a.len() && same_path(#[trigger] a[i], q);
        assert(same_path(a[i], p));
    }
    if holds_path(b, p) {
        let i = choose|i: int| 0 <= i < b.len() && same_path(#[trigger] b[i], p);
        assert(same_path(b[i], q));
    }
    if holds_path(b, q) {
        let i = choose|i: int| 0 <= i < b.len() && same_path(#[trigger] b[i], q);
        assert(same_path(b[i], p));
    }
}

/// What to do with a file, from whether each tree holds it and whether it
/// lies under `originSource`; `None` when it is passed over.
pub open spec fn kind_for(in_a: bool, in_b: bool, origin: bool, include_origin_source: bool) -> Option<FileKind> {
    if in_a && !in_b {
        Some(FileKind::Deleted)
    } else if !in_a && in_b {
        Some(FileKind::Added)
    } else if origin {
        if include_origin_source { Some(FileKind::OriginSource) } else { None }
    } else {
        Some(FileKind::Content)
    }
}

/// The kind of the file `p` in a comparison of the listings `a` and `b`.
pub open spec fn kind_of(a: Seq<Seq<char>>, b: Seq<Seq<char>>, p: Seq<char>, include_origin_source: bool) -> Option<FileKind> {
    kind_for(holds_path(a, p), holds_path(b, p), is_origin_source_spec(p), include_origin_source)
}

pub open spec fn task_paths(t: Seq<FileTask>) -> Seq<Seq<char>> {
    t.map_values(|x: FileTask| x.rel_path@)
}

/// The files of the listings `files_a` and `files_b` in path order, each
/// path once, with what to do with each; files that both trees hold under
/// `originSource` are passed over unless `include_origin_source`.
pub fn plan_comparison(files_a: &Vec<String>, files_b: &Vec<String>, include_origin_source: bool) -> (r: Vec<FileTask>)
    ensures
        strictly_sorted(task_paths(r@)),
        forall|i: int| 0 <= i < r.len() ==>
            (texts(files_a@) + texts(files_b@)).contains(#[trigger] task_paths(r@)[i])
            && kind_of(texts(files_a@), texts(files_b@), task_paths(r@)[i], include_origin_source) == Some(r@[i].kind),
        forall|p: Seq<char>| #![trigger (texts(files_a@) + texts(files_b@)).contains(p)]
            (texts(files_a@) + texts(files_b@)).contains(p)
            && kind_of(texts(files_a@), texts(files_b@), p, include_origin_source) is Some
            ==> holds_path(task_paths(r@), p),
{
    let ghost ta = texts(files_a@);
    let ghost tb = texts(files_b@);
    let all = concat_strings(files_a, files_b);
    let union = sort_unique(&all);
    let keys_a = keys_of(files_a);
    let keys_b = keys_of(files_b);
    let mut r: Vec<FileTask> = Vec::new();
    let ghost mut idx: Seq<int> = Seq::empty();
    let mut i: usize = 0;
    while i < union.len()
        invariant
            i <= union.len(),
            ta == texts(files_a@),
            tb == texts(files_b@),
            keys_a.len() == files_a.len(),
            forall|m: int| 0 <= m < files_a.len() ==> (#[trigger] keys_a@[m]).deep_view() == path_key(files_a@[m]@),
            keys_b.len() == files_b.len(),
            forall|m: int| 0 <= m < files_b.len() ==> (#[trigger] keys_b@[m]).deep_view() == path_key(files_b@[m]@),
            idx.len() == r.len(),
            forall|t: int| 0 <= t < idx.len() ==> 0 <= #[trigger] idx[t] < i,
            forall|t: int, u: int| 0 <= t < u < idx.len() ==> #[trigger] idx[t] < #[trigger] idx[u],
            forall|t: int| 0 <= t < idx.len() ==> task_paths(r@)[t] == texts(union@)[#[trigger] idx[t]],
            forall|m: int| 0 <= m < i && kind_of(ta, tb, #[trigger] texts(union@)[m], include_origin_source) is Some
                ==> exists|t: int| 0 <= t < idx.len() && idx[t] == m,
            forall|t: int| 0 <= t < r.len() ==>
                kind_of(ta, tb, #[trigger] task_paths(r@)[t], include_origin_source) == Some(r@[t].kind),
        decreases union.len() - i,
    {
        let p = &union[i];
        let in_a = holds_path_exec(&keys_a, files_a, p.as_str());
        let in_b = holds_path_exec(&keys_b, files_b, p.as_str());
        let origin = is_origin_source(p.as_str());
        let kind = if in_a && !in_b {
            Some(FileKind::Deleted)
        } else if !in_a && in_b {
            Some(FileKind::Added)
        } else if origin {
            if include_origin_source { Some(FileKind::OriginSource) } else { None }
        } else {
            Some(FileKind::Content)
        };
        let ghost pv = texts(union@)[i as int];
        assert(pv == union@[i as int]@);
        assert(kind == kind_of(ta, tb, pv, include_origin_source));
        let ghost old_r = r@;
        let ghost old_idx = idx;
        match kind {
            Some(k) => {
                let rel = p.clone();
                r.push(FileTask { rel_path: rel, kind: k });
                proof {
                    idx = old_idx.push(i as int);
                    assert(task_paths(r@) =~= task_paths(old_r).push(pv));
                    assert forall|m: int| 0 <= m < i + 1 && kind_of(ta, tb, #[trigger] texts(union@)[m], include_origin_source) is Some
                        implies exists|t: int| 0 <= t < idx.len() && idx[t] == m by {
                        if m < i {
                            let t = choose|t: int| 0 <= t < old_idx.len() && old_idx[t] == m;
                            assert(idx[t] == m);
                        } else {
                            assert(idx[old_idx.len() as int] == m);
                        }
                    }
                    assert forall|t: int| 0 <= t < idx.len() implies task_paths(r@)[t] == texts(union@)[#[trigger] idx[t]] by {
                        if t < old_idx.len() {
                            assert(idx[t] == old_idx[t]);
                        }
                    }
                    assert forall|t: int| 0 <= t < r.len() implies
                        kind_of(ta, tb, #[trigger] task_paths(r@)[t], include_origin_source) == Some(r@[t].kind) by {
                        if t < old_r.len() {
                            assert(task_paths(r@)[t] == task_paths(old_r)[t]);
                        }
                    }
                }
            },
            None => {},
        }
        i = i + 1;
    }
    proof {
        let tp = task_paths(r@);
        assert forall|a: int, b: int| 0 <= a < b < tp.len() implies crate::order::path_lt(#[trigger] tp[a], #[trigger] tp[b]) by {
            assert(idx[a] < idx[b]);
        }
        assert forall|t: int| 0 <= t < r.len() implies (ta + tb).contains(#[trigger] task_paths(r@)[t]) by {
            assert(texts(all@).contains(texts(union@)[idx[t]]));
        }
        assert forall|p: Seq<char>| #![trigger (ta + tb).contains(p)]
            (ta + tb).contains(p) && kind_of(ta, tb, p, include_origin_source) is Some
            implies holds_path(tp, p) by {
            let k = choose|k: int| 0 <= k < texts(all@).len() && texts(all@)[k] == p;
            assert(holds_path(texts(union@), texts(all@)[k]));
            let m = choose|m: int| 0 <= m < texts(union@).len() && same_path(#[trigger] texts(union@)[m], p);
            lemma_kind_of_same_path(ta, tb, texts(union@)[m], p, include_origin_source);
            let t = choose|t: int| 0 <= t < idx.len() && idx[t] == m;
            assert(same_path(tp[t], p));
        }
    }
    r
}


/// A styled line as plain values.
pub type LineView = Seq<(Seq<char>, Style)>;

/// The entry for a file that only the first tree holds.
pub open spec fn deleted_spec(rel: Seq<char>) -> LineView {
    seq![("Deleted:"@, Style::Red), (" "@, Style::Plain), (rel, Style::Plain)]
}

/// The entry for a file that only the second tree holds.
pub open spec fn added_spec(rel: Seq<char>) -> LineView {
    seq![("Added:  "@, Style::Green), (" "@, Style::Plain), (rel, Style::Plain)]
}

/// The entry for two binary files of different sizes.
pub open spec fn binary_spec(rel: Seq<char>) -> LineView {
    seq![("M"@, Style::Yellow), (" "@, Style::Plain), (rel, Style::Plain), (" (binary files differ)"@, Style::Plain)]
}

/// The entry for a file under `originSource` whose contents differ.
pub open spec fn origin_spec(rel: Seq<char>, diff: LineView) -> LineView {
    seq![(rel, Style::Yellow), (" (originSource)\n"@, Style::Plain)] + diff
}

/// The entry for a file that only the first tree holds.
pub fn deleted_entry(rel: &str) -> (r: Vec<Segment>)
    ensures
        line_view(r@) == deleted_spec(rel@),
{
    let mut r: Vec<Segment> = Vec::new();
    assert(line_view(r@) =~= Seq::<(Seq<char>, Style)>::empty());
    push_seg(&mut r, seg("Deleted:", Style::Red));
    push_seg(&mut r, seg(" ", Style::Plain));
    push_seg(&mut r, seg(rel, Style::Plain));
    assert(line_view(r@) =~= deleted_spec(rel@));
    r
}

/// The entry for a file that only the second tree holds.
pub fn added_entry(rel: &str) -> (r: Vec<Segment>)
    ensures
        line_view(r@) == added_spec(rel@),
{
    let mut r: Vec<Segment> = Vec::new();
    assert(line_view(r@) =~= Seq::<(Seq<char>, Style)>::empty());
    push_seg(&mut r, seg("Added:  ", Style::Green));
    push_seg(&mut r, seg(" ", Style::Plain));
    push_seg(&mut r, seg(rel, Style::Plain));
    assert(line_view(r@) =~= added_spec(rel@));
    r
}

/// Whether the first bytes read from a file mark it binary: they hold a
/// zero byte.
pub fn is_binary_prefix(head: &[u8]) -> (r: bool)
    ensures
        r == head@.contains(0u8),
{
    let mut i: usize = 0;
    while i < head.len()
        invariant
            i <= head.len(),
            forall|j: int| 0 <= j < i ==> head@[j] != 0u8,
        decreases head.len() - i,
    {
        if head[i] == 0 {
            assert(head@[i as int] == 0u8);
            return true;
        }
        i = i + 1;
    }
    false
}

/// The entry for two binary files: one only when their sizes differ.
pub fn binary_entry(rel: &str, len_a: u64, len_b: u64) -> (r: Option<Vec<Segment>>)
    ensures
        len_a == len_b ==> r is None,
        len_a != len_b ==> (r matches Some(l) && line_view(l@) == binary_spec(rel@)),
{
    if len_a == len_b {
        return None;
    }
    let mut r: Vec<Segment> = Vec::new();
    assert(line_view(r@) =~= Seq::<(Seq<char>, Style)>::empty());
    push_seg(&mut r, seg("M", Style::Yellow));
    push_seg(&mut r, seg(" ", Style::Plain));
    push_seg(&mut r, seg(rel, Style::Plain));
    push_seg(&mut r, seg(" (binary files differ)", Style::Plain));
    assert(line_view(r@) =~= binary_spec(rel@));
    Some(r)
}

/// The entry for two text files: their diff, only when their contents differ.
pub fn content_entry(content_a: &String, content_b: &String, rel: &str, context: usize) -> (r: Option<Vec<Segment>>)
    requires
        content_a@ != content_b@ ==> context <= usize::MAX / 2,
    ensures
        content_a@ == content_b@ ==> r is None,
        content_a@ != content_b@ ==> (r matches Some(l)
            && plain(line_view(l@)) == diff_text(rel@, line_diff(content_a@, content_b@, context))
            && count_seg(line_view(l@), number_bar()) == total_lines(line_diff(content_a@, content_b@, context))
            && exists|gs: Seq<Seq<ChangeView>>| line_view(l@) == diff_spec(rel@, gs)
                && skeletons(gs) == line_diff(content_a@, content_b@, context)),
{
    if *content_a == *content_b {
        None
    } else {
        Some(generate_diff(content_a.as_str(), content_b.as_str(), rel, context))
    }
}

/// The diff of a file under `originSource`: none when both component
/// checkouts are the same clean tag or the contents agree, else the diff of
/// the contents shown under the file's name.
pub fn origin_file_diff(
    same_tag: bool,
    content_a: &String,
    content_b: &String,
    file_name: &str,
    context: usize,
) -> (r: Option<Vec<Segment>>)
    requires
        (!same_tag && content_a@ != content_b@) ==> context <= usize::MAX / 2,
    ensures
        (same_tag || content_a@ == content_b@) ==> r is None,
        (!same_tag && content_a@ != content_b@) ==> (r matches Some(l)
            && plain(line_view(l@)) == diff_text(file_name@, line_diff(content_a@, content_b@, context))
            && count_seg(line_view(l@), number_bar()) == total_lines(line_diff(content_a@, content_b@, context))
            && exists|gs: Seq<Seq<ChangeView>>| line_view(l@) == diff_spec(file_name@, gs)
                && skeletons(gs) == line_diff(content_a@, content_b@, context)),
{
    if same_tag {
        return None;
    }
    content_entry(content_a, content_b, file_name, context)
}

/// What the comparison of one file needs next, or the entry it gives.
#[derive(Debug)]
pub enum FileStep {
    /// The entry for the file, or none when nothing differs.
    Done(Option<Vec<Segment>>),
    /// Whether the file in the first tree is binary (from its first bytes).
    ReadHeadA,
    /// Whether the file in the second tree is binary.
    ReadHeadB,
    /// The sizes of the two files, which are compared as binary files.
    ReadSizes,
    /// The contents of the two files, which are compared as text.
    ReadTexts,
    /// The comparison of a file inside a component repository.
    CompareOrigin,
}

/// The first step for a file of kind `kind`: a file that one tree alone
/// holds is reported at once; a file in a component repository goes to the
/// component comparison; any other file is first tested for being binary,
/// in the first tree.
pub fn first_step(kind: FileKind, rel: &str) -> (r: FileStep)
    ensures
        kind == FileKind::Deleted ==> (r matches FileStep::Done(Some(l)) && line_view(l@) == deleted_spec(rel@)),
        kind == FileKind::Added ==> (r matches FileStep::Done(Some(l)) && line_view(l@) == added_spec(rel@)),
        kind == FileKind::OriginSource ==> r is CompareOrigin,
        kind == FileKind::Content ==> r is ReadHeadA,
{
    match kind {
        FileKind::Deleted => FileStep::Done(Some(deleted_entry(rel))),
        FileKind::Added => FileStep::Done(Some(added_entry(rel))),
        FileKind::OriginSource => FileStep::CompareOrigin,
        FileKind::Content => FileStep::ReadHeadA,
    }
}

/// The step after testing one file for being binary (`of_first`: the file
/// in the first tree): two files of which either is binary are compared by
/// size; the second file is tested only when the first is not binary; two
/// text files are compared by content.
pub fn head_step(of_first: bool, binary: bool) -> (r: FileStep)
    ensures
        binary ==> r is ReadSizes,
        !binary && of_first ==> r is ReadHeadB,
        !binary && !of_first ==> r is ReadTexts,
{
    if binary {
        FileStep::ReadSizes
    } else if of_first {
        FileStep::ReadHeadB
    } else {
        FileStep::ReadTexts
    }
}

/// The entry for a file under `originSource` with the diff `diff`.
pub fn origin_entry(rel: &str, diff: Vec<Segment>) -> (r: Vec<Segment>)
    ensures
        line_view(r@) == origin_spec(rel@, line_view(diff@)),
{
    let mut r: Vec<Segment> = Vec::new();
    assert(line_view(r@) =~= Seq::<(Seq<char>, Style)>::empty());
    push_seg(&mut r, seg(rel, Style::Yellow));
    push_seg(&mut r, seg(" (originSource)\n", Style::Plain));
    let ghost dv = line_view(diff@);
    extend_line(&mut r, diff);
    assert(line_view(r@) =~= origin_spec(rel@, dv));
    r
}


/// The directory a relative file path lies in: its parent, or the empty path.
pub open spec fn rel_parent(p: Seq<char>) -> Seq<char> {
    match parent_spec(p) {
        Some(d) => d,
        None => Seq::empty(),
    }
}

/// The directory a relative file path lies in.
pub fn rel_parent_exec(p: &str) -> (r: String)
    ensures
        r@ == rel_parent(p@),
{
    match parent(p) {
        Some(d) => d,
        None => String::new(),
    }
}

/// An entry: the relative path of a file and the line that reports it.
pub type EntryView = (Seq<char>, LineView);

pub open spec fn entry_views(es: Seq<(String, Vec<Segment>)>) -> Seq<EntryView> {
    es.map_values(|e: (String, Vec<Segment>)| (e.0@, line_view(e.1@)))
}

/// The lines of the entries for files in directory `d`, in their order.
pub open spec fn entries_in(es: Seq<EntryView>, d: Seq<char>) -> Seq<LineView>
    decreases es.len(),
{
    if es.len() == 0 {
        Seq::empty()
    } else {
        entries_in(es.drop_last(), d)
            + if same_path(rel_parent(es.last().0), d) { seq![es.last().1] } else { Seq::empty() }
    }
}

/// The heading of the entries of directory `d`.
pub open spec fn dir_heading(d: Seq<char>) -> LineView {
    seq![("Directory: "@ + d, Style::BlueBold)]
}

/// For each directory of `dirs`: its heading, its entries, an empty line.
pub open spec fn dir_blocks(dirs: Seq<Seq<char>>, es: Seq<EntryView>) -> Seq<LineView>
    decreases dirs.len(),
{
    if dirs.len() == 0 {
        Seq::empty()
    } else {
        dir_blocks(dirs.drop_last(), es) + seq![dir_heading(dirs.last())] + entries_in(es, dirs.last())
            + seq![Seq::<(Seq<char>, Style)>::empty()]
    }
}

/// The line that says that nothing differs.
pub open spec fn no_differences() -> LineView {
    seq![("No differences found."@, Style::Green)]
}

/// Whether `dirs` is the list of directories the entries lie in, in path order.
pub open spec fn dirs_of(dirs: Seq<Seq<char>>, es: Seq<EntryView>) -> bool {
    &&& strictly_sorted(dirs)
    &&& forall|i: int| 0 <= i < dirs.len() ==> entry_dirs(es).contains(#[trigger] dirs[i])
    &&& forall|k: int| 0 <= k < es.len() ==> holds_path(dirs, #[trigger] entry_dirs(es)[k])
}

/// The directory of each entry.
pub open spec fn entry_dirs(es: Seq<EntryView>) -> Seq<Seq<char>> {
    es.map_values(|e: EntryView| rel_parent(e.0))
}

/// The lines for directory `d`: its heading, its entries, an empty line.
fn dir_block(entries: &Vec<(String, Vec<Segment>)>, parent_keys: &Vec<Vec<Vec<char>>>, d: &String) -> (r: Vec<Vec<Segment>>)
    requires
        parent_keys.len() == entries.len(),
        forall|m: int| 0 <= m < entries.len() ==>
            (#[trigger] parent_keys@[m]).deep_view() == path_key(rel_parent(entry_views(entries@)[m].0)),
    ensures
        lines_view(r@) == seq![dir_heading(d@)] + entries_in(entry_views(entries@), d@) + seq![Seq::<(Seq<char>, Style)>::empty()],
{
    let ghost ev = entry_views(entries@);
    let dkey = key_of(d.as_str());
    let mut head: Vec<Segment> = Vec::new();
    let mut htext = chars_of("Directory: ");
    let dchars = chars_of(d.as_str());
    append_chars(&mut htext, dchars.as_slice());
    assert(line_view(head@) =~= Seq::<(Seq<char>, Style)>::empty());
    push_seg(&mut head, Segment { text: string_of(htext.as_slice()), style: Style::BlueBold });
    assert(line_view(head@) =~= dir_heading(d@));
    let mut r: Vec<Vec<Segment>> = Vec::new();
    r.push(head);
    assert(lines_view(r@) =~= seq![dir_heading(d@)]);
    let mut k: usize = 0;
    assert(entries_in(ev.take(0), d@) =~= Seq::<LineView>::empty());
    while k < entries.len()
        invariant
            k <= entries.len(),
            ev == entry_views(entries@),
            dkey.deep_view() == path_key(d@),
            parent_keys.len() == entries.len(),
            forall|m: int| 0 <= m < entries.len() ==>
                (#[trigger] parent_keys@[m]).deep_view() == path_key(rel_parent(ev[m].0)),
            lines_view(r@) == seq![dir_heading(d@)] + entries_in(ev.take(k as int), d@),
        decreases entries.len() - k,
    {
        let ghost before_k = lines_view(r@);
        assert(ev.take(k + 1).drop_last() =~= ev.take(k as int));
        assert(ev.take(k + 1).last() == ev[k as int]);
        if comps_equal(&parent_keys[k], &dkey) {
            let l = clone_line(&entries[k].1);
            r.push(l);
            assert(lines_view(r@) =~= before_k.push(ev[k as int].1));
        }
        assert(lines_view(r@) =~= seq![dir_heading(d@)] + entries_in(ev.take(k + 1), d@));
        k = k + 1;
    }
    assert(ev.take(entries.len() as int) =~= ev);
    let ghost before_blank = lines_view(r@);
    r.push(Vec::new());
    assert(lines_view(r@) =~= before_blank.push(Seq::<(Seq<char>, Style)>::empty()));
    r
}

proof fn lemma_dirs_of(parents: Seq<Seq<char>>, dv: Seq<Seq<char>>, ev: Seq<EntryView>)
    requires
        parents.len() == ev.len(),
        forall|k: int| 0 <= k < parents.len() ==> #[trigger] parents[k] == rel_parent(ev[k].0),
        strictly_sorted(dv),
        forall|i: int| 0 <= i < dv.len() ==> parents.contains(#[trigger] dv[i]),
        forall|k: int| 0 <= k < parents.len() ==> holds_path(dv, #[trigger] parents[k]),
    ensures
        dirs_of(dv, ev),
{
    assert(parents =~= entry_dirs(ev));
}

/// The report of the differences: the entries grouped by directory, the
/// directories in path order, each group under its heading and followed by
/// an empty line; or a line that says that nothing differs.
#[verifier::spinoff_prover]
#[verifier::rlimit(50)]
pub fn assemble_differences(entries: &Vec<(String, Vec<Segment>)>) -> (r: Vec<Vec<Segment>>)
    ensures
        entries.len() == 0 ==> lines_view(r@) == seq![no_differences()],
        entries.len() > 0 ==> exists|dirs: Seq<Seq<char>>|
            dirs_of(dirs, entry_views(entries@)) && lines_view(r@) == dir_blocks(dirs, entry_views(entries@)),
{
    let ghost ev = entry_views(entries@);
    if entries.len() == 0 {
        let mut r: Vec<Vec<Segment>> = Vec::new();
        let l = crate::styled::line1("No differences found.", Style::Green);
        r.push(l);
        assert(lines_view(r@) =~= seq![no_differences()]);
        return r;
    }
    let mut parents: Vec<String> = Vec::new();
    let mut i: usize = 0;
    while i < entries.len()
        invariant
            i <= entries.len(),
            ev == entry_views(entries@),
            parents.len() == i,
            forall|k: int| 0 <= k < i ==> (#[trigger] parents@[k])@ == rel_parent(ev[k].0),
        decreases entries.len() - i,
    {
        parents.push(rel_parent_exec(entries[i].0.as_str()));
        i = i + 1;
    }
    let parent_keys = keys_of(&parents);
    let dirs = sort_unique(&parents);
    let ghost dv = texts(dirs@);
    proof {
        assert forall|m: int| 0 <= m < entries.len() implies
            (#[trigger] parent_keys@[m]).deep_view() == path_key(rel_parent(ev[m].0)) by {
            assert(parents@[m]@ == rel_parent(ev[m].0));
        }
        let tp = texts(parents@);
        assert forall|k: int| 0 <= k < tp.len() implies #[trigger] tp[k] == rel_parent(ev[k].0) by {
            assert(parents@[k]@ == rel_parent(ev[k].0));
        }
        lemma_dirs_of(tp, dv, ev);
    }
    let mut r: Vec<Vec<Segment>> = Vec::new();
    let mut j: usize = 0;
    assert(lines_view(r@) =~= dir_blocks(dv.take(0), ev));
    while j < dirs.len()
        invariant
            j <= dirs.len(),
            ev == entry_views(entries@),
            dv == texts(dirs@),
            parent_keys.len() == entries.len(),
            forall|m: int| 0 <= m < entries.len() ==>
                (#[trigger] parent_keys@[m]).deep_view() == path_key(rel_parent(ev[m].0)),
            lines_view(r@) == dir_blocks(dv.take(j as int), ev),
        decreases dirs.len() - j,
    {
        let ghost before = lines_view(r@);
        let mut block = dir_block(entries, &parent_keys, &dirs[j]);
        let ghost bv = lines_view(block@);
        let ghost rv = r@;
        let ghost blk = block@;
        r.append(&mut block);
        assert(r@ == rv + blk);
        assert(lines_view(r@) =~= before + bv);
        assert(dv[j as int] == dirs@[j as int]@);
        assert(dv.take(j + 1).drop_last() =~= dv.take(j as int));
        assert(lines_view(r@) =~= dir_blocks(dv.take(j + 1), ev));
        j = j + 1;
    }
    assert(dv.take(dirs.len() as int) =~= dv);
    r
}

/// The text of the report of the differences: the message alone when
/// nothing differs, else every line followed by a newline.
pub fn differences_text(lines: &Vec<Vec<Segment>>, nothing_differs: bool) -> (r: String)
    ensures
        nothing_differs ==> r@ == "No differences found."@,
        !nothing_differs ==> r@ == plain_lines(lines_view(lines@)),
{
    if nothing_differs {
        String::from_str("No differences found.")
    } else {
        plain_lines_text(lines)
    }
}


/// A version as plain values.
pub type VersionView = (int, Seq<char>, bool);

pub open spec fn repo_views(rs: Seq<(String, GitVersion)>) -> Seq<(Seq<char>, VersionView)> {
    rs.map_values(|r: (String, GitVersion)| (r.0@, version_view(r.1)))
}

/// The version listed for the repository at `p`: the first entry for that path.
pub open spec fn version_at(rs: Seq<(Seq<char>, VersionView)>, p: Seq<char>) -> Option<VersionView>
    decreases rs.len(),
{
    if rs.len() == 0 {
        None
    } else if same_path(rs[0].0, p) {
        Some(rs[0].1)
    } else {
        version_at(rs.drop_first(), p)
    }
}

/// The line for the repository `p`, if its versions in the two trees differ.
pub open spec fn repo_line(p: Seq<char>, a: Option<VersionView>, b: Option<VersionView>) -> Option<LineView> {
    match (a, b) {
        (Some(va), Some(vb)) => if version_text(va) != version_text(vb) {
            Some(seq![(p, Style::Plain), (": "@, Style::Plain), (version_text(va), Style::Red), (" vs "@, Style::Plain), (version_text(vb), Style::Green)])
        } else {
            None
        },
        (Some(_), None) => Some(seq![(p, Style::Plain), (": "@, Style::Plain), ("Missing"@, Style::Red), (" (only in A)"@, Style::Plain)]),
        (None, Some(_)) => Some(seq![(p, Style::Plain), (": "@, Style::Plain), ("Missing"@, Style::Green), (" (only in B)"@, Style::Plain)]),
        (None, None) => None,
    }
}

proof fn lemma_texts_apart(p: Seq<char>, n1: Seq<char>, n2: Seq<char>, m1: Seq<char>, m2: Seq<char>)
    requires
        p + n1 + m1 == p + n2 + m2,
        n1 == n2 || m1 == m2,
    ensures
        n1 == n2 && m1 == m2,
{
    let t = p + n1 + m1;
    if n1 == n2 {
        assert(m1 =~= t.subrange((p.len() + n1.len()) as int, t.len() as int));
        assert(m2 =~= (p + n2 + m2).subrange((p.len() + n2.len()) as int, t.len() as int));
    } else {
        assert(n1.len() == n2.len());
        assert(n1 =~= t.subrange(p.len() as int, (p.len() + n1.len()) as int));
        assert(n2 =~= (p + n2 + m2).subrange(p.len() as int, (p.len() + n2.len()) as int));
    }
}

/// A repository that both trees hold gets a line when its checkouts differ
/// in kind (tag, branch, commit), in name (a tag or branch), or in whether
/// the work tree is clean (a clean and a changed checkout of one version
/// always give a line), and none when they are the same; one that only one
/// tree holds always gets a line.
pub proof fn differing_versions_listed(p: Seq<char>, va: VersionView, vb: VersionView)
    requires
        0 <= va.0 <= 2,
        0 <= vb.0 <= 2,
    ensures
        va == vb ==> repo_line(p, Some(va), Some(vb)) is None,
        va.0 == vb.0 && va.1 == vb.1 && va.2 != vb.2 ==> repo_line(p, Some(va), Some(vb)) is Some,
        va.0 != vb.0 ==> repo_line(p, Some(va), Some(vb)) is Some,
        va.0 == vb.0 && va.0 != 2 && va.1 != vb.1 && va.2 == vb.2 ==> repo_line(p, Some(va), Some(vb)) is Some,
        repo_line(p, Some(va), None) is Some,
        repo_line(p, None, Some(vb)) is Some,
{
    reveal_strlit("Tag: ");
    reveal_strlit("Branch: ");
    reveal_strlit("Commit: ");
    let ta = version_text(va);
    let tb = version_text(vb);
    if va.0 != vb.0 && ta == tb {
        assert(ta[0] == tb[0]);
        assert(false);
    }
    if va.0 == vb.0 && va.1 == vb.1 && va.2 != vb.2 && ta == tb {
        let pre: Seq<char> = if va.0 == 0 { "Tag: "@ } else if va.0 == 1 { "Branch: "@ } else { "Commit: "@ };
        let n: Seq<char> = if va.0 == 2 { at_most(va.1, 7) } else { va.1 };
        assert(ta == pre + n + dirty_mark(va.2));
        assert(tb == pre + n + dirty_mark(vb.2));
        lemma_texts_apart(pre, n, n, dirty_mark(va.2), dirty_mark(vb.2));
        assert(dirty_mark(va.2) != dirty_mark(vb.2)) by {
            assert(dirty_mark(va.2).len() != dirty_mark(vb.2).len());
        }
    }
    if va.0 == vb.0 && va.0 != 2 && va.1 != vb.1 && va.2 == vb.2 && ta == tb {
        let pre: Seq<char> = if va.0 == 0 { "Tag: "@ } else { "Branch: "@ };
        assert(ta == pre + va.1 + dirty_mark(va.2));
        assert(tb == pre + vb.1 + dirty_mark(vb.2));
        lemma_texts_apart(pre, va.1, vb.1, dirty_mark(va.2), dirty_mark(vb.2));
    }
}

/// The lines for the repositories `keys`, in order.
pub open spec fn repo_lines(keys: Seq<Seq<char>>, ra: Seq<(Seq<char>, VersionView)>, rb: Seq<(Seq<char>, VersionView)>) -> Seq<LineView>
    decreases keys.len(),
{
    if keys.len() == 0 {
        Seq::empty()
    } else {
        repo_lines(keys.drop_last(), ra, rb) + match repo_line(keys.last(), version_at(ra, keys.last()), version_at(rb, keys.last())) {
            Some(l) => seq![l],
            None => Seq::empty(),
        }
    }
}

/// The heading of the summary of component versions.
pub open spec fn summary_title() -> LineView {
    seq![("\n--- originSource Version Comparison ---"@, Style::BlueBold)]
}

/// The line that says that every component has the same version in both trees.
pub open spec fn all_match() -> LineView {
    seq![("All originSource repositories match."@, Style::Green)]
}

/// The summary for the repositories `keys`: the heading, a line per
/// repository whose versions differ, or the line that all match.
pub open spec fn summary_spec(keys: Seq<Seq<char>>, ra: Seq<(Seq<char>, VersionView)>, rb: Seq<(Seq<char>, VersionView)>) -> Seq<LineView> {
    seq![summary_title()] + repo_lines(keys, ra, rb) + if repo_lines(keys, ra, rb).len() == 0 { seq![all_match()] } else { Seq::empty() }
}

/// The names of the repositories of a listing.
pub open spec fn repo_names(rs: Seq<(Seq<char>, VersionView)>) -> Seq<Seq<char>> {
    rs.map_values(|r: (Seq<char>, VersionView)| r.0)
}

/// Whether `keys` lists each repository of either tree once, in path order.
pub open spec fn union_keys(keys: Seq<Seq<char>>, ra: Seq<(Seq<char>, VersionView)>, rb: Seq<(Seq<char>, VersionView)>) -> bool {
    &&& strictly_sorted(keys)
    &&& forall|i: int| 0 <= i < keys.len() ==> (repo_names(ra) + repo_names(rb)).contains(#[trigger] keys[i])
    &&& forall|k: int| 0 <= k < (repo_names(ra) + repo_names(rb)).len() ==> holds_path(keys, #[trigger] (repo_names(ra) + repo_names(rb))[k])
}

/// The index of the first entry of `rs` for the repository `p`.
fn find_repo(keys: &Vec<Vec<Vec<char>>>, rs: &Vec<(String, GitVersion)>, p: &str) -> (r: Option<usize>)
    requires
        keys.len() == rs.len(),
        forall|i: int| 0 <= i < rs.len() ==> (#[trigger] keys@[i]).deep_view() == path_key(rs@[i].0@),
    ensures
        r matches Some(i) ==> i < rs.len() && version_at(repo_views(rs@), p@) == Some(version_view(rs@[i as int].1)),
        r is None ==> version_at(repo_views(rs@), p@) is None,
{
    let k = key_of(p);
    let ghost rv = repo_views(rs@);
    let mut i: usize = 0;
    assert(rv.skip(0) =~= rv);
    while i < rs.len()
        invariant
            i <= rs.len(),
            keys.len() == rs.len(),
            forall|m: int| 0 <= m < rs.len() ==> (#[trigger] keys@[m]).deep_view() == path_key(rs@[m].0@),
            rv == repo_views(rs@),
            k.deep_view() == path_key(p@),
            version_at(rv, p@) == version_at(rv.skip(i as int), p@),
        decreases rs.len() - i,
    {
        assert(rv.skip(i as int)[0] == rv[i as int]);
        assert(rv.skip(i as int).drop_first() =~= rv.skip(i + 1));
        if comps_equal(&keys[i], &k) {
            return Some(i);
        }
        i = i + 1;
    }
    None
}

/// The keys of the repository names of a listing.
fn repo_keys(rs: &Vec<(String, GitVersion)>) -> (r: (Vec<String>, Vec<Vec<Vec<char>>>))
    ensures
        texts(r.0@) == repo_names(repo_views(rs@)),
        r.1.len() == rs.len(),
        forall|i: int| 0 <= i < rs.len() ==> (#[trigger] r.1@[i]).deep_view() == path_key(rs@[i].0@),
{
    let mut names: Vec<String> = Vec::new();
    let mut i: usize = 0;
    while i < rs.len()
        invariant
            i <= rs.len(),
            texts(names@) == repo_names(repo_views(rs@)).take(i as int),
        decreases rs.len() - i,
    {
        let ghost before = names@;
        let n = rs[i].0.clone();
        names.push(n);
        assert(texts(names@) =~= texts(before).push(rs@[i as int].0@));
        assert(repo_names(repo_views(rs@)).take(i + 1) =~= repo_names(repo_views(rs@)).take(i as int).push(rs@[i as int].0@));
        i = i + 1;
    }
    assert(repo_names(repo_views(rs@)).take(rs.len() as int) =~= repo_names(repo_views(rs@)));
    let keys = keys_of(&names);
    proof {
        assert forall|i: int| 0 <= i < rs.len() implies (#[trigger] keys@[i]).deep_view() == path_key(rs@[i].0@) by {
            assert(texts(names@)[i] == names@[i]@);
            assert(repo_names(repo_views(rs@))[i] == rs@[i].0@);
        }
    }
    (names, keys)
}

/// The line for repository `p` given its versions in both trees.
fn repo_line_exec(p: &str, a: Option<&GitVersion>, b: Option<&GitVersion>) -> (r: Option<Vec<Segment>>)
    ensures
        match r {
            Some(l) => repo_line(p@, match a { Some(v) => Some(version_view(*v)), None => None },
                match b { Some(v) => Some(version_view(*v)), None => None }) == Some(line_view(l@)),
            None => repo_line(p@, match a { Some(v) => Some(version_view(*v)), None => None },
                match b { Some(v) => Some(version_view(*v)), None => None }) is None,
        },
{
    let mut l: Vec<Segment> = Vec::new();
    assert(line_view(l@) =~= Seq::<(Seq<char>, Style)>::empty());
    match (a, b) {
        (Some(va), Some(vb)) => {
            let sa = format_git_version(va);
            let sb = format_git_version(vb);
            if sa == sb {
                return None;
            }
            push_seg(&mut l, seg(p, Style::Plain));
            push_seg(&mut l, seg(": ", Style::Plain));
            push_seg(&mut l, Segment { text: sa, style: Style::Red });
            push_seg(&mut l, seg(" vs ", Style::Plain));
            push_seg(&mut l, Segment { text: sb, style: Style::Green });
        },
        (Some(_), None) => {
            push_seg(&mut l, seg(p, Style::Plain));
            push_seg(&mut l, seg(": ", Style::Plain));
            push_seg(&mut l, seg("Missing", Style::Red));
            push_seg(&mut l, seg(" (only in A)", Style::Plain));
        },
        (None, Some(_)) => {
            push_seg(&mut l, seg(p, Style::Plain));
            push_seg(&mut l, seg(": ", Style::Plain));
            push_seg(&mut l, seg("Missing", Style::Green));
            push_seg(&mut l, seg(" (only in B)", Style::Plain));
        },
        (None, None) => {
            return None;
        },
    }
    Some(l)
}

/// The line for repository `p`, looked up in both listings.
fn line_for_repo(
    p: &str,
    keys_a: &Vec<Vec<Vec<char>>>,
    repos_a: &Vec<(String, GitVersion)>,
    keys_b: &Vec<Vec<Vec<char>>>,
    repos_b: &Vec<(String, GitVersion)>,
) -> (r: Option<Vec<Segment>>)
    requires
        keys_a.len() == repos_a.len(),
        forall|m: int| 0 <= m < repos_a.len() ==> (#[trigger] keys_a@[m]).deep_view() == path_key(repos_a@[m].0@),
        keys_b.len() == repos_b.len(),
        forall|m: int| 0 <= m < repos_b.len() ==> (#[trigger] keys_b@[m]).deep_view() == path_key(repos_b@[m].0@),
    ensures
        match r {
            Some(l) => repo_line(p@, version_at(repo_views(repos_a@), p@), version_at(repo_views(repos_b@), p@)) == Some(line_view(l@)),
            None => repo_line(p@, version_at(repo_views(repos_a@), p@), version_at(repo_views(repos_b@), p@)) is None,
        },
{
    let fa = find_repo(keys_a, repos_a, p);
    let fb = find_repo(keys_b, repos_b, p);
    let va = match fa { Some(x) => Some(&repos_a[x].1), None => None };
    let vb = match fb { Some(x) => Some(&repos_b[x].1), None => None };
    repo_line_exec(p, va, vb)
}

/// The summary of component versions, given the repositories found under
/// `originSource` in each tree (relative path and version): a heading, a
/// line for each repository whose version differs or that only one tree
/// has, in path order, or else a line that all match.
#[verifier::spinoff_prover]
#[verifier::rlimit(50)]
pub fn origin_summary(repos_a: &Vec<(String, GitVersion)>, repos_b: &Vec<(String, GitVersion)>) -> (r: Vec<Vec<Segment>>)
    ensures
        exists|keys: Seq<Seq<char>>|
            union_keys(keys, repo_views(repos_a@), repo_views(repos_b@))
            && lines_view(r@) == summary_spec(keys, repo_views(repos_a@), repo_views(repos_b@)),
{
    let ghost ra = repo_views(repos_a@);
    let ghost rb = repo_views(repos_b@);
    let (names_a, keys_a) = repo_keys(repos_a);
    let (names_b, keys_b) = repo_keys(repos_b);
    let all = concat_strings(&names_a, &names_b);
    let keys = sort_unique(&all);
    let ghost kv = texts(keys@);
    proof {
        assert(texts(all@) == repo_names(ra) + repo_names(rb));
        assert(union_keys(kv, ra, rb));
    }
    let mut r: Vec<Vec<Segment>> = Vec::new();
    r.push(crate::styled::line1("\n--- originSource Version Comparison ---", Style::BlueBold));
    assert(lines_view(r@) =~= seq![summary_title()]);
    let mut any = false;
    let mut i: usize = 0;
    assert(repo_lines(kv.take(0), ra, rb) =~= Seq::<LineView>::empty());
    while i < keys.len()
        invariant
            i <= keys.len(),
            kv == texts(keys@),
            ra == repo_views(repos_a@),
            rb == repo_views(repos_b@),
            keys_a.len() == repos_a.len(),
            forall|m: int| 0 <= m < repos_a.len() ==> (#[trigger] keys_a@[m]).deep_view() == path_key(repos_a@[m].0@),
            keys_b.len() == repos_b.len(),
            forall|m: int| 0 <= m < repos_b.len() ==> (#[trigger] keys_b@[m]).deep_view() == path_key(repos_b@[m].0@),
            lines_view(r@) == seq![summary_title()] + repo_lines(kv.take(i as int), ra, rb),
            any == (repo_lines(kv.take(i as int), ra, rb).len() > 0),
        decreases keys.len() - i,
    {
        let p = keys[i].as_str();
        assert(kv[i as int] == p@);
        let line = line_for_repo(p, &keys_a, repos_a, &keys_b, repos_b);
        assert(kv.take(i + 1).drop_last() =~= kv.take(i as int));
        assert(kv.take(i + 1).last() == p@);
        match line {
            Some(l) => {
                let ghost before = lines_view(r@);
                let ghost lv = line_view(l@);
                r.push(l);
                assert(lines_view(r@) =~= before.push(lv));
                any = true;
            },
            None => {},
        }
        assert(lines_view(r@) =~= seq![summary_title()] + repo_lines(kv.take(i + 1), ra, rb));
        i = i + 1;
    }
    assert(kv.take(keys.len() as int) =~= kv);
    if !any {
        let ghost before = lines_view(r@);
        r.push(crate::styled::line1("All originSource repositories match.", Style::Green));
        assert(lines_view(r@) =~= before.push(all_match()));
    }
    assert(lines_view(r@) =~= summary_spec(kv, ra, rb));
    r
}


/// Whether `c` may stand between `ESC [` and `m` in a color code.
pub open spec fn code_char(c: char) -> bool {
    ('0' <= c && c <= '9') || c == ';'
}

/// How many characters of `s`, from the start, may stand in a color code.
pub open spec fn code_run(s: Seq<char>) -> nat
    decreases s.len(),
{
    if s.len() > 0 && code_char(s[0]) {
        1 + code_run(s.drop_first())
    } else {
        0
    }
}

/// The length of the color code (`ESC [`, digits and `;`, `m`) that `s`
/// starts with, or 0 when it starts with none.
pub open spec fn code_at(s: Seq<char>) -> nat {
    if s.len() >= 2 && s[0] == '\u{1b}' && s[1] == '[' && 2 + code_run(s.skip(2)) < s.len()
        && s[2 + code_run(s.skip(2)) as int] == 'm' {
        3 + code_run(s.skip(2))
    } else {
        0
    }
}

/// `s` without the terminal color codes in it: each match of
/// `\x1b\[[0-9;]*m`, taken from the left, is removed.
pub open spec fn strip_ansi(s: Seq<char>) -> Seq<char>
    decreases s.len(),
{
    if s.len() == 0 {
        Seq::empty()
    } else if code_at(s) > 0 {
        strip_ansi(s.skip(code_at(s) as int))
    } else {
        seq![s[0]] + strip_ansi(s.drop_first())
    }
}

/// Whether `s` holds no escape character.
pub open spec fn no_escape(s: Seq<char>) -> bool {
    !s.contains('\u{1b}')
}

/// Whether `c` is one whole color code.
pub open spec fn is_color_code(c: Seq<char>) -> bool {
    c.len() > 0 && code_at(c) == c.len()
}

proof fn lemma_code_run_stops(a: Seq<char>, b: Seq<char>)
    requires
        code_run(a) < a.len(),
    ensures
        code_run(a + b) == code_run(a),
    decreases a.len(),
{
    assert((a + b)[0] == a[0]);
    if code_char(a[0]) {
        assert((a + b).drop_first() =~= a.drop_first() + b);
        lemma_code_run_stops(a.drop_first(), b);
    }
}

/// Stripping keeps text that holds no escape character as it is, and
/// strips what follows it on its own.
pub proof fn stripping_keeps_plain_text(t: Seq<char>, rest: Seq<char>)
    requires
        no_escape(t),
    ensures
        strip_ansi(t + rest) == t + strip_ansi(rest),
    decreases t.len(),
{
    let s = t + rest;
    if t.len() == 0 {
        assert(s =~= rest);
    } else {
        assert(s[0] == t[0]);
        assert(t[0] != '\u{1b}');
        assert(code_at(s) == 0);
        assert(s.drop_first() =~= t.drop_first() + rest);
        assert(no_escape(t.drop_first())) by {
            if t.drop_first().contains('\u{1b}') {
                let i = choose|i: int| 0 <= i < t.drop_first().len() && t.drop_first()[i] == '\u{1b}';
                assert(t[i + 1] == '\u{1b}');
            }
        }
        stripping_keeps_plain_text(t.drop_first(), rest);
        assert(seq![t[0]] + (t.drop_first() + strip_ansi(rest)) =~= t + strip_ansi(rest));
    }
}

/// Stripping removes a color code that a text starts with.
pub proof fn stripping_removes_leading_code(c: Seq<char>, rest: Seq<char>)
    requires
        is_color_code(c),
    ensures
        strip_ansi(c + rest) == strip_ansi(rest),
{
    let s = c + rest;
    let run = code_run(c.skip(2));
    assert(s[0] == c[0] && s[1] == c[1]);
    assert(s.skip(2) =~= c.skip(2) + rest);
    assert(c.skip(2)[run as int] == 'm');
    assert(!code_char(c.skip(2)[run as int]));
    assert(code_run(c.skip(2)) < c.skip(2).len());
    lemma_code_run_stops(c.skip(2), rest);
    assert(s[2 + run as int] == c[2 + run as int]);
    assert(code_at(s) == c.len());
    assert(s.skip(c.len() as int) =~= rest);
}

/// `regex::Regex::replace_all` with the pattern `\x1b\[[0-9;]*m` and an
/// empty replacement: every color code, found from the left, is removed.
#[verifier::external_body]
fn remove_color_codes(input: &str) -> (r: String)
    ensures
        r@ == strip_ansi(input@),
{
    regex::Regex::new(r"\x1b\[[0-9;]*m").unwrap().replace_all(input, "").into_owned()
}

/// `input` without terminal color codes.
pub fn strip_ansi_codes(input: &str) -> (r: String)
    ensures
        r@ == strip_ansi(input@),
{
    remove_color_codes(input)
}

/// The name of the report file written at `timestamp`: a text file.
pub fn report_file_name(timestamp: &str) -> (r: String)
    ensures
        r@ == "diff_"@ + timestamp@ + ".txt"@,
{
    let mut out = chars_of("diff_");
    let t = chars_of(timestamp);
    append_chars(&mut out, t.as_slice());
    let e = chars_of(".txt");
    append_chars(&mut out, e.as_slice());
    string_of(out.as_slice())
}

/// A fenced block of `diff` text.
pub open spec fn fenced(body: Seq<char>) -> Seq<char> {
    "```diff\n"@ + strip_ansi(body) + "\n```\n\n"@
}

/// The text of a comparison report: a heading with the time and the two
/// directories, the file differences (or a note that there are none) and,
/// when given, the summary of component versions.
pub open spec fn report_spec(generated_at: Seq<char>, dir_a: Seq<char>, dir_b: Seq<char>, diff: Seq<char>, origin: Option<Seq<char>>) -> Seq<char> {
    "# Comparison Report\n\n"@
        + "- **Generated at**: "@ + generated_at + "\n"@
        + "- **Directory A**: `"@ + dir_a + "`\n"@
        + "- **Directory B**: `"@ + dir_b + "`\n"@
        + "\n---\n\n"@
        + "## File Differences\n\n"@
        + if trim(diff).len() == 0 { "*No file differences found.*\n\n"@ } else { fenced(diff) }
        + match origin {
            Some(o) => "## originSource Version Comparison\n\n"@ + fenced(o),
            None => Seq::empty(),
        }
}

fn push_str(out: &mut Vec<char>, s: &str)
    ensures
        final(out)@ == old(out)@ + s@,
{
    let cs = chars_of(s);
    append_chars(out, cs.as_slice());
}

fn push_fenced(out: &mut Vec<char>, body: &str)
    ensures
        final(out)@ == old(out)@ + fenced(body@),
{
    push_str(out, "```diff\n");
    let stripped = strip_ansi_codes(body);
    push_str(out, stripped.as_str());
    push_str(out, "\n```\n\n");
}

/// The text of the comparison report.
pub fn build_report(generated_at: &str, dir_a: &str, dir_b: &str, diff_content: &str, origin_diff: Option<&str>) -> (r: String)
    ensures
        r@ == report_spec(generated_at@, dir_a@, dir_b@, diff_content@, match origin_diff { Some(o) => Some(o@), None => None }),
{
    let mut out: Vec<char> = Vec::new();
    push_str(&mut out, "# Comparison Report\n\n");
    push_str(&mut out, "- **Generated at**: ");
    push_str(&mut out, generated_at);
    push_str(&mut out, "\n");
    push_str(&mut out, "- **Directory A**: `");
    push_str(&mut out, dir_a);
    push_str(&mut out, "`\n");
    push_str(&mut out, "- **Directory B**: `");
    push_str(&mut out, dir_b);
    push_str(&mut out, "`\n");
    push_str(&mut out, "\n---\n\n");
    push_str(&mut out, "## File Differences\n\n");
    let t = trim_chars(diff_content);
    if t.as_str().is_empty() {
        push_str(&mut out, "*No file differences found.*\n\n");
    } else {
        push_fenced(&mut out, diff_content);
    }
    match origin_diff {
        Some(o) => {
            push_str(&mut out, "## originSource Version Comparison\n\n");
            push_fenced(&mut out, o);
        },
        None => {},
    }
    let ghost expected = report_spec(generated_at@, dir_a@, dir_b@, diff_content@, match origin_diff { Some(o) => Some(o@), None => None });
    assert(out@ =~= expected);
    string_of(out.as_slice())
}


/// The set of paths of a listing, as keys.
pub open spec fn key_set(v: Seq<Seq<char>>) -> Set<Seq<Seq<char>>> {
    v.map_values(|p: Seq<char>| path_key(p)).to_set()
}

/// Whether two listings are alike enough to compare: no paths at all, or
/// the paths that both hold make up at least three tenths of the paths that
/// either holds.
pub open spec fn similar_spec(a: Seq<Seq<char>>, b: Seq<Seq<char>>) -> bool {
    let ka = key_set(a);
    let kb = key_set(b);
    (ka + kb).len() == 0 || 10 * ka.intersect(kb).len() >= 3 * (ka + kb).len()
}

/// How alike two listings are does not depend on their order, and is
/// measured against all the paths of both: alike listings share at least
/// three tenths of the paths of each of them.
pub proof fn similarity_is_symmetric_and_shared(a: Seq<Seq<char>>, b: Seq<Seq<char>>)
    ensures
        similar_spec(a, b) == similar_spec(b, a),
        similar_spec(a, b) ==> 10 * key_set(a).intersect(key_set(b)).len() >= 3 * key_set(a).len(),
        similar_spec(a, b) ==> 10 * key_set(a).intersect(key_set(b)).len() >= 3 * key_set(b).len(),
{
    let ka = key_set(a);
    let kb = key_set(b);
    assert(ka.intersect(kb) =~= kb.intersect(ka));
    assert(ka + kb =~= kb + ka);
    vstd::seq_lib::seq_to_set_is_finite(a.map_values(|p: Seq<char>| path_key(p)));
    vstd::seq_lib::seq_to_set_is_finite(b.map_values(|p: Seq<char>| path_key(p)));
    assert(ka.finite() && kb.finite());
    vstd::set_lib::lemma_len_subset(ka, ka + kb);
    vstd::set_lib::lemma_len_subset(kb, ka + kb);
}

/// The distinct keys of a listing, each once.
fn distinct_keys(v: &Vec<String>) -> (r: Vec<Vec<Vec<char>>>)
    ensures
        r.deep_view().no_duplicates(),
        r.deep_view().to_set() == key_set(texts(v@)),
{
    let ghost kv = texts(v@).map_values(|p: Seq<char>| path_key(p));
    let mut r: Vec<Vec<Vec<char>>> = Vec::new();
    let mut i: usize = 0;
    assert(r.deep_view().to_set() =~= kv.take(0).to_set());
    while i < v.len()
        invariant
            i <= v.len(),
            kv == texts(v@).map_values(|p: Seq<char>| path_key(p)),
            r.deep_view().no_duplicates(),
            r.deep_view().to_set() == kv.take(i as int).to_set(),
        decreases v.len() - i,
    {
        let k = key_of(v[i].as_str());
        assert(kv[i as int] == path_key(v@[i as int]@));
        assert(kv.take(i + 1) =~= kv.take(i as int).push(kv[i as int]));
        proof {
            kv.take(i as int).lemma_push_to_set_commute(kv[i as int]);
        }
        let present = crate::order::has_key(&r, &k);
        if !present {
            let ghost before = r.deep_view();
            r.push(k);
            proof {
                assert(r.deep_view() =~= before.push(kv[i as int]));
                before.lemma_push_to_set_commute(kv[i as int]);
                assert(!before.contains(kv[i as int])) by {
                    if before.contains(kv[i as int]) {
                        let j = choose|j: int| 0 <= j < before.len() && before[j] == kv[i as int];
                        assert(r@[j].deep_view() == before[j]);
                    }
                }
                assert(r.deep_view().to_set() =~= kv.take(i + 1).to_set());
            }
        } else {
            proof {
                let j = choose|j: int| 0 <= j < r.len() && (#[trigger] r@[j]).deep_view() == k.deep_view();
                assert(r.deep_view()[j] == kv[i as int]);
                assert(r.deep_view().to_set() =~= kv.take(i + 1).to_set());
            }
        }
        i = i + 1;
    }
    assert(kv.take(v.len() as int) =~= kv);
    r
}

/// Whether the two listings are alike enough to compare.
pub fn check_structure_similarity(files_a: &Vec<String>, files_b: &Vec<String>) -> (r: bool)
    ensures
        r == similar_spec(texts(files_a@), texts(files_b@)),
{
    let da = distinct_keys(files_a);
    let db = distinct_keys(files_b);
    let ghost ka = key_set(texts(files_a@));
    let ghost kb = key_set(texts(files_b@));
    let ghost sa = da.deep_view();
    let mut both: usize = 0;
    let ghost mut seen: Set<Seq<Seq<char>>> = Set::empty();
    let mut i: usize = 0;
    while i < da.len()
        invariant
            i <= da.len(),
            sa == da.deep_view(),
            sa.no_duplicates(),
            sa.to_set() == ka,
            db.deep_view().to_set() == kb,
            seen == sa.take(i as int).to_set().intersect(kb),
            seen.finite(),
            both == seen.len(),
            both <= i,
        decreases da.len() - i,
    {
        let in_b = crate::order::has_key(&db, &da[i]);
        proof {
            assert(sa.take(i + 1) =~= sa.take(i as int).push(sa[i as int]));
            sa.take(i as int).lemma_push_to_set_commute(sa[i as int]);
            assert(sa[i as int] == da@[i as int].deep_view());
            assert(in_b == kb.contains(sa[i as int])) by {
                if in_b {
                    let j = choose|j: int| 0 <= j < db.len() && (#[trigger] db@[j]).deep_view() == da@[i as int].deep_view();
                    assert(db.deep_view()[j] == sa[i as int]);
                }
                if kb.contains(sa[i as int]) {
                    let j = choose|j: int| 0 <= j < db.deep_view().len() && db.deep_view()[j] == sa[i as int];
                    assert(db@[j].deep_view() == da@[i as int].deep_view());
                }
            }
            assert(!sa.take(i as int).contains(sa[i as int]));
        }
        if in_b {
            both = both + 1;
            proof {
                seen = seen.insert(sa[i as int]);
            }
        }
        proof {
            assert(seen =~= sa.take(i + 1).to_set().intersect(kb));
        }
        i = i + 1;
    }
    proof {
        assert(sa.take(da.len() as int) =~= sa);
        sa.unique_seq_to_set();
        db.deep_view().unique_seq_to_set();
        vstd::set_lib::lemma_set_intersect_union_lens(ka, kb);
    }
    let union: u128 = da.len() as u128 + db.len() as u128 - both as u128;
    union == 0 || 10 * (both as u128) >= 3 * union
}


/// The paths of `walked` that lie under `root`, relative to it.
pub open spec fn relative_paths(walked: Seq<Seq<char>>, root: Seq<char>) -> Seq<Seq<char>>
    decreases walked.len(),
{
    if walked.len() == 0 {
        Seq::empty()
    } else {
        relative_paths(walked.drop_last(), root) + match strip_prefix_spec(walked.last(), root) {
            Some(x) => seq![x],
            None => Seq::empty(),
        }
    }
}

/// Whether a relative path lies in `originSource`: it is that directory,
/// or it starts with it.
pub open spec fn in_origin_source(p: Seq<char>) -> bool {
    p == "originSource"@ || ("originSource"@ + seq!['/']).is_prefix_of(p)
}

/// Whether the path `p` lies under `root/originSource`.
pub open spec fn under_origin(p: Seq<char>, root: Seq<char>) -> bool {
    (path_key(root) + seq!["originSource"@]).is_prefix_of(path_key(p))
}

proof fn lemma_relative_paths_add(w1: Seq<Seq<char>>, w2: Seq<Seq<char>>, root: Seq<char>)
    ensures
        relative_paths(w1 + w2, root) == relative_paths(w1, root) + relative_paths(w2, root),
    decreases w2.len(),
{
    if w2.len() == 0 {
        assert(w1 + w2 =~= w1);
        assert(relative_paths(w1, root) + relative_paths(w2, root) =~= relative_paths(w1, root));
    } else {
        assert((w1 + w2).drop_last() =~= w1 + w2.drop_last());
        assert((w1 + w2).last() == w2.last());
        lemma_relative_paths_add(w1, w2.drop_last(), root);
        let tail = match strip_prefix_spec(w2.last(), root) {
            Some(x) => seq![x],
            None => Seq::<Seq<char>>::empty(),
        };
        assert(relative_paths(w1, root) + relative_paths(w2.drop_last(), root) + tail
            =~= relative_paths(w1, root) + (relative_paths(w2.drop_last(), root) + tail));
    }
}

proof fn lemma_join_slash_first(a: Seq<char>, r: Seq<Seq<char>>)
    ensures
        r.len() == 0 ==> join_slash(seq![a] + r) == a,
        r.len() > 0 ==> (a + seq!['/']).is_prefix_of(join_slash(seq![a] + r)),
    decreases r.len(),
{
    let c = seq![a] + r;
    if r.len() == 0 {
        assert(c =~= seq![a]);
    } else {
        assert(c.drop_last() =~= seq![a] + r.drop_last());
        lemma_join_slash_first(a, r.drop_last());
        let front = join_slash(c.drop_last());
        assert(join_slash(c) == front + seq!['/'] + c.last());
        if r.len() == 1 {
            assert(front == a);
        }
        assert((a + seq!['/']).is_prefix_of(front + seq!['/'] + c.last())) by {
            let pre = a + seq!['/'];
            let whole = front + seq!['/'] + c.last();
            assert forall|i: int| 0 <= i < pre.len() implies pre[i] == whole[i] by {
                if r.len() > 1 {
                    assert(pre[i] == front[i]);
                }
            }
        }
    }
}

proof fn lemma_origin_relative(p: Seq<char>, root: Seq<char>)
    requires
        under_origin(p, root),
    ensures
        strip_prefix_spec(p, root) matches Some(x) && in_origin_source(x),
{
    reveal_strlit("originSource");
    let kp = path_key(p);
    let kb = path_key(root);
    let name = "originSource"@;
    assert(kb.is_prefix_of(kb + seq![name]));
    assert(kb.is_prefix_of(kp)) by {
        assert forall|i: int| 0 <= i < kb.len() implies kb[i] == kp[i] by {
            assert((kb + seq![name])[i] == kb[i]);
        }
    }
    let rest = kp.skip(kb.len() as int);
    assert(rest.len() > 0 && rest[0] == name) by {
        assert((kb + seq![name])[kb.len() as int] == name);
    }
    assert(name.len() == 12);
    assert(rest[0] != seq!['/']);
    assert(rest =~= seq![name] + rest.drop_first());
    lemma_join_slash_first(name, rest.drop_first());
}

/// Walking `originSource` a second time only adds files: the files of the
/// first walk stay as they were, and each file that the second walk, under
/// `root/originSource`, adds lies in `originSource`.
pub proof fn origin_walk_only_adds(w1: Seq<Seq<char>>, w2: Seq<Seq<char>>, root: Seq<char>)
    requires
        forall|k: int| 0 <= k < w2.len() ==> under_origin(#[trigger] w2[k], root),
    ensures
        relative_paths(w1 + w2, root) == relative_paths(w1, root) + relative_paths(w2, root),
        forall|i: int| 0 <= i < relative_paths(w2, root).len() ==> in_origin_source(#[trigger] relative_paths(w2, root)[i]),
    decreases w2.len(),
{
    lemma_relative_paths_add(w1, w2, root);
    if w2.len() > 0 {
        let w0 = w2.drop_last();
        assert forall|k: int| 0 <= k < w0.len() implies under_origin(#[trigger] w0[k], root) by {
            assert(w0[k] == w2[k]);
        }
        origin_walk_only_adds(w1, w0, root);
        assert(under_origin(w2[w2.len() - 1], root));
        lemma_origin_relative(w2.last(), root);
        let x = strip_prefix_spec(w2.last(), root)->0;
        let r0 = relative_paths(w0, root);
        assert(relative_paths(w2, root) == r0 + seq![x]);
        assert forall|i: int| 0 <= i < relative_paths(w2, root).len() implies in_origin_source(#[trigger] relative_paths(w2, root)[i]) by {
            if i < r0.len() {
                assert(relative_paths(w2, root)[i] == r0[i]);
            }
        }
    }
}

/// The files found by walking the tree at `root`, relative to `root`, each
/// once, in path order.
pub fn list_relative_files(root: &str, walked: &Vec<String>) -> (r: Vec<String>)
    ensures
        strictly_sorted(texts(r@)),
        forall|i: int| 0 <= i < r.len() ==> relative_paths(texts(walked@), root@).contains(#[trigger] texts(r@)[i]),
        forall|k: int| 0 <= k < relative_paths(texts(walked@), root@).len() ==>
            holds_path(texts(r@), #[trigger] relative_paths(texts(walked@), root@)[k]),
{
    let ghost wv = texts(walked@);
    let mut rel: Vec<String> = Vec::new();
    let mut i: usize = 0;
    assert(texts(rel@) =~= relative_paths(wv.take(0), root@));
    while i < walked.len()
        invariant
            i <= walked.len(),
            wv == texts(walked@),
            texts(rel@) == relative_paths(wv.take(i as int), root@),
        decreases walked.len() - i,
    {
        assert(wv.take(i + 1).drop_last() =~= wv.take(i as int));
        assert(wv.take(i + 1).last() == walked@[i as int]@);
        match strip_prefix(walked[i].as_str(), root) {
            Some(x) => {
                let ghost before = rel@;
                let ghost xv = x@;
                rel.push(x);
                assert(texts(rel@) =~= texts(before).push(xv));
            },
            None => {},
        }
        assert(texts(rel@) =~= relative_paths(wv.take(i + 1), root@));
        i = i + 1;
    }
    assert(wv.take(walked.len() as int) =~= wv);
    sort_unique(&rel)
}

} // verus!
