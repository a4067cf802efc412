//! Scanning a directory tree, one directory at a time, for the directories
//! that carry a marker: Bisheng projects, or git repositories.
//!
//! The scan decides; the caller looks at the file system. The scan asks
//! whether a directory carries the marker (`CheckMarker`), and when it does
//! not, for the entries of the directory (`ReadEntries`); the caller answers
//! each question with `marker` or `entries`, until the scan is `Finished`.
//! A marked directory is not descended into, and neither is a hidden entry
//! nor one that is not a directory. The finished scan hands back the tree of
//! the directories it visited, from which `project_tree` builds the tree of
//! projects and `collect_repos` lists the repositories.

use vstd::prelude::*;
use crate::types::DirectoryNode;
use crate::utils::{dir_string_spec, is_hidden_entry, path_to_dir_string};
use crate::order::texts;
use crate::projects::{flat_children, flat_node};

verus! {

/// An entry of a directory as the file system reports it.
#[derive(Debug)]
pub struct EntryInfo {
    /// The path of the entry.
    pub path: String,
    /// Its file name, when that is valid text.
    pub name: Option<String>,
    /// Whether the scan is to count it as a directory.
    pub is_dir: bool,
}

/// An entry as plain values.
pub type EntryV = (Seq<char>, Option<Seq<char>>, bool);

pub open spec fn entry_view(e: EntryInfo) -> EntryV {
    (e.path@, match e.name { Some(n) => Some(n@), None => None }, e.is_dir)
}

pub open spec fn entries_view(es: Seq<EntryInfo>) -> Seq<EntryV> {
    es.map_values(|e: EntryInfo| entry_view(e))
}

/// Whether an entry name marks it hidden.
pub open spec fn hidden(name: Option<Seq<char>>) -> bool {
    name matches Some(n) && n.len() > 0 && n[0] == '.'
}

/// The subdirectories the scan descends into: the entries that are
/// directories and not hidden, in the order read.
pub open spec fn visible(es: Seq<EntryV>) -> Seq<Seq<char>>
    decreases es.len(),
{
    if es.len() == 0 {
        Seq::empty()
    } else {
        visible(es.drop_last()) + if es.last().2 && !hidden(es.last().1) { seq![es.last().0] } else { Seq::empty() }
    }
}

/// An answer the scan was given.
pub enum Obs {
    /// Whether the directory at the path is a project.
    Marker(Seq<char>, bool),
    /// The entries of the directory at the path.
    Listing(Seq<char>, Seq<EntryV>),
}

/// A directory as the answers describe it: whether it carries the marker,
/// and the subdirectories the scan went into.
pub struct ObsTree {
    pub path: Seq<char>,
    pub matched: bool,
    pub children: Seq<ObsTree>,
}

/// A node of a project tree as plain values.
pub struct NodeV {
    pub path: Seq<char>,
    pub name: Seq<char>,
    pub matched: bool,
    pub children: Seq<NodeV>,
}

pub open spec fn child_paths(ts: Seq<ObsTree>) -> Seq<Seq<char>> {
    ts.map_values(|t: ObsTree| t.path)
}

/// The project tree under a directory: the directory alone when it is a
/// project; else the directory with the project trees of its
/// subdirectories, or nothing when none of them holds a project.
pub open spec fn projects_in(t: ObsTree) -> Option<NodeV>
    decreases t, 1int,
{
    if t.matched {
        Some(NodeV { path: t.path, name: dir_string_spec(t.path), matched: true, children: Seq::empty() })
    } else {
        let cs = projects_in_all(t.children);
        if cs.len() == 0 {
            None
        } else {
            Some(NodeV { path: t.path, name: dir_string_spec(t.path), matched: false, children: cs })
        }
    }
}

/// The project trees of the directories `ts` that hold projects, in order.
pub open spec fn projects_in_all(ts: Seq<ObsTree>) -> Seq<NodeV>
    decreases ts, 0int,
{
    if ts.len() == 0 {
        Seq::empty()
    } else {
        projects_in_all(ts.drop_last()) + match projects_in(ts.last()) {
            Some(v) => seq![v],
            None => Seq::empty(),
        }
    }
}

/// The repositories under a directory, in the order the scan met them: the
/// directory itself when it is one, else those under its subdirectories.
pub open spec fn repos_in(t: ObsTree) -> Seq<Seq<char>>
    decreases t, 1int,
{
    if t.matched {
        seq![t.path]
    } else {
        repos_in_all(t.children)
    }
}

/// The repositories under the directories `ts`, in order.
pub open spec fn repos_in_all(ts: Seq<ObsTree>) -> Seq<Seq<char>>
    decreases ts, 0int,
{
    if ts.len() == 0 {
        Seq::empty()
    } else {
        repos_in_all(ts.drop_last()) + repos_in(ts.last())
    }
}

/// A directory the scan visited: whether it carries the marker, and the
/// subdirectories it went into.
#[derive(Debug)]
pub struct ScannedDir {
    pub path: String,
    pub matched: bool,
    pub children: Vec<ScannedDir>,
}

/// A visited directory as plain values.
pub open spec fn tree_of(d: ScannedDir) -> ObsTree
    decreases d, 1int,
{
    ObsTree { path: d.path@, matched: d.matched, children: trees_of(d.children@) }
}

pub open spec fn trees_of(ds: Seq<ScannedDir>) -> Seq<ObsTree>
    decreases ds, 0int,
{
    if ds.len() == 0 {
        Seq::empty()
    } else {
        trees_of(ds.drop_last()).push(tree_of(ds.last()))
    }
}

/// Whether the answers in `log` describe the tree `t`: a project
/// directory was reported as one, and any other directory was reported as
/// none with entries whose visible subdirectories are its children.
pub open spec fn answered(t: ObsTree, log: Seq<Obs>) -> bool
    decreases t, 1int,
{
    if t.matched {
        log.contains(Obs::Marker(t.path, true)) && t.children.len() == 0
    } else {
        &&& log.contains(Obs::Marker(t.path, false))
        &&& exists|l: Seq<EntryV>| log.contains(Obs::Listing(t.path, l)) && visible(l) == child_paths(t.children)
        &&& all_answered(t.children, log)
    }
}

pub open spec fn all_answered(ts: Seq<ObsTree>, log: Seq<Obs>) -> bool
    decreases ts, 0int,
{
    ts.len() == 0 || (all_answered(ts.drop_last(), log) && answered(ts.last(), log))
}

/// Whether the node `n` is `v`.
pub open spec fn node_is(n: DirectoryNode, v: NodeV) -> bool
    decreases n, 1int,
{
    n.path@ == v.path && n.name@ == v.name && n.matched == v.matched && nodes_are(n.child_dirs@, v.children)
}

pub open spec fn nodes_are(ns: Seq<DirectoryNode>, vs: Seq<NodeV>) -> bool
    decreases ns, 0int,
{
    ns.len() == vs.len() && (ns.len() == 0 || (nodes_are(ns.drop_last(), vs.drop_last()) && node_is(ns.last(), vs.last())))
}

/// Whether the scan result `r` is `v`.
pub open spec fn result_is(r: Option<DirectoryNode>, v: Option<NodeV>) -> bool {
    match (r, v) {
        (Some(n), Some(w)) => node_is(n, w),
        (None, None) => true,
        _ => false,
    }
}

pub proof fn lemma_answered_grows(t: ObsTree, log: Seq<Obs>, x: Obs)
    requires
        answered(t, log),
    ensures
        answered(t, log.push(x)),
    decreases t, 1int,
{
    let l2 = log.push(x);
    if t.matched {
        assert(l2.contains(Obs::Marker(t.path, true))) by {
            let i = choose|i: int| 0 <= i < log.len() && log[i] == Obs::Marker(t.path, true);
            assert(l2[i] == log[i]);
        }
    } else {
        assert(l2.contains(Obs::Marker(t.path, false))) by {
            let i = choose|i: int| 0 <= i < log.len() && log[i] == Obs::Marker(t.path, false);
            assert(l2[i] == log[i]);
        }
        let l = choose|l: Seq<EntryV>| log.contains(Obs::Listing(t.path, l)) && visible(l) == child_paths(t.children);
        assert(l2.contains(Obs::Listing(t.path, l))) by {
            let i = choose|i: int| 0 <= i < log.len() && log[i] == Obs::Listing(t.path, l);
            assert(l2[i] == log[i]);
        }
        lemma_all_answered_grows(t.children, log, x);
    }
}

pub proof fn lemma_all_answered_grows(ts: Seq<ObsTree>, log: Seq<Obs>, x: Obs)
    requires
        all_answered(ts, log),
    ensures
        all_answered(ts, log.push(x)),
    decreases ts, 0int,
{
    if ts.len() > 0 {
        lemma_all_answered_grows(ts.drop_last(), log, x);
        lemma_answered_grows(ts.last(), log, x);
    }
}

/// The directories `es` that the scan descends into, in reverse order.
fn visible_reversed(es: &Vec<EntryInfo>) -> (r: Vec<String>)
    ensures
        texts(r@).reverse() == visible(entries_view(es@)),
{
    let ghost ev = entries_view(es@);
    let mut fwd: Vec<String> = Vec::new();
    let mut i: usize = 0;
    while i < es.len()
        invariant
            i <= es.len(),
            ev == entries_view(es@),
            texts(fwd@) == visible(ev.take(i as int)),
        decreases es.len() - i,
    {
        let e = &es[i];
        let hide = match &e.name {
            Some(n) => is_hidden_entry(Some(n.as_str())),
            None => is_hidden_entry(None),
        };
        assert(ev.take(i + 1).drop_last() =~= ev.take(i as int));
        assert(ev.take(i + 1).last() == entry_view(es@[i as int]));
        if e.is_dir && !hide {
            let ghost before = fwd@;
            fwd.push(e.path.clone());
            assert(texts(fwd@) =~= texts(before).push(es@[i as int].path@));
        }
        assert(texts(fwd@) =~= visible(ev.take(i + 1)));
        i = i + 1;
    }
    assert(ev.take(es.len() as int) =~= ev);
    let mut r: Vec<String> = Vec::new();
    let mut j: usize = fwd.len();
    while j > 0
        invariant
            j <= fwd.len(),
            texts(r@) == texts(fwd@).subrange(j as int, fwd.len() as int).reverse(),
        decreases j,
    {
        let ghost before = r@;
        r.push(fwd[j - 1].clone());
        assert(texts(r@) =~= texts(before).push(fwd@[j - 1]@));
        assert(texts(fwd@).subrange(j - 1, fwd.len() as int).reverse() =~= texts(fwd@).subrange(j as int, fwd.len() as int).reverse().push(texts(fwd@)[j - 1]));
        j = j - 1;
    }
    assert(texts(fwd@).subrange(0, fwd.len() as int) =~= texts(fwd@));
    assert(texts(r@).reverse() =~= texts(fwd@));
    r
}

/// A directory the scan is inside of.
struct Frame {
    path: String,
    /// The subdirectories still to scan, the next one last.
    pending: Vec<String>,
    /// The subdirectories scanned so far.
    found: Vec<ScannedDir>,
    /// The entries the directory was reported to have.
    listing: Ghost<Seq<EntryV>>,
}

/// What the scan waits for.
#[derive(Debug)]
enum Awaiting {
    Marker(String),
    Entries(String),
    Done,
}

/// What the caller is to do next.
#[derive(Debug)]
pub enum ScanAction {
    /// Tell whether the directory at this path carries the marker.
    CheckMarker(String),
    /// Read the entries of the directory at this path.
    ReadEntries(String),
    /// The scan is over: the tree of the directories visited.
    Finished(ScannedDir),
}

/// A scan of the directory tree under a root.
pub struct DirScan {
    frames: Vec<Frame>,
    awaiting: Awaiting,
    root: Ghost<Seq<char>>,
    log: Ghost<Seq<Obs>>,
    tree: Ghost<Option<ObsTree>>,
}

pub open spec fn frame_ok_parts(path: Seq<char>, done: Seq<ObsTree>, listing: Seq<EntryV>, log: Seq<Obs>) -> bool {
    &&& log.contains(Obs::Marker(path, false))
    &&& log.contains(Obs::Listing(path, listing))
    &&& all_answered(done, log)
}

spec fn frame_ok(f: Frame, log: Seq<Obs>) -> bool {
    frame_ok_parts(f.path@, trees_of(f.found@), f.listing@, log)
}

spec fn opt_seq(o: Option<Seq<char>>) -> Seq<Seq<char>> {
    match o {
        Some(c) => seq![c],
        None => Seq::empty(),
    }
}

/// Where the scan stands in frame `f`: the subdirectories done, the one in
/// progress (if any), and those still to do make up its visible entries.
spec fn progress_ok(f: Frame, next: Option<Seq<char>>) -> bool {
    child_paths(trees_of(f.found@)) + opt_seq(next) + texts(f.pending@).reverse() == visible(f.listing@)
}

spec fn chain_ok(frames: Seq<Frame>, top_next: Option<Seq<char>>) -> bool {
    forall|k: int| 0 <= k < frames.len() ==> progress_ok(#[trigger] frames[k],
        if k + 1 < frames.len() { Some(frames[k + 1].path@) } else { top_next })
}

spec fn frames_ok(fs: Seq<Frame>, log: Seq<Obs>) -> bool {
    forall|k: int| 0 <= k < fs.len() ==> frame_ok(#[trigger] fs[k], log)
}

proof fn lemma_frames_ok_grow(fs: Seq<Frame>, log: Seq<Obs>, x: Obs)
    requires
        frames_ok(fs, log),
    ensures
        frames_ok(fs, log.push(x)),
{
    let l2 = log.push(x);
    assert forall|k: int| 0 <= k < fs.len() implies frame_ok(#[trigger] fs[k], l2) by {
        assert(frame_ok(fs[k], log));
        lemma_all_answered_grows(trees_of(fs[k].found@), log, x);
        let i = choose|i: int| 0 <= i < log.len() && log[i] == Obs::Marker(fs[k].path@, false);
        assert(l2[i] == log[i]);
        let j = choose|j: int| 0 <= j < log.len() && log[j] == Obs::Listing(fs[k].path@, fs[k].listing@);
        assert(l2[j] == log[j]);
    }
}

proof fn lemma_push_frame(fs0: Seq<Frame>, f: Frame, log: Seq<Obs>, c: Seq<char>)
    requires
        frames_ok(fs0, log),
        frame_ok(f, log),
        chain_ok(fs0, Some(f.path@)),
        progress_ok(f, Some(c)),
    ensures
        frames_ok(fs0.push(f), log),
        chain_ok(fs0.push(f), Some(c)),
        fs0.len() > 0 ==> fs0.push(f)[0] == fs0[0],
{
    let fs = fs0.push(f);
    assert forall|k: int| 0 <= k < fs.len() implies frame_ok(#[trigger] fs[k], log) by {
        if k < fs0.len() {
            assert(fs[k] == fs0[k]);
        }
    }
    assert forall|k: int| 0 <= k < fs.len() implies progress_ok(#[trigger] fs[k],
        if k + 1 < fs.len() { Some(fs[k + 1].path@) } else { Some(c) }) by {
        if k < fs0.len() {
            assert(fs[k] == fs0[k]);
            assert(progress_ok(fs0[k], if k + 1 < fs0.len() { Some(fs0[k + 1].path@) } else { Some(f.path@) }));
            if k + 1 < fs0.len() {
                assert(fs[k + 1] == fs0[k + 1]);
            }
        }
    }
}

proof fn lemma_pop_frame(fs0: Seq<Frame>, log: Seq<Obs>, tp: Seq<char>)
    requires
        fs0.len() > 0,
        frames_ok(fs0, log),
        chain_ok(fs0, Some(tp)),
    ensures
        frames_ok(fs0.drop_last(), log),
        chain_ok(fs0.drop_last(), Some(fs0.last().path@)),
        frame_ok(fs0.last(), log),
        progress_ok(fs0.last(), Some(tp)),
        fs0.len() > 1 ==> fs0.drop_last()[0] == fs0[0],
{
    let fs = fs0.drop_last();
    assert(frame_ok(fs0[fs0.len() - 1], log));
    assert(progress_ok(fs0[fs0.len() - 1], Some(tp)));
    assert forall|k: int| 0 <= k < fs.len() implies frame_ok(#[trigger] fs[k], log) by {
        assert(fs[k] == fs0[k]);
    }
    assert forall|k: int| 0 <= k < fs.len() implies progress_ok(#[trigger] fs[k],
        if k + 1 < fs.len() { Some(fs[k + 1].path@) } else { Some(fs0.last().path@) }) by {
        assert(fs[k] == fs0[k]);
        assert(progress_ok(fs0[k], if k + 1 < fs0.len() { Some(fs0[k + 1].path@) } else { Some(tp) }));
        if k + 1 < fs.len() {
            assert(fs[k + 1] == fs0[k + 1]);
        }
    }
}

/// Taking the next subdirectory off a frame's list puts it in progress.
proof fn lemma_take_next(done: Seq<Seq<char>>, pend0: Seq<Seq<char>>, pend1: Seq<Seq<char>>, c: Seq<char>, vis: Seq<Seq<char>>)
    requires
        done + pend0.reverse() == vis,
        pend0 == pend1.push(c),
    ensures
        done + opt_seq(Some(c)) + pend1.reverse() == vis,
{
    assert(pend0.reverse() =~= seq![c] + pend1.reverse());
    assert(done + opt_seq(Some(c)) + pend1.reverse() =~= done + pend0.reverse());
}

/// Recording a finished subdirectory `d` in a frame keeps it in order.
proof fn lemma_record_child(f: Frame, d: ScannedDir, found1: Seq<ScannedDir>, log: Seq<Obs>)
    requires
        frame_ok(f, log),
        progress_ok(f, Some(d.path@)),
        answered(tree_of(d), log),
        found1 == f.found@.push(d),
    ensures
        frame_ok_parts(f.path@, trees_of(found1), f.listing@, log),
        child_paths(trees_of(found1)) + texts(f.pending@).reverse() == visible(f.listing@),
{
    assert(found1.drop_last() =~= f.found@);
    assert(trees_of(found1) == trees_of(f.found@).push(tree_of(d)));
    assert(trees_of(found1).drop_last() =~= trees_of(f.found@));
    assert(all_answered(trees_of(found1), log));
    assert(child_paths(trees_of(found1)) =~= child_paths(trees_of(f.found@)).push(d.path@));
    assert(child_paths(trees_of(found1)) + texts(f.pending@).reverse() =~= visible(f.listing@));
}

impl DirScan {
    /// The answers given so far, in order.
    pub closed spec fn log(&self) -> Seq<Obs> {
        self.log@
    }

    /// The directory the scan started at.
    pub closed spec fn root(&self) -> Seq<char> {
        self.root@
    }

    /// The directory whose marker the scan waits to hear about.
    pub closed spec fn waiting_marker(&self) -> Option<Seq<char>> {
        match self.awaiting {
            Awaiting::Marker(c) => Some(c@),
            _ => None,
        }
    }

    /// The directory whose entries the scan waits for.
    pub closed spec fn waiting_entries(&self) -> Option<Seq<char>> {
        match self.awaiting {
            Awaiting::Entries(c) => Some(c@),
            _ => None,
        }
    }

    pub closed spec fn wf(&self) -> bool {
        let fs = self.frames@;
        &&& frames_ok(fs, self.log@)
        &&& fs.len() > 0 ==> fs[0].path@ == self.root@
        &&& match self.awaiting {
            Awaiting::Marker(c) => chain_ok(fs, Some(c@)) && (fs.len() == 0 ==> c@ == self.root@),
            Awaiting::Entries(c) => chain_ok(fs, Some(c@)) && (fs.len() == 0 ==> c@ == self.root@)
                && self.log@.contains(Obs::Marker(c@, false)),
            Awaiting::Done => fs.len() == 0 && (self.tree@ matches Some(t) && t.path == self.root@ && answered(t, self.log@)),
        }
    }

    /// A scan of the tree under `root`; the first question is whether `root`
    /// carries the marker.
    pub fn start(root: String) -> (r: (DirScan, ScanAction))
        ensures
            r.0.wf(),
            r.0.log() == Seq::<Obs>::empty(),
            r.0.root() == root@,
            r.0.waiting_marker() == Some(root@),
            r.1 matches ScanAction::CheckMarker(c) && c@ == root@,
    {
        let c = root.clone();
        let s = DirScan {
            frames: Vec::new(),
            awaiting: Awaiting::Marker(root),
            root: Ghost(c@),
            log: Ghost(Seq::empty()),
            tree: Ghost(None),
        };
        (s, ScanAction::CheckMarker(c))
    }

    /// Hands the finished directory `d` to the directory above it, and finds
    /// the next question.
    fn deliver(&mut self, d: ScannedDir) -> (a: ScanAction)
        requires
            frames_ok(old(self).frames@, old(self).log@),
            old(self).frames@.len() > 0 ==> old(self).frames@[0].path@ == old(self).root@,
            chain_ok(old(self).frames@, Some(d.path@)),
            old(self).frames@.len() == 0 ==> d.path@ == old(self).root@,
            answered(tree_of(d), old(self).log@),
        ensures
            final(self).wf(),
            final(self).log() == old(self).log(),
            final(self).root() == old(self).root(),
            a matches ScanAction::CheckMarker(c) ==> final(self).waiting_marker() == Some(c@),
            a is ReadEntries ==> false,
            a matches ScanAction::Finished(r) ==> final(self).waiting_marker() is None && final(self).waiting_entries() is None
                && tree_of(r).path == final(self).root() && answered(tree_of(r), final(self).log()),
    {
        let mut d = d;
        loop
            invariant
                frames_ok(self.frames@, self.log@),
                self.frames@.len() > 0 ==> self.frames@[0].path@ == self.root@,
                chain_ok(self.frames@, Some(d.path@)),
                self.frames@.len() == 0 ==> d.path@ == self.root@,
                answered(tree_of(d), self.log@),
                self.log@ == old(self).log@,
                self.root@ == old(self).root@,
            decreases self.frames@.len(),
        {
            if self.frames.len() == 0 {
                self.awaiting = Awaiting::Done;
                self.tree = Ghost(Some(tree_of(d)));
                return ScanAction::Finished(d);
            }
            let ghost fs0 = self.frames@;
            proof {
                lemma_pop_frame(fs0, self.log@, d.path@);
            }
            let mut f = self.frames.pop().unwrap();
            assert(self.frames@ == fs0.drop_last());
            assert(f == fs0.last());
            let ghost found1 = f.found@.push(d);
            proof {
                lemma_record_child(f, d, found1, self.log@);
            }
            f.found.push(d);
            assert(frame_ok(f, self.log@));
            if f.pending.len() > 0 {
                let ghost pend0 = texts(f.pending@);
                let c = f.pending.pop().unwrap();
                proof {
                    assert(pend0 =~= texts(f.pending@).push(c@));
                    lemma_take_next(child_paths(trees_of(f.found@)), pend0, texts(f.pending@), c@, visible(f.listing@));
                    assert(progress_ok(f, Some(c@)));
                    lemma_push_frame(self.frames@, f, self.log@, c@);
                }
                let cc = c.clone();
                self.frames.push(f);
                self.awaiting = Awaiting::Marker(c);
                return ScanAction::CheckMarker(cc);
            }
            // every subdirectory of the frame is done: close the frame
            proof {
                assert(texts(f.pending@).reverse() =~= Seq::<Seq<char>>::empty());
                assert(child_paths(trees_of(f.found@)) =~= visible(f.listing@));
            }
            let closed = ScannedDir { path: f.path, matched: false, children: f.found };
            proof {
                assert(answered(tree_of(closed), self.log@));
            }
            d = closed;
        }
    }

    /// Answers whether the directory the scan waits on carries the marker.
    pub fn marker(&mut self, matched: bool) -> (a: ScanAction)
        requires
            old(self).wf(),
            old(self).waiting_marker() is Some,
        ensures
            final(self).wf(),
            final(self).root() == old(self).root(),
            final(self).log() == old(self).log().push(Obs::Marker(old(self).waiting_marker()->0, matched)),
            !matched ==> (a matches ScanAction::ReadEntries(c) && c@ == old(self).waiting_marker()->0
                && final(self).waiting_entries() == Some(c@)),
            a matches ScanAction::CheckMarker(c) ==> final(self).waiting_marker() == Some(c@),
            a matches ScanAction::ReadEntries(c) ==> final(self).waiting_entries() == Some(c@),
            a matches ScanAction::Finished(r) ==> final(self).waiting_marker() is None && final(self).waiting_entries() is None
                && tree_of(r).path == final(self).root() && answered(tree_of(r), final(self).log()),
    {
        let p = match &self.awaiting {
            Awaiting::Marker(c) => c.clone(),
            _ => { assert(false); String::new() },
        };
        let ghost log0 = self.log@;
        let ghost x = Obs::Marker(p@, matched);
        self.log = Ghost(log0.push(x));
        proof {
            lemma_frames_ok_grow(self.frames@, log0, x);
            assert(self.log@[log0.len() as int] == x);
        }
        if matched {
            let d = ScannedDir { path: p, matched: true, children: Vec::new() };
            proof {
                assert(trees_of(d.children@) =~= Seq::<ObsTree>::empty());
                assert(answered(tree_of(d), self.log@));
            }
            self.deliver(d)
        } else {
            let c = p.clone();
            self.awaiting = Awaiting::Entries(p);
            ScanAction::ReadEntries(c)
        }
    }

    /// Gives the entries of the directory the scan waits on.
    pub fn entries(&mut self, es: Vec<EntryInfo>) -> (a: ScanAction)
        requires
            old(self).wf(),
            old(self).waiting_entries() is Some,
        ensures
            final(self).wf(),
            final(self).root() == old(self).root(),
            final(self).log() == old(self).log().push(Obs::Listing(old(self).waiting_entries()->0, entries_view(es@))),
            a is ReadEntries ==> false,
            a matches ScanAction::CheckMarker(c) ==> final(self).waiting_marker() == Some(c@),
            a matches ScanAction::Finished(r) ==> final(self).waiting_marker() is None && final(self).waiting_entries() is None
                && tree_of(r).path == final(self).root() && answered(tree_of(r), final(self).log()),
    {
        let p = match &self.awaiting {
            Awaiting::Entries(c) => c.clone(),
            _ => { assert(false); String::new() },
        };
        let ghost log0 = self.log@;
        let ghost ev = entries_view(es@);
        let ghost x = Obs::Listing(p@, ev);
        self.log = Ghost(log0.push(x));
        proof {
            lemma_frames_ok_grow(self.frames@, log0, x);
            assert(self.log@[log0.len() as int] == x);
            let i = choose|i: int| 0 <= i < log0.len() && log0[i] == Obs::Marker(p@, false);
            assert(self.log@[i] == log0[i]);
        }
        let pending = visible_reversed(&es);
        let f = Frame { path: p, pending, found: Vec::new(), listing: Ghost(ev) };
        proof {
            assert(trees_of(f.found@) =~= Seq::<ObsTree>::empty());
            assert(all_answered(trees_of(f.found@), self.log@));
            assert(frame_ok(f, self.log@));
            assert(child_paths(trees_of(f.found@)) =~= Seq::<Seq<char>>::empty());
            assert(child_paths(trees_of(f.found@)) + texts(f.pending@).reverse() =~= visible(f.listing@));
        }
        if f.pending.len() == 0 {
            // nothing to descend into
            let d = ScannedDir { path: f.path, matched: false, children: Vec::new() };
            proof {
                assert(trees_of(d.children@) =~= Seq::<ObsTree>::empty());
                assert(visible(ev) =~= Seq::<Seq<char>>::empty());
                assert(child_paths(tree_of(d).children) =~= visible(ev));
                assert(answered(tree_of(d), self.log@));
            }
            self.deliver(d)
        } else {
            let mut f = f;
            let ghost pend0 = texts(f.pending@);
            let c = f.pending.pop().unwrap();
            proof {
                assert(pend0 =~= texts(f.pending@).push(c@));
                lemma_take_next(child_paths(trees_of(f.found@)), pend0, texts(f.pending@), c@, visible(f.listing@));
                assert(progress_ok(f, Some(c@)));
                lemma_push_frame(self.frames@, f, self.log@, c@);
            }
            let cc = c.clone();
            self.frames.push(f);
            self.awaiting = Awaiting::Marker(c);
            ScanAction::CheckMarker(cc)
        }
    }
}

/// The project tree found by a scan for project markers: the tree of `d`
/// with every directory that holds no project left out.
pub fn project_tree(d: &ScannedDir) -> (r: Option<DirectoryNode>)
    ensures
        result_is(r, projects_in(tree_of(*d))),
    decreases d,
{
    let name = path_to_dir_string(d.path.as_str());
    if d.matched {
        let node = DirectoryNode { path: d.path.clone(), name, matched: true, child_dirs: Vec::new() };
        assert(nodes_are(node.child_dirs@, Seq::<NodeV>::empty()));
        return Some(node);
    }
    let mut found: Vec<DirectoryNode> = Vec::new();
    let mut i: usize = 0;
    while i < d.children.len()
        invariant
            i <= d.children.len(),
            nodes_are(found@, projects_in_all(trees_of(d.children@.take(i as int)))),
        decreases d.children.len() - i,
    {
        let ghost ts = d.children@.take(i + 1);
        assert(ts.drop_last() =~= d.children@.take(i as int));
        assert(trees_of(ts) == trees_of(d.children@.take(i as int)).push(tree_of(d.children@[i as int])));
        assert(trees_of(ts).drop_last() =~= trees_of(d.children@.take(i as int)));
        let r = project_tree(&d.children[i]);
        match r {
            Some(n) => {
                let ghost before = found@;
                found.push(n);
                assert(found@.drop_last() =~= before);
                assert(projects_in_all(trees_of(ts)).drop_last() =~= projects_in_all(trees_of(d.children@.take(i as int))));
            },
            None => {
                assert(projects_in_all(trees_of(ts)) =~= projects_in_all(trees_of(d.children@.take(i as int))));
            },
        }
        i = i + 1;
    }
    assert(d.children@.take(d.children.len() as int) =~= d.children@);
    if found.len() == 0 {
        None
    } else {
        Some(DirectoryNode { path: d.path.clone(), name, matched: false, child_dirs: found })
    }
}

/// Appends to `repos` the repositories found by a scan for repository
/// markers, in the order the scan met them.
pub fn collect_repos(d: &ScannedDir, repos: &mut Vec<String>)
    ensures
        texts(final(repos)@) == texts(old(repos)@) + repos_in(tree_of(*d)),
    decreases d,
{
    if d.matched {
        let ghost before = repos@;
        repos.push(d.path.clone());
        assert(texts(repos@) =~= texts(before) + repos_in(tree_of(*d)));
        return;
    }
    let ghost start = texts(repos@);
    let mut i: usize = 0;
    while i < d.children.len()
        invariant
            i <= d.children.len(),
            texts(repos@) == start + repos_in_all(trees_of(d.children@.take(i as int))),
        decreases d.children.len() - i,
    {
        let ghost ts = d.children@.take(i + 1);
        assert(ts.drop_last() =~= d.children@.take(i as int));
        assert(trees_of(ts) == trees_of(d.children@.take(i as int)).push(tree_of(d.children@[i as int])));
        assert(trees_of(ts).drop_last() =~= trees_of(d.children@.take(i as int)));
        collect_repos(&d.children[i], repos);
        assert(texts(repos@) =~= start + repos_in_all(trees_of(ts)));
        i = i + 1;
    }
    assert(d.children@.take(d.children.len() as int) =~= d.children@);
}

/// The paths of a list of projects.
pub open spec fn option_paths(s: Seq<(Seq<char>, Seq<char>, Seq<char>)>) -> Seq<Seq<char>> {
    s.map_values(|o: (Seq<char>, Seq<char>, Seq<char>)| o.1)
}

proof fn lemma_option_paths_add(a: Seq<(Seq<char>, Seq<char>, Seq<char>)>, b: Seq<(Seq<char>, Seq<char>, Seq<char>)>)
    ensures
        option_paths(a + b) == option_paths(a) + option_paths(b),
{
    assert(option_paths(a + b) =~= option_paths(a) + option_paths(b));
}

proof fn lemma_no_projects_no_marks(t: ObsTree)
    requires
        projects_in(t) is None,
    ensures
        repos_in(t).len() == 0,
    decreases t, 1int,
{
    lemma_no_projects_no_marks_all(t.children);
}

proof fn lemma_no_projects_no_marks_all(ts: Seq<ObsTree>)
    requires
        projects_in_all(ts).len() == 0,
    ensures
        repos_in_all(ts).len() == 0,
    decreases ts, 0int,
{
    if ts.len() > 0 {
        let last = ts.last();
        if projects_in(last) is Some {
            assert(projects_in_all(ts).len() == projects_in_all(ts.drop_last()).len() + 1);
        }
        lemma_no_projects_no_marks_all(ts.drop_last());
        lemma_no_projects_no_marks(last);
    }
}

proof fn lemma_listed_node(t: ObsTree, n: DirectoryNode, home: Option<Seq<char>>)
    requires
        projects_in(t) matches Some(v) && node_is(n, v),
    ensures
        option_paths(flat_node(n, home)) == repos_in(t),
    decreases t, 1int,
{
    let v = projects_in(t)->0;
    if t.matched {
        assert(n.child_dirs@.len() == 0);
        assert(flat_children(n.child_dirs@, home) =~= Seq::empty());
        assert(option_paths(flat_node(n, home)) =~= seq![t.path]);
    } else {
        assert(!n.matched);
        lemma_listed_children(t.children, n.child_dirs@, home);
        assert(flat_node(n, home) =~= flat_children(n.child_dirs@, home));
    }
}

proof fn lemma_listed_children(ts: Seq<ObsTree>, ns: Seq<DirectoryNode>, home: Option<Seq<char>>)
    requires
        nodes_are(ns, projects_in_all(ts)),
    ensures
        option_paths(flat_children(ns, home)) == repos_in_all(ts),
    decreases ts, 0int,
{
    if ts.len() == 0 {
        assert(ns.len() == 0);
        assert(option_paths(flat_children(ns, home)) =~= Seq::empty());
    } else {
        let last = ts.last();
        let rest = ts.drop_last();
        match projects_in(last) {
            Some(v) => {
                let vs = projects_in_all(ts);
                assert(vs =~= projects_in_all(rest).push(v));
                assert(vs.drop_last() =~= projects_in_all(rest));
                assert(ns.len() > 0);
                lemma_listed_children(rest, ns.drop_last(), home);
                lemma_listed_node(last, ns.last(), home);
                lemma_option_paths_add(flat_children(ns.drop_last(), home), flat_node(ns.last(), home));
            },
            None => {
                assert(projects_in_all(ts) =~= projects_in_all(rest));
                lemma_listed_children(rest, ns, home);
                lemma_no_projects_no_marks(last);
                assert(repos_in_all(ts) =~= repos_in_all(rest));
            },
        }
    }
}

/// The projects that the list offers from a scanned project tree are the
/// directories that the scan found marked, in the order it found them; a
/// scan that builds no tree found none.
pub proof fn listed_projects_are_the_marked_directories(t: ObsTree, r: Option<DirectoryNode>, home: Option<Seq<char>>)
    requires
        result_is(r, projects_in(t)),
    ensures
        r is None ==> repos_in(t).len() == 0,
        r matches Some(n) ==> option_paths(flat_node(n, home)) == repos_in(t),
{
    match r {
        Some(n) => lemma_listed_node(t, n, home),
        None => lemma_no_projects_no_marks(t),
    }
}

} // verus!
