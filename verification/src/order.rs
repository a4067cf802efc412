//! The order of paths: component by component, as `PathBuf` orders them,
//! the root first, then `.`, then `..`, then names by their characters.

use vstd::prelude::*;
use crate::paths::{components, is_absolute, join_slash, parse_path, render, render_path};
use crate::text::chars_of;

verus! {

/// Lexicographic order on character sequences, by code point.
pub open spec fn chars_lt(a: Seq<char>, b: Seq<char>) -> bool
    decreases a.len(),
{
    if a.len() == 0 {
        b.len() > 0
    } else if b.len() == 0 {
        false
    } else if a[0] != b[0] {
        a[0] < b[0]
    } else {
        chars_lt(a.drop_first(), b.drop_first())
    }
}

/// The kind of a component: the root, `.`, `..`, or a name.
pub open spec fn rank(c: Seq<char>) -> int {
    if c == seq!['/'] {
        0
    } else if c == seq!['.'] {
        1
    } else if c == seq!['.', '.'] {
        2
    } else {
        3
    }
}

/// The order on single components.
pub open spec fn comp_lt(a: Seq<char>, b: Seq<char>) -> bool {
    rank(a) < rank(b) || (rank(a) == 3 && rank(b) == 3 && chars_lt(a, b))
}

/// Lexicographic order on component sequences.
pub open spec fn comps_lt(x: Seq<Seq<char>>, y: Seq<Seq<char>>) -> bool
    decreases x.len(),
{
    if x.len() == 0 {
        y.len() > 0
    } else if y.len() == 0 {
        false
    } else if x[0] != y[0] {
        comp_lt(x[0], y[0])
    } else {
        comps_lt(x.drop_first(), y.drop_first())
    }
}

/// What identifies a path: its components, after a root marker when it is absolute.
pub open spec fn path_key(s: Seq<char>) -> Seq<Seq<char>> {
    if is_absolute(s) {
        seq![seq!['/']] + components(s)
    } else {
        components(s)
    }
}

/// Whether path `a` sorts before path `b`.
pub open spec fn path_lt(a: Seq<char>, b: Seq<char>) -> bool {
    comps_lt(path_key(a), path_key(b))
}

/// Whether `a` and `b` name the same path (`PathBuf` equality).
pub open spec fn same_path(a: Seq<char>, b: Seq<char>) -> bool {
    path_key(a) == path_key(b)
}

pub proof fn lemma_chars_lt_irrefl(a: Seq<char>)
    ensures
        !chars_lt(a, a),
    decreases a.len(),
{
    if a.len() > 0 {
        lemma_chars_lt_irrefl(a.drop_first());
    }
}

pub proof fn lemma_chars_lt_trans(a: Seq<char>, b: Seq<char>, c: Seq<char>)
    requires
        chars_lt(a, b),
        chars_lt(b, c),
    ensures
        chars_lt(a, c),
    decreases a.len(),
{
    if a.len() > 0 && b.len() > 0 && c.len() > 0 && a[0] == b[0] && b[0] == c[0] {
        lemma_chars_lt_trans(a.drop_first(), b.drop_first(), c.drop_first());
    }
}

pub proof fn lemma_chars_lt_total(a: Seq<char>, b: Seq<char>)
    requires
        a != b,
    ensures
        chars_lt(a, b) || chars_lt(b, a),
    decreases a.len(),
{
    if a.len() > 0 && b.len() > 0 && a[0] == b[0] {
        if a.drop_first() == b.drop_first() {
            assert(a =~= seq![a[0]] + a.drop_first());
            assert(b =~= seq![b[0]] + b.drop_first());
        }
        lemma_chars_lt_total(a.drop_first(), b.drop_first());
    } else if a.len() > 0 && b.len() > 0 {
        assert(a[0] != b[0]);
    } else if a.len() == 0 && b.len() == 0 {
        assert(a =~= b);
    }
}

pub proof fn lemma_comp_lt_irrefl(a: Seq<char>)
    ensures
        !comp_lt(a, a),
{
    lemma_chars_lt_irrefl(a);
}

pub proof fn lemma_comp_lt_trans(a: Seq<char>, b: Seq<char>, c: Seq<char>)
    requires
        comp_lt(a, b),
        comp_lt(b, c),
    ensures
        comp_lt(a, c),
{
    if rank(a) == 3 && rank(b) == 3 && rank(c) == 3 {
        lemma_chars_lt_trans(a, b, c);
    }
}

pub proof fn lemma_comp_lt_total(a: Seq<char>, b: Seq<char>)
    requires
        a != b,
    ensures
        comp_lt(a, b) || comp_lt(b, a),
{
    if rank(a) == 3 && rank(b) == 3 {
        lemma_chars_lt_total(a, b);
    }
}

pub proof fn lemma_comps_lt_irrefl(x: Seq<Seq<char>>)
    ensures
        !comps_lt(x, x),
    decreases x.len(),
{
    if x.len() > 0 {
        lemma_comps_lt_irrefl(x.drop_first());
    }
}

pub proof fn lemma_comps_lt_trans(x: Seq<Seq<char>>, y: Seq<Seq<char>>, z: Seq<Seq<char>>)
    requires
        comps_lt(x, y),
        comps_lt(y, z),
    ensures
        comps_lt(x, z),
    decreases x.len(),
{
    if x.len() > 0 && y.len() > 0 && z.len() > 0 {
        if x[0] == y[0] && y[0] == z[0] {
            lemma_comps_lt_trans(x.drop_first(), y.drop_first(), z.drop_first());
        } else if x[0] != y[0] && y[0] != z[0] {
            lemma_comp_lt_trans(x[0], y[0], z[0]);
            if x[0] == z[0] {
                lemma_comp_lt_irrefl(x[0]);
            }
        }
    }
}

pub proof fn lemma_comps_lt_total(x: Seq<Seq<char>>, y: Seq<Seq<char>>)
    requires
        x != y,
    ensures
        comps_lt(x, y) || comps_lt(y, x),
    decreases x.len(),
{
    if x.len() > 0 && y.len() > 0 && x[0] == y[0] {
        if x.drop_first() == y.drop_first() {
            assert(x =~= seq![x[0]] + x.drop_first());
            assert(y =~= seq![y[0]] + y.drop_first());
        }
        lemma_comps_lt_total(x.drop_first(), y.drop_first());
    } else if x.len() > 0 && y.len() > 0 {
        lemma_comp_lt_total(x[0], y[0]);
    } else if x.len() == 0 && y.len() == 0 {
        assert(x =~= y);
    }
}

pub proof fn lemma_comps_lt_asym(x: Seq<Seq<char>>, y: Seq<Seq<char>>)
    requires
        comps_lt(x, y),
    ensures
        !comps_lt(y, x),
{
    if comps_lt(y, x) {
        lemma_comps_lt_trans(x, y, x);
        lemma_comps_lt_irrefl(x);
    }
}

/// Whether `a` sorts before `b` by code points.
pub fn chars_less(a: &[char], b: &[char]) -> (r: bool)
    ensures
        r == chars_lt(a@, b@),
{
    let mut i: usize = 0;
    assert(a@.skip(0) =~= a@);
    assert(b@.skip(0) =~= b@);
    while i < a.len() && i < b.len()
        invariant
            i <= a.len(),
            i <= b.len(),
            chars_lt(a@, b@) == chars_lt(a@.skip(i as int), b@.skip(i as int)),
        decreases a.len() - i,
    {
        if a[i] != b[i] {
            assert(a@.skip(i as int)[0] == a@[i as int]);
            assert(b@.skip(i as int)[0] == b@[i as int]);
            return a[i] < b[i];
        }
        assert(a@.skip(i as int).drop_first() =~= a@.skip(i + 1));
        assert(b@.skip(i as int).drop_first() =~= b@.skip(i + 1));
        i = i + 1;
    }
    i == a.len() && i < b.len()
}

/// Whether `a` and `b` hold the same characters.
pub fn chars_equal(a: &[char], b: &[char]) -> (r: bool)
    ensures
        r == (a@ == b@),
{
    if a.len() != b.len() {
        return false;
    }
    let mut i: usize = 0;
    while i < a.len()
        invariant
            i <= a.len(),
            a.len() == b.len(),
            a@.take(i as int) == b@.take(i as int),
        decreases a.len() - i,
    {
        if a[i] != b[i] {
            return false;
        }
        assert(a@.take(i + 1) =~= a@.take(i as int).push(a@[i as int]));
        assert(b@.take(i + 1) =~= b@.take(i as int).push(b@[i as int]));
        i = i + 1;
    }
    assert(a@.take(a.len() as int) =~= a@);
    assert(b@.take(b.len() as int) =~= b@);
    true
}

fn rank_of(c: &Vec<char>) -> (r: u8)
    ensures
        r as int == rank(c@),
{
    if c.len() == 1 && c[0] == '/' {
        assert(c@ =~= seq!['/']);
        0
    } else if c.len() == 1 && c[0] == '.' {
        assert(c@ =~= seq!['.']);
        1
    } else if c.len() == 2 && c[0] == '.' && c[1] == '.' {
        assert(c@ =~= seq!['.', '.']);
        2
    } else {
        proof {
            if c@ == seq!['/'] {
                assert(c@[0] == '/');
            }
            if c@ == seq!['.'] {
                assert(c@[0] == '.');
            }
            if c@ == seq!['.', '.'] {
                assert(c@[0] == '.' && c@[1] == '.');
            }
        }
        3
    }
}

/// Whether component sequence `x` sorts before `y`.
pub fn comps_less(x: &Vec<Vec<char>>, y: &Vec<Vec<char>>) -> (r: bool)
    ensures
        r == comps_lt(x.deep_view(), y.deep_view()),
{
    let ghost dx = x.deep_view();
    let ghost dy = y.deep_view();
    let mut i: usize = 0;
    assert(dx.skip(0) =~= dx);
    assert(dy.skip(0) =~= dy);
    while i < x.len() && i < y.len()
        invariant
            i <= x.len(),
            i <= y.len(),
            dx == x.deep_view(),
            dy == y.deep_view(),
            comps_lt(dx, dy) == comps_lt(dx.skip(i as int), dy.skip(i as int)),
        decreases x.len() - i,
    {
        assert(x[i as int].deep_view() =~= x[i as int]@);
        assert(y[i as int].deep_view() =~= y[i as int]@);
        if !chars_equal(x[i].as_slice(), y[i].as_slice()) {
            let rx = rank_of(&x[i]);
            let ry = rank_of(&y[i]);
            if rx != ry {
                return rx < ry;
            }
            return rx == 3 && chars_less(x[i].as_slice(), y[i].as_slice());
        }
        assert(dx.skip(i as int).drop_first() =~= dx.skip(i + 1));
        assert(dy.skip(i as int).drop_first() =~= dy.skip(i + 1));
        i = i + 1;
    }
    i == x.len() && i < y.len()
}

/// Whether component sequences `x` and `y` are equal.
pub fn comps_equal(x: &Vec<Vec<char>>, y: &Vec<Vec<char>>) -> (r: bool)
    ensures
        r == (x.deep_view() == y.deep_view()),
{
    let ghost dx = x.deep_view();
    let ghost dy = y.deep_view();
    if x.len() != y.len() {
        return false;
    }
    let mut i: usize = 0;
    while i < x.len()
        invariant
            i <= x.len(),
            x.len() == y.len(),
            dx == x.deep_view(),
            dy == y.deep_view(),
            dx.take(i as int) == dy.take(i as int),
        decreases x.len() - i,
    {
        assert(x[i as int].deep_view() =~= x[i as int]@);
        assert(y[i as int].deep_view() =~= y[i as int]@);
        if !chars_equal(x[i].as_slice(), y[i].as_slice()) {
            assert(dx[i as int] != dy[i as int]);
            return false;
        }
        assert(dx.take(i + 1) =~= dx.take(i as int).push(dx[i as int]));
        assert(dy.take(i + 1) =~= dy.take(i as int).push(dy[i as int]));
        i = i + 1;
    }
    assert(dx.take(x.len() as int) =~= dx);
    assert(dy.take(y.len() as int) =~= dy);
    true
}

/// The key of `path` (its components, after a root marker when absolute).
pub fn key_of(path: &str) -> (k: Vec<Vec<char>>)
    ensures
        k.deep_view() == path_key(path@),
{
    let (abs, parts) = parse_path(path);
    if abs {
        let mut k: Vec<Vec<char>> = Vec::new();
        let mut root: Vec<char> = Vec::new();
        root.push('/');
        assert(root.deep_view() =~= seq!['/']);
        k.push(root);
        assert(k.deep_view() =~= seq![seq!['/']] + parts.deep_view().take(0));
        let mut i: usize = 0;
        while i < parts.len()
            invariant
                i <= parts.len(),
                k.deep_view() == seq![seq!['/']] + parts.deep_view().take(i as int),
            decreases parts.len() - i,
        {
            let ghost before = k.deep_view();
            k.push(parts[i].clone());
            proof {
                assert(k.deep_view() =~= before.push(parts.deep_view()[i as int]));
                assert(parts.deep_view().take(i + 1) =~= parts.deep_view().take(i as int).push(parts.deep_view()[i as int]));
            }
            i = i + 1;
        }
        assert(parts.deep_view().take(parts.len() as int) =~= parts.deep_view());
        k
    } else {
        parts
    }
}

/// Whether `a` and `b` name the same path.
pub fn same_path_exec(a: &str, b: &str) -> (r: bool)
    ensures
        r == same_path(a@, b@),
{
    let ka = key_of(a);
    let kb = key_of(b);
    comps_equal(&ka, &kb)
}

/// Whether path `a` sorts before path `b`.
pub fn path_less(a: &str, b: &str) -> (r: bool)
    ensures
        r == path_lt(a@, b@),
{
    let ka = key_of(a);
    let kb = key_of(b);
    comps_less(&ka, &kb)
}


/// The texts of a sequence of strings.
pub open spec fn texts(v: Seq<String>) -> Seq<Seq<char>> {
    v.map_values(|x: String| x@)
}

/// Each path sorts strictly before the next.
pub open spec fn strictly_sorted(s: Seq<Seq<char>>) -> bool {
    forall|i: int, j: int| 0 <= i < j < s.len() ==> path_lt(#[trigger] s[i], #[trigger] s[j])
}

/// Whether some path of `s` is the same path as `p`.
pub open spec fn holds_path(s: Seq<Seq<char>>, p: Seq<char>) -> bool {
    exists|i: int| 0 <= i < s.len() && same_path(#[trigger] s[i], p)
}

/// A set of paths kept in path order, one string per path.
pub struct SortedPaths {
    keys: Vec<Vec<Vec<char>>>,
    items: Vec<String>,
}

impl SortedPaths {
    /// The paths, in order.
    pub closed spec fn view(&self) -> Seq<Seq<char>> {
        texts(self.items@)
    }

    pub closed spec fn wf(&self) -> bool {
        &&& self.keys.len() == self.items.len()
        &&& forall|i: int| 0 <= i < self.keys.len() ==> #[trigger] self.keys@[i].deep_view() == path_key(self.items@[i]@)
        &&& strictly_sorted(self.view())
    }

    pub fn new() -> (r: SortedPaths)
        ensures
            r.wf(),
            r.view() == Seq::<Seq<char>>::empty(),
    {
        let r = SortedPaths { keys: Vec::new(), items: Vec::new() };
        assert(r.view() =~= Seq::<Seq<char>>::empty());
        r
    }

    /// Adds `p` unless the same path is already held.
    pub fn insert(&mut self, p: String)
        requires
            old(self).wf(),
        ensures
            final(self).wf(),
            holds_path(old(self).view(), p@) ==> final(self).view() == old(self).view(),
            !holds_path(old(self).view(), p@) ==> final(self).view().to_set() == old(self).view().to_set().insert(p@),
    {
        let ghost v0 = self.view();
        let k = key_of(p.as_str());
        let mut j: usize = 0;
        while j < self.keys.len() && comps_less(&self.keys[j], &k)
            invariant
                j <= self.keys.len(),
                self.wf(),
                self.view() == v0,
                k.deep_view() == path_key(p@),
                forall|m: int| 0 <= m < j ==> path_lt(#[trigger] v0[m], p@),
            decreases self.keys.len() - j,
        {
            j = j + 1;
        }
        if j < self.keys.len() && comps_equal(&self.keys[j], &k) {
            assert(same_path(v0[j as int], p@));
            return;
        }
        proof {
            assert forall|m: int| 0 <= m < v0.len() implies !same_path(#[trigger] v0[m], p@) by {
                if m < j {
                    lemma_comps_lt_irrefl(path_key(p@));
                } else if same_path(v0[m], p@) {
                    if m > j {
                        // v0[j] < v0[m] == p, yet p does not sort after v0[j]
                        lemma_comps_lt_total(path_key(v0[j as int]), path_key(p@));
                        lemma_comps_lt_asym(path_key(v0[j as int]), path_key(v0[m]));
                    }
                }
            }
            assert forall|m: int| j <= m < v0.len() implies path_lt(p@, #[trigger] v0[m]) by {
                lemma_comps_lt_total(path_key(v0[j as int]), path_key(p@));
                if m > j {
                    lemma_comps_lt_trans(path_key(p@), path_key(v0[j as int]), path_key(v0[m]));
                }
            }
        }
        let ghost keys0 = self.keys@;
        let ghost items0 = self.items@;
        self.keys.insert(j, k);
        self.items.insert(j, p);
        proof {
            let v1 = self.view();
            assert(v1 =~= v0.insert(j as int, p@));
            assert forall|i: int| 0 <= i < self.keys.len() implies #[trigger] self.keys@[i].deep_view() == path_key(self.items@[i]@) by {
                if i < j {
                    assert(self.keys@[i] == keys0[i]);
                    assert(self.items@[i] == items0[i]);
                } else if i > j {
                    assert(self.keys@[i] == keys0[i - 1]);
                    assert(self.items@[i] == items0[i - 1]);
                }
            }
            assert forall|a: int, b: int| 0 <= a < b < v1.len() implies path_lt(#[trigger] v1[a], #[trigger] v1[b]) by {
                if b < j {
                } else if a < j && b == j {
                } else if a < j && b > j {
                    assert(v1[b] == v0[b - 1]);
                } else if a == j {
                    assert(v1[b] == v0[b - 1]);
                } else {
                    assert(v1[a] == v0[a - 1]);
                    assert(v1[b] == v0[b - 1]);
                }
            }
            assert(!holds_path(v0, p@));
            assert forall|x: Seq<char>| v1.to_set().contains(x) <==> v0.to_set().insert(p@).contains(x) by {
                if v1.to_set().contains(x) {
                    let i = choose|i: int| 0 <= i < v1.len() && v1[i] == x;
                    if i < j {
                        assert(v0[i] == x);
                    } else if i > j {
                        assert(v0[i - 1] == x);
                    }
                }
                if v0.to_set().contains(x) {
                    let i = choose|i: int| 0 <= i < v0.len() && v0[i] == x;
                    if i < j {
                        assert(v1[i] == x);
                    } else {
                        assert(v1[i + 1] == x);
                    }
                }
                if x == p@ {
                    assert(v1[j as int] == x);
                }
            }
            assert(v1.to_set() =~= v0.to_set().insert(p@));
        }
    }

    /// The paths, in order.
    pub fn into_vec(self) -> (r: Vec<String>)
        requires
            self.wf(),
        ensures
            texts(r@) == self.view(),
            strictly_sorted(texts(r@)),
    {
        self.items
    }
}


/// The paths of `paths` in path order, each path once, as a `BTreeSet` or a
/// sorted `HashSet` of `PathBuf` would give them.
pub fn sort_unique(paths: &Vec<String>) -> (r: Vec<String>)
    ensures
        strictly_sorted(texts(r@)),
        forall|i: int| 0 <= i < r.len() ==> texts(paths@).contains(#[trigger] texts(r@)[i]),
        forall|k: int| 0 <= k < paths.len() ==> holds_path(texts(r@), #[trigger] texts(paths@)[k]),
{
    let mut set = SortedPaths::new();
    let mut i: usize = 0;
    while i < paths.len()
        invariant
            i <= paths.len(),
            set.wf(),
            forall|x: Seq<char>| set.view().contains(x) ==> texts(paths@).contains(x),
            forall|k: int| 0 <= k < i ==> holds_path(set.view(), #[trigger] texts(paths@)[k]),
        decreases paths.len() - i,
    {
        let ghost v0 = set.view();
        set.insert(paths[i].clone());
        proof {
            let v1 = set.view();
            let p = texts(paths@)[i as int];
            assert(paths@[i as int]@ == p);
            if !holds_path(v0, p) {
                assert forall|x: Seq<char>| v1.contains(x) implies texts(paths@).contains(x) by {
                    assert(v1.to_set().contains(x));
                    if x != p {
                        assert(v0.to_set().contains(x));
                    }
                }
                assert forall|k: int| 0 <= k <= i implies holds_path(v1, #[trigger] texts(paths@)[k]) by {
                    let q = texts(paths@)[k];
                    if k < i {
                        let m = choose|m: int| 0 <= m < v0.len() && same_path(#[trigger] v0[m], q);
                        assert(v0.to_set().contains(v0[m]));
                        assert(v1.to_set().contains(v0[m]));
                        let n = choose|n: int| 0 <= n < v1.len() && v1[n] == v0[m];
                        assert(same_path(v1[n], q));
                    } else {
                        assert(v1.to_set().contains(p));
                        let n = choose|n: int| 0 <= n < v1.len() && v1[n] == p;
                        assert(same_path(v1[n], q));
                    }
                }
            }
        }
        i = i + 1;
    }
    let r = set.into_vec();
    proof {
        assert forall|i: int| 0 <= i < r.len() implies texts(paths@).contains(#[trigger] texts(r@)[i]) by {
            assert(set.view().contains(texts(r@)[i]));
        }
    }
    r
}


/// What is left of `path` after the leading components that make up `base`
/// (`Path::strip_prefix`).
pub open spec fn strip_prefix_spec(path: Seq<char>, base: Seq<char>) -> Option<Seq<char>> {
    let kp = path_key(path);
    let kb = path_key(base);
    if kb.is_prefix_of(kp) {
        let rest = kp.skip(kb.len() as int);
        if rest.len() > 0 && rest[0] == seq!['/'] {
            Some(render(true, rest.drop_first()))
        } else {
            Some(join_slash(rest))
        }
    } else {
        None
    }
}

/// `path` relative to `base`, when `base` is a leading part of it.
pub fn strip_prefix(path: &str, base: &str) -> (r: Option<String>)
    ensures
        r matches Some(x) ==> strip_prefix_spec(path@, base@) == Some(x@),
        r is None ==> strip_prefix_spec(path@, base@) is None,
{
    let kp = key_of(path);
    let kb = key_of(base);
    let ghost dp = kp.deep_view();
    let ghost db = kb.deep_view();
    if kb.len() > kp.len() {
        return None;
    }
    let mut i: usize = 0;
    while i < kb.len()
        invariant
            i <= kb.len(),
            kb.len() <= kp.len(),
            dp == kp.deep_view(),
            db == kb.deep_view(),
            dp == path_key(path@),
            db == path_key(base@),
            db.take(i as int) == dp.take(i as int),
        decreases kb.len() - i,
    {
        assert(kp[i as int].deep_view() =~= kp[i as int]@);
        assert(kb[i as int].deep_view() =~= kb[i as int]@);
        if !chars_equal(kp[i].as_slice(), kb[i].as_slice()) {
            assert(db[i as int] != dp[i as int]);
            proof {
                if db.is_prefix_of(dp) {
                    assert(db[i as int] == dp.subrange(0, db.len() as int)[i as int]);
                }
            }
            return None;
        }
        assert(db.take(i + 1) =~= db.take(i as int).push(db[i as int]));
        assert(dp.take(i + 1) =~= dp.take(i as int).push(dp[i as int]));
        i = i + 1;
    }
    assert(db.take(kb.len() as int) =~= db);
    assert(db.is_prefix_of(dp));
    let mut rest: Vec<Vec<char>> = Vec::new();
    let mut j: usize = kb.len();
    let mut abs = false;
    if j < kp.len() {
        assert(kp[j as int].deep_view() =~= kp[j as int]@);
        if kp[j].len() == 1 && kp[j][0] == '/' {
            assert(kp[j as int]@ =~= seq!['/']);
            abs = true;
            j = j + 1;
        } else {
            proof {
                if kp[j as int]@ == seq!['/'] {
                    assert(kp[j as int]@[0] == '/');
                }
            }
        }
    }
    let start = j;
    assert(rest.deep_view() =~= dp.subrange(start as int, j as int));
    while j < kp.len()
        invariant
            start <= j <= kp.len(),
            dp == kp.deep_view(),
            rest.deep_view() == dp.subrange(start as int, j as int),
        decreases kp.len() - j,
    {
        let ghost before = rest.deep_view();
        rest.push(kp[j].clone());
        assert(rest.deep_view() =~= before.push(dp[j as int]));
        assert(dp.subrange(start as int, j + 1) =~= dp.subrange(start as int, j as int).push(dp[j as int]));
        j = j + 1;
    }
    proof {
        let r0 = dp.skip(db.len() as int);
        if abs {
            assert(rest.deep_view() =~= r0.drop_first());
        } else {
            assert(rest.deep_view() =~= r0);
        }
    }
    Some(render_path(abs, &rest))
}

/// Whether one of the components of `path` is exactly `name`.
pub open spec fn has_component(path: Seq<char>, name: Seq<char>) -> bool {
    components(path).contains(name)
}

/// Whether some component of `path` equals `name`.
pub fn has_component_exec(path: &str, name: &str) -> (r: bool)
    ensures
        r == has_component(path@, name@),
{
    let (_abs, parts) = parse_path(path);
    let n = chars_of(name);
    let ghost dv = parts.deep_view();
    let mut i: usize = 0;
    while i < parts.len()
        invariant
            i <= parts.len(),
            dv == parts.deep_view(),
            dv == components(path@),
            n@ == name@,
            forall|m: int| 0 <= m < i ==> dv[m] != name@,
        decreases parts.len() - i,
    {
        assert(parts[i as int].deep_view() =~= parts[i as int]@);
        if chars_equal(parts[i].as_slice(), n.as_slice()) {
            assert(dv[i as int] == name@);
            assert(components(path@).contains(name@));
            return true;
        }
        i = i + 1;
    }
    false
}


/// The keys of the paths of `v`.
pub fn keys_of(v: &Vec<String>) -> (r: Vec<Vec<Vec<char>>>)
    ensures
        r.len() == v.len(),
        forall|i: int| 0 <= i < v.len() ==> (#[trigger] r@[i]).deep_view() == path_key(v@[i]@),
{
    let mut r: Vec<Vec<Vec<char>>> = Vec::new();
    let mut i: usize = 0;
    while i < v.len()
        invariant
            i <= v.len(),
            r.len() == i,
            forall|m: int| 0 <= m < i ==> (#[trigger] r@[m]).deep_view() == path_key(v@[m]@),
        decreases v.len() - i,
    {
        r.push(key_of(v[i].as_str()));
        i = i + 1;
    }
    r
}

/// Whether some key of `keys` equals `k`.
pub fn has_key(keys: &Vec<Vec<Vec<char>>>, k: &Vec<Vec<char>>) -> (r: bool)
    ensures
        r == exists|i: int| 0 <= i < keys.len() && (#[trigger] keys@[i]).deep_view() == k.deep_view(),
{
    let mut i: usize = 0;
    while i < keys.len()
        invariant
            i <= keys.len(),
            forall|m: int| 0 <= m < i ==> (#[trigger] keys@[m]).deep_view() != k.deep_view(),
        decreases keys.len() - i,
    {
        if comps_equal(&keys[i], k) {
            return true;
        }
        i = i + 1;
    }
    false
}

/// Whether some path of `v` is the same path as `p`.
pub fn holds_path_exec(keys: &Vec<Vec<Vec<char>>>, v: &Vec<String>, p: &str) -> (r: bool)
    requires
        keys.len() == v.len(),
        forall|i: int| 0 <= i < v.len() ==> (#[trigger] keys@[i]).deep_view() == path_key(v@[i]@),
    ensures
        r == holds_path(texts(v@), p@),
{
    let k = key_of(p);
    let r = has_key(keys, &k);
    proof {
        if r {
            let i = choose|i: int| 0 <= i < keys.len() && (#[trigger] keys@[i]).deep_view() == k.deep_view();
            assert(same_path(texts(v@)[i], p@));
        }
        if holds_path(texts(v@), p@) {
            let i = choose|i: int| 0 <= i < texts(v@).len() && same_path(#[trigger] texts(v@)[i], p@);
            assert(keys@[i].deep_view() == k.deep_view());
        }
    }
    r
}

/// The strings of `a` followed by those of `b`.
pub fn concat_strings(a: &Vec<String>, b: &Vec<String>) -> (r: Vec<String>)
    ensures
        texts(r@) == texts(a@) + texts(b@),
{
    let mut r: Vec<String> = Vec::new();
    let mut i: usize = 0;
    while i < a.len()
        invariant
            i <= a.len(),
            texts(r@) == texts(a@).take(i as int),
        decreases a.len() - i,
    {
        let ghost before = r@;
        let x = a[i].clone();
        r.push(x);
        assert(texts(r@) =~= texts(before).push(a@[i as int]@));
        assert(texts(r@) =~= texts(a@).take(i + 1));
        i = i + 1;
    }
    let mut j: usize = 0;
    while j < b.len()
        invariant
            j <= b.len(),
            i == a.len(),
            texts(r@) == texts(a@).take(i as int) + texts(b@).take(j as int),
        decreases b.len() - j,
    {
        let ghost before = r@;
        let x = b[j].clone();
        r.push(x);
        assert(texts(r@) =~= texts(before).push(b@[j as int]@));
        assert(texts(r@) =~= texts(a@).take(i as int) + texts(b@).take(j + 1));
        j = j + 1;
    }
    assert(texts(a@).take(a.len() as int) =~= texts(a@));
    assert(texts(b@).take(b.len() as int) =~= texts(b@));
    r
}

} // verus!
