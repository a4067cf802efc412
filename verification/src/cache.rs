//! A small map keyed by paths, with `PathBuf` equality on keys.

use vstd::prelude::*;
use crate::order::{comps_equal, key_of, path_key};

verus! {

/// The map that a list of entries stands for: a later entry for a key
/// replaces an earlier one.
pub open spec fn assoc<V>(s: Seq<(Seq<Seq<char>>, V)>) -> Map<Seq<Seq<char>>, V>
    decreases s.len(),
{
    if s.len() == 0 {
        Map::empty()
    } else {
        assoc(s.drop_last()).insert(s.last().0, s.last().1)
    }
}

/// Values remembered per path.
pub struct PathCache<V> {
    entries: Vec<(Vec<Vec<char>>, V)>,
}

impl<V> PathCache<V> {
    pub closed spec fn entry_views(&self) -> Seq<(Seq<Seq<char>>, V)> {
        self.entries@.map_values(|e: (Vec<Vec<char>>, V)| (e.0.deep_view(), e.1))
    }

    /// What is remembered, by path key.
    pub closed spec fn view(&self) -> Map<Seq<Seq<char>>, V> {
        assoc(self.entry_views())
    }

    /// A cache that remembers nothing.
    pub fn new() -> (r: Self)
        ensures
            r.view() == Map::<Seq<Seq<char>>, V>::empty(),
    {
        let r = PathCache { entries: Vec::new() };
        assert(r.entry_views() =~= Seq::<(Seq<Seq<char>>, V)>::empty());
        r
    }

    /// What is remembered for `path`, if anything.
    pub fn get(&self, path: &str) -> (r: Option<&V>)
        ensures
            r matches Some(v) ==> self.view().contains_key(path_key(path@)) && self.view()[path_key(path@)] == *v,
            r is None ==> !self.view().contains_key(path_key(path@)),
    {
        let k = key_of(path);
        let ghost kv = path_key(path@);
        let ghost ev = self.entry_views();
        let mut i: usize = self.entries.len();
        assert(ev.take(i as int) =~= ev);
        while i > 0
            invariant
                i <= self.entries.len(),
                ev == self.entry_views(),
                k.deep_view() == kv,
                kv == path_key(path@),
                assoc(ev).contains_key(kv) == assoc(ev.take(i as int)).contains_key(kv),
                assoc(ev).contains_key(kv) ==> assoc(ev)[kv] == assoc(ev.take(i as int))[kv],
            decreases i,
        {
            let j = i - 1;
            assert(ev.take(i as int).drop_last() =~= ev.take(j as int));
            assert(ev.take(i as int).last() == ev[j as int]);
            assert(ev[j as int] == (self.entries@[j as int].0.deep_view(), self.entries@[j as int].1));
            assert(assoc(ev.take(i as int)) == assoc(ev.take(j as int)).insert(ev[j as int].0, ev[j as int].1));
            if comps_equal(&self.entries[j].0, &k) {
                return Some(&self.entries[j].1);
            }
            i = j;
        }
        assert(ev.take(0) =~= Seq::<(Seq<Seq<char>>, V)>::empty());
        None
    }

    /// Remembers `v` for `path`, in place of what was remembered for it.
    pub fn insert(&mut self, path: &str, v: V)
        ensures
            final(self).view() == old(self).view().insert(path_key(path@), v),
    {
        let ghost ev = self.entry_views();
        let k = key_of(path);
        self.entries.push((k, v));
        assert(self.entry_views() =~= ev.push((path_key(path@), v)));
        assert(self.entry_views().drop_last() =~= ev);
    }
}

/// A value that `insert` stored for a path is what `get` then gives for
/// that path, and other paths keep what they had.
pub proof fn cache_read_after_write<V>(before: Map<Seq<Seq<char>>, V>, p: Seq<char>, q: Seq<char>, v: V)
    ensures
        before.insert(path_key(p), v)[path_key(p)] == v,
        path_key(q) != path_key(p) ==> (before.insert(path_key(p), v).contains_key(path_key(q)) == before.contains_key(path_key(q))),
        path_key(q) != path_key(p) && before.contains_key(path_key(q)) ==> before.insert(path_key(p), v)[path_key(q)] == before[path_key(q)],
{
}

} // verus!
