//! A model of Unix paths held as strings.
//!
//! A path is read as an optional leading root followed by the components
//! that lie between `/` separators; empty components and `.` components are
//! not components at all, except a `.` that a relative path starts with,
//! which stays, as in `std::path::Path::components`: `./a` and `a` are two
//! paths. Equality and order of paths go by this reading, as they do for
//! `PathBuf`.

use vstd::prelude::*;
use crate::text::{chars_of, string_of};

verus! {

/// The pieces of `s` between `/` characters, empty ones included.
pub open spec fn segments(s: Seq<char>) -> Seq<Seq<char>>
    decreases s.len(),
{
    if s.len() == 0 {
        seq![Seq::<char>::empty()]
    } else {
        let p = segments(s.drop_last());
        if s.last() == '/' {
            p.push(Seq::<char>::empty())
        } else {
            p.update(p.len() - 1, p.last().push(s.last()))
        }
    }
}

/// Whether a piece between separators names a component.
pub open spec fn keeps(c: Seq<char>) -> bool {
    c.len() > 0 && c != seq!['.']
}

/// `keeps` as a predicate value.
pub open spec fn keep_pred() -> spec_fn(Seq<char>) -> bool {
    |c: Seq<char>| keeps(c)
}

/// Whether the path `s` starts with a `.` component (`.`, `./a`).
pub open spec fn leading_dot(s: Seq<char>) -> bool {
    segments(s)[0] == seq!['.']
}

/// The components of the path `s`.
pub open spec fn components(s: Seq<char>) -> Seq<Seq<char>> {
    if leading_dot(s) {
        seq![seq!['.']] + segments(s).filter(keep_pred())
    } else {
        segments(s).filter(keep_pred())
    }
}

/// Whether `s` starts at the root.
pub open spec fn is_absolute(s: Seq<char>) -> bool {
    s.len() > 0 && s[0] == '/'
}

/// Components joined with `/`.
pub open spec fn join_slash(c: Seq<Seq<char>>) -> Seq<char>
    decreases c.len(),
{
    if c.len() == 0 {
        Seq::<char>::empty()
    } else if c.len() == 1 {
        c[0]
    } else {
        join_slash(c.drop_last()) + seq!['/'] + c.last()
    }
}

/// The text of the path with root flag `abs` and components `c`.
pub open spec fn render(abs: bool, c: Seq<Seq<char>>) -> Seq<char> {
    if abs {
        seq!['/'] + join_slash(c)
    } else {
        join_slash(c)
    }
}

pub proof fn lemma_segments_nonempty(s: Seq<char>)
    ensures
        segments(s).len() >= 1,
    decreases s.len(),
{
    if s.len() > 0 {
        lemma_segments_nonempty(s.drop_last());
    }
}

/// A copy of the characters `v`.
fn copy_chars(v: &Vec<char>) -> (r: Vec<char>)
    ensures
        r@ == v@,
{
    let mut r: Vec<char> = Vec::new();
    append_chars(&mut r, v.as_slice());
    r
}

/// The components of `s`, each as its characters, with whether `s` is absolute.
pub fn parse_path(s: &str) -> (r: (bool, Vec<Vec<char>>))
    ensures
        r.0 == is_absolute(s@),
        r.1.deep_view() == components(s@),
{
    let cs = chars_of(s);
    let mut done: Vec<Vec<char>> = Vec::new();
    let mut cur: Vec<char> = Vec::new();
    let mut first: Vec<char> = Vec::new();
    let mut slash_seen = false;
    let mut i: usize = 0;
    proof {
        assert(cs@.take(0) == Seq::<char>::empty());
        assert(segments(Seq::<char>::empty()).drop_last() =~= Seq::<Seq<char>>::empty());
        assert(Seq::<Seq<char>>::empty().filter(keep_pred()) =~= Seq::<Seq<char>>::empty()) by {
            reveal_with_fuel(Seq::filter, 1);
        }
    }
    while i < cs.len()
        invariant
            i <= cs.len(),
            cs@ == s@,
            segments(cs@.take(i as int)).len() >= 1,
            done.deep_view() == segments(cs@.take(i as int)).drop_last().filter(keep_pred()),
            cur@ == segments(cs@.take(i as int)).last(),
            !slash_seen ==> segments(cs@.take(i as int)).len() == 1,
            slash_seen ==> segments(cs@.take(i as int)).len() >= 2 && first@ == segments(cs@.take(i as int))[0],
        decreases cs.len() - i,
    {
        let ghost old_segs = segments(cs@.take(i as int));
        let c = cs[i];
        assert(cs@.take(i + 1).drop_last() == cs@.take(i as int));
        if c == '/' {
            let keep = cur.len() > 0 && !(cur.len() == 1 && cur[0] == '.');
            proof {
                assert(keep == keeps(cur@)) by {
                    if cur@.len() == 1 && cur@ == seq!['.'] {
                        assert(cur@[0] == '.');
                    }
                    if cur.len() == 1 && cur[0] == '.' {
                        assert(cur@ =~= seq!['.']);
                    }
                }
                assert(old_segs =~= old_segs.drop_last().push(old_segs.last()));
                old_segs.drop_last().lemma_filter_push(old_segs.last(), keep_pred());
            }
            let ghost d0 = done.deep_view();
            let ghost c0 = cur@;
            assert(cur.deep_view() =~= cur@);
            if !slash_seen {
                first = copy_chars(&cur);
                slash_seen = true;
            }
            if keep {
                done.push(cur);
                proof {
                    assert(done.deep_view() =~= d0.push(c0));
                }
            }
            cur = Vec::new();
            proof {
                let new_segs = segments(cs@.take(i + 1));
                assert(new_segs == old_segs.push(Seq::<char>::empty()));
                assert(new_segs.drop_last() =~= old_segs);
                assert(done.deep_view() =~= old_segs.filter(keep_pred()));
                assert(new_segs[0] == old_segs[0]);
            }
        } else {
            cur.push(c);
            proof {
                let new_segs = segments(cs@.take(i + 1));
                assert(new_segs.drop_last() =~= old_segs.drop_last());
                if slash_seen {
                    assert(new_segs[0] == old_segs[0]);
                }
            }
        }
        i = i + 1;
    }
    proof {
        assert(cs@.take(cs.len() as int) == cs@);
        let segs = segments(cs@);
        assert(segs =~= segs.drop_last().push(segs.last()));
        segs.drop_last().lemma_filter_push(segs.last(), keep_pred());
    }
    let cur_copy = copy_chars(&cur);
    let keep = cur.len() > 0 && !(cur.len() == 1 && cur[0] == '.');
    proof {
        if cur@.len() == 1 && cur@ == seq!['.'] {
            assert(cur@[0] == '.');
        }
        if cur.len() == 1 && cur[0] == '.' {
            assert(cur@ =~= seq!['.']);
        }
    }
    let ghost d0 = done.deep_view();
    let ghost c0 = cur@;
    assert(cur.deep_view() =~= cur@);
    if keep {
        done.push(cur);
        proof {
            assert(done.deep_view() =~= d0.push(c0));
        }
    }
    let abs = cs.len() > 0 && cs[0] == '/';
    let head = if slash_seen { first } else { cur_copy };
    let lead = head.len() == 1 && head[0] == '.';
    proof {
        assert(head@ == segments(s@)[0]);
        assert(lead == leading_dot(s@)) by {
            if head@ == seq!['.'] {
                assert(head@[0] == '.');
            }
            if lead {
                assert(head@ =~= seq!['.']);
            }
        }
        assert(done.deep_view() =~= segments(s@).filter(keep_pred()));
    }
    if lead {
        let mut dot: Vec<char> = Vec::new();
        dot.push('.');
        let ghost d0 = done.deep_view();
        let ghost raw0 = done@;
        assert(dot@ =~= seq!['.']);
        let ghost dv = dot@;
        done.insert(0, dot);
        proof {
            assert(done@ == raw0.insert(0, done@[0]));
            assert(done.deep_view().len() == d0.len() + 1);
            assert forall|j: int| 0 <= j < done.deep_view().len() implies
                #[trigger] done.deep_view()[j] == (seq![seq!['.']] + d0)[j] by {
                if j == 0 {
                    assert(done.deep_view()[0] == done@[0]@);
                } else {
                    assert(done@[j] == raw0[j - 1]);
                    assert(d0[j - 1] == raw0[j - 1]@);
                }
            }
            assert(done.deep_view() =~= seq![seq!['.']] + d0);
        }
    }
    (abs, done)
}


/// Appends the characters of `src` to `out`.
pub fn append_chars(out: &mut Vec<char>, src: &[char])
    ensures
        final(out)@ == old(out)@ + src@,
{
    let mut i: usize = 0;
    while i < src.len()
        invariant
            i <= src.len(),
            out@ == old(out)@ + src@.take(i as int),
        decreases src.len() - i,
    {
        out.push(src[i]);
        assert(src@.take(i + 1) == src@.take(i as int).push(src@[i as int]));
        i = i + 1;
    }
    assert(src@.take(src.len() as int) == src@);
}

/// The characters of the path with root flag `abs` and components `parts`.
pub fn render_chars(abs: bool, parts: &Vec<Vec<char>>) -> (r: Vec<char>)
    ensures
        r@ == render(abs, parts.deep_view()),
{
    let mut out: Vec<char> = Vec::new();
    let ghost dv = parts.deep_view();
    let mut i: usize = 0;
    while i < parts.len()
        invariant
            i <= parts.len(),
            dv == parts.deep_view(),
            out@ == join_slash(dv.take(i as int)),
        decreases parts.len() - i,
    {
        assert(dv.take(i + 1).drop_last() =~= dv.take(i as int));
        assert(parts[i as int].deep_view() =~= parts[i as int]@);
        if i > 0 {
            out.push('/');
        } else {
            assert(out@ =~= Seq::<char>::empty());
        }
        append_chars(&mut out, parts[i].as_slice());
        proof {
            if i == 0 {
                assert(dv.take(1).len() == 1);
                assert(out@ =~= dv.take(1)[0]);
            } else {
                assert(out@ =~= join_slash(dv.take(i + 1)));
            }
        }
        i = i + 1;
    }
    assert(dv.take(parts.len() as int) =~= dv);
    if abs {
        let mut r: Vec<char> = Vec::new();
        r.push('/');
        append_chars(&mut r, out.as_slice());
        r
    } else {
        out
    }
}

/// The text of the path with root flag `abs` and components `parts`.
pub fn render_path(abs: bool, parts: &Vec<Vec<char>>) -> (r: String)
    ensures
        r@ == render(abs, parts.deep_view()),
{
    let cs = render_chars(abs, parts);
    string_of(cs.as_slice())
}

/// `rel` appended to `base` as `PathBuf::join` appends it on Unix: an
/// absolute `rel` replaces `base`, and a separator goes between the two
/// unless `base` is empty or already ends in one.
pub open spec fn join_spec(base: Seq<char>, rel: Seq<char>) -> Seq<char> {
    if is_absolute(rel) {
        rel
    } else if base.len() > 0 && base.last() != '/' {
        base + seq!['/'] + rel
    } else {
        base + rel
    }
}

/// `rel` appended to `base` (`Path::join`).
pub fn join_path(base: &str, rel: &str) -> (r: String)
    ensures
        r@ == join_spec(base@, rel@),
{
    let b = chars_of(base);
    let c = chars_of(rel);
    if c.len() > 0 && c[0] == '/' {
        return string_of(c.as_slice());
    }
    let mut out = b;
    if out.len() > 0 && out[out.len() - 1] != '/' {
        out.push('/');
    }
    append_chars(&mut out, c.as_slice());
    string_of(out.as_slice())
}

/// The last component of `s`, unless there is none or it is `.` or `..`
/// (`Path::file_name`).
pub open spec fn file_name_spec(s: Seq<char>) -> Option<Seq<char>> {
    let c = components(s);
    if c.len() > 0 && c.last() != seq!['.', '.'] && c.last() != seq!['.'] {
        Some(c.last())
    } else {
        None
    }
}

/// The path without its last component, if it has one (`Path::parent`).
pub open spec fn parent_spec(s: Seq<char>) -> Option<Seq<char>> {
    let c = components(s);
    if c.len() > 0 {
        Some(render(is_absolute(s), c.drop_last()))
    } else {
        None
    }
}

/// Whether the characters of `v` are exactly `..`.
fn is_dot_dot(v: &Vec<char>) -> (r: bool)
    ensures
        r == (v@ == seq!['.', '.']),
{
    let r = v.len() == 2 && v[0] == '.' && v[1] == '.';
    proof {
        if r {
            assert(v@ =~= seq!['.', '.']);
        }
    }
    r
}

/// The last component of `path`, if it is a name.
pub fn file_name(path: &str) -> (r: Option<String>)
    ensures
        r matches Some(n) ==> file_name_spec(path@) == Some(n@),
        r is None ==> file_name_spec(path@) is None,
{
    let (_abs, parts) = parse_path(path);
    let n = parts.len();
    if n > 0 {
        assert(parts[n - 1].deep_view() =~= parts[n - 1]@);
    }
    if n > 0 && !is_dot_dot(&parts[n - 1]) && !(parts[n - 1].len() == 1 && parts[n - 1][0] == '.') {
        proof {
            if parts[n - 1]@ == seq!['.'] {
                assert(parts[n - 1]@[0] == '.');
            }
        }
        Some(string_of(parts[n - 1].as_slice()))
    } else {
        proof {
            if n > 0 && parts[n - 1].len() == 1 && parts[n - 1][0] == '.' {
                assert(parts[n - 1]@ =~= seq!['.']);
            }
        }
        None
    }
}

/// The parent of `path`, if it has one.
pub fn parent(path: &str) -> (r: Option<String>)
    ensures
        r matches Some(p) ==> parent_spec(path@) == Some(p@),
        r is None ==> parent_spec(path@) is None,
{
    let (abs, mut parts) = parse_path(path);
    if parts.len() == 0 {
        return None;
    }
    let ghost before = parts.deep_view();
    parts.pop();
    assert(parts.deep_view() =~= before.drop_last());
    Some(render_path(abs, &parts))
}

} // verus!
