//! Text with terminal styles attached, so that what is shown in color and
//! what is written to a file come from one source.

use vstd::prelude::*;
use crate::text::{chars_of, string_of};
use crate::paths::append_chars;

verus! {

/// How a piece of text is shown on a terminal.
#[derive(Debug, Clone, Copy, PartialEq, Eq, Structural)]
pub enum Style {
    Plain,
    Bold,
    Red,
    Green,
    Yellow,
    Blue,
    Dimmed,
    RedBold,
    GreenBold,
    YellowBold,
    BlueBold,
    CyanBold,
}

/// A piece of text with one style.
#[derive(Debug)]
pub struct Segment {
    pub text: String,
    pub style: Style,
}

/// The text of a piece and its style.
pub open spec fn seg_view(s: Segment) -> (Seq<char>, Style) {
    (s.text@, s.style)
}

/// The pieces of a line, as texts and styles.
pub open spec fn line_view(l: Seq<Segment>) -> Seq<(Seq<char>, Style)> {
    l.map_values(|s: Segment| seg_view(s))
}

/// The lines, as texts and styles.
pub open spec fn lines_view(ls: Seq<Vec<Segment>>) -> Seq<Seq<(Seq<char>, Style)>> {
    ls.map_values(|l: Vec<Segment>| line_view(l@))
}

/// The characters of a styled line without its styles.
pub open spec fn plain(l: Seq<(Seq<char>, Style)>) -> Seq<char>
    decreases l.len(),
{
    if l.len() == 0 {
        Seq::empty()
    } else {
        plain(l.drop_last()) + l.last().0
    }
}

/// The characters of styled lines without their styles, each line ended by a newline.
pub open spec fn plain_lines(ls: Seq<Seq<(Seq<char>, Style)>>) -> Seq<char>
    decreases ls.len(),
{
    if ls.len() == 0 {
        Seq::empty()
    } else {
        plain_lines(ls.drop_last()) + plain(ls.last()) + seq!['\n']
    }
}

/// The characters of two styled lines put together are those of the first
/// followed by those of the second.
pub proof fn lemma_plain_add(a: Seq<(Seq<char>, Style)>, b: Seq<(Seq<char>, Style)>)
    ensures
        plain(a + b) == plain(a) + plain(b),
    decreases b.len(),
{
    if b.len() == 0 {
        assert(a + b =~= a);
        assert(plain(b) =~= Seq::<char>::empty());
        assert(plain(a) + plain(b) =~= plain(a));
    } else {
        assert((a + b).drop_last() =~= a + b.drop_last());
        assert((a + b).last() == b.last());
        lemma_plain_add(a, b.drop_last());
        assert(plain(a + b) =~= plain(a) + plain(b));
    }
}

/// A piece of text in a style.
pub fn seg(text: &str, style: Style) -> (r: Segment)
    ensures
        seg_view(r) == (text@, style),
{
    Segment { text: string_of(chars_of(text).as_slice()), style }
}

/// Appends a piece to a line.
pub fn push_seg(out: &mut Vec<Segment>, s: Segment)
    ensures
        line_view(final(out)@) == line_view(old(out)@).push(seg_view(s)),
{
    let ghost before = out@;
    out.push(s);
    assert(line_view(out@) =~= line_view(before).push(seg_view(s)));
}

/// A line of one piece.
pub fn line1(text: &str, style: Style) -> (r: Vec<Segment>)
    ensures
        line_view(r@) == seq![(text@, style)],
{
    let mut v: Vec<Segment> = Vec::new();
    v.push(seg(text, style));
    assert(line_view(v@) =~= seq![(text@, style)]);
    v
}

/// Appends the characters of a styled line, without styles, to `out`.
pub fn push_plain(out: &mut Vec<char>, l: &Vec<Segment>)
    ensures
        final(out)@ == old(out)@ + plain(line_view(l@)),
{
    let ghost lv = line_view(l@);
    let mut i: usize = 0;
    while i < l.len()
        invariant
            i <= l.len(),
            lv == line_view(l@),
            out@ == old(out)@ + plain(lv.take(i as int)),
        decreases l.len() - i,
    {
        let t = chars_of(l[i].text.as_str());
        append_chars(out, t.as_slice());
        assert(lv.take(i + 1).drop_last() =~= lv.take(i as int));
        assert(out@ =~= old(out)@ + plain(lv.take(i + 1)));
        i = i + 1;
    }
    assert(lv.take(l.len() as int) =~= lv);
}

/// The characters of a styled line without its styles.
pub fn plain_text(l: &Vec<Segment>) -> (r: String)
    ensures
        r@ == plain(line_view(l@)),
{
    let mut out: Vec<char> = Vec::new();
    push_plain(&mut out, l);
    string_of(out.as_slice())
}

/// The characters of styled lines without their styles, each line ended by a newline.
pub fn plain_lines_text(ls: &Vec<Vec<Segment>>) -> (r: String)
    ensures
        r@ == plain_lines(lines_view(ls@)),
{
    let ghost v = lines_view(ls@);
    let mut out: Vec<char> = Vec::new();
    let mut i: usize = 0;
    while i < ls.len()
        invariant
            i <= ls.len(),
            v == lines_view(ls@),
            out@ == plain_lines(v.take(i as int)),
        decreases ls.len() - i,
    {
        push_plain(&mut out, &ls[i]);
        out.push('\n');
        assert(v.take(i + 1).drop_last() =~= v.take(i as int));
        assert(out@ =~= plain_lines(v.take(i + 1)));
        i = i + 1;
    }
    assert(v.take(ls.len() as int) =~= v);
    string_of(out.as_slice())
}


/// A copy of a styled line.
pub fn clone_line(l: &Vec<Segment>) -> (r: Vec<Segment>)
    ensures
        line_view(r@) == line_view(l@),
{
    let mut r: Vec<Segment> = Vec::new();
    let mut i: usize = 0;
    while i < l.len()
        invariant
            i <= l.len(),
            line_view(r@) == line_view(l@).take(i as int),
        decreases l.len() - i,
    {
        push_seg(&mut r, Segment { text: l[i].text.clone(), style: l[i].style });
        assert(line_view(l@).take(i + 1) =~= line_view(l@).take(i as int).push(seg_view(l@[i as int])));
        i = i + 1;
    }
    assert(line_view(l@).take(l.len() as int) =~= line_view(l@));
    r
}

/// Appends the pieces of `extra` to `out`.
pub fn extend_line(out: &mut Vec<Segment>, extra: Vec<Segment>)
    ensures
        line_view(final(out)@) == line_view(old(out)@) + line_view(extra@),
{
    let ghost start = line_view(out@);
    let ghost ev = line_view(extra@);
    let mut rest = extra;
    // reverse the pieces, then pop them onto `out` in their first order
    let mut rev: Vec<Segment> = Vec::new();
    while rest.len() > 0
        invariant
            ev == line_view(rest@) + line_view(rev@).reverse(),
        decreases rest.len(),
    {
        let ghost before_rest = rest@;
        let ghost before_rev = rev@;
        let x = rest.pop().unwrap();
        rev.push(x);
        proof {
            assert(before_rest =~= rest@.push(x));
            assert(line_view(before_rest) =~= line_view(rest@).push(seg_view(x)));
            assert(line_view(rev@) =~= line_view(before_rev).push(seg_view(x)));
            assert(line_view(rev@).reverse() =~= seq![seg_view(x)] + line_view(before_rev).reverse());
        }
    }
    assert(line_view(rest@) =~= Seq::<(Seq<char>, Style)>::empty());
    while rev.len() > 0
        invariant
            line_view(out@) + line_view(rev@).reverse() == start + ev,
        decreases rev.len(),
    {
        let ghost before_rev = rev@;
        let ghost before_out = line_view(out@);
        let x = rev.pop().unwrap();
        push_seg(out, x);
        proof {
            assert(before_rev =~= rev@.push(x));
            assert(line_view(before_rev) =~= line_view(rev@).push(seg_view(x)));
            assert(line_view(before_rev).reverse() =~= seq![seg_view(x)] + line_view(rev@).reverse());
            assert(line_view(out@) + line_view(rev@).reverse() =~= before_out + line_view(before_rev).reverse());
        }
    }
    assert(line_view(rev@).reverse() =~= Seq::<(Seq<char>, Style)>::empty());
    assert(line_view(out@) =~= start + ev);
}

} // verus!
