//! Line diffs of two texts, shown with line numbers and inline emphasis.

use vstd::prelude::*;
use crate::text::{chars_of, string_of};
use crate::paths::append_chars;
use crate::styled::{Segment, Style, lemma_plain_add, line_view, plain, push_seg, seg, seg_view};

verus! {

/// The kind of a line in a diff.
#[derive(Debug, Clone, Copy, PartialEq, Eq, Structural)]
pub enum ChangeKind {
    Equal,
    Delete,
    Insert,
}

/// One line of a line diff.
#[derive(Debug)]
pub struct DiffChange {
    /// Whether the line is kept, deleted or inserted.
    pub kind: ChangeKind,
    /// Its index among the lines of the old text, if it has one there.
    pub old_index: Option<usize>,
    /// Its index among the lines of the new text, if it has one there.
    pub new_index: Option<usize>,
    /// Its pieces, each with whether it is emphasized as an inline change.
    pub values: Vec<(bool, String)>,
    /// Whether the line has no newline at its end.
    pub missing_newline: bool,
}

/// A diff line as plain values.
pub struct ChangeView {
    pub kind: ChangeKind,
    pub old_index: Option<usize>,
    pub new_index: Option<usize>,
    pub values: Seq<(bool, Seq<char>)>,
    pub missing_newline: bool,
}

pub open spec fn change_view(c: DiffChange) -> ChangeView {
    ChangeView {
        kind: c.kind,
        old_index: c.old_index,
        new_index: c.new_index,
        values: c.values@.map_values(|v: (bool, String)| (v.0, v.1@)),
        missing_newline: c.missing_newline,
    }
}

pub open spec fn group_view(g: Seq<DiffChange>) -> Seq<ChangeView> {
    g.map_values(|c: DiffChange| change_view(c))
}

pub open spec fn groups_view(gs: Seq<Vec<DiffChange>>) -> Seq<Seq<ChangeView>> {
    gs.map_values(|g: Vec<DiffChange>| group_view(g@))
}

/// A diff line without its inline emphasis: its kind, its indexes in the
/// old and the new text, its text, and whether it lacks a newline.
pub type LineSkeleton = (ChangeKind, Option<usize>, Option<usize>, Seq<char>, bool);

/// The pieces of a line put together.
pub open spec fn joined(vs: Seq<(bool, Seq<char>)>) -> Seq<char>
    decreases vs.len(),
{
    if vs.len() == 0 {
        Seq::empty()
    } else {
        joined(vs.drop_last()) + vs.last().1
    }
}

/// A diff line without its emphasis.
pub open spec fn skeleton(c: ChangeView) -> LineSkeleton {
    (c.kind, c.old_index, c.new_index, joined(c.values), c.missing_newline)
}

pub open spec fn group_skeletons(g: Seq<ChangeView>) -> Seq<LineSkeleton> {
    g.map_values(|c: ChangeView| skeleton(c))
}

pub open spec fn skeletons(gs: Seq<Seq<ChangeView>>) -> Seq<Seq<LineSkeleton>> {
    gs.map_values(|g: Seq<ChangeView>| group_skeletons(g))
}

/// The grouped line diff of `old` and `new`, with `context` unchanged lines
/// around each change, each line without its emphasis.
pub uninterp spec fn line_diff(old: Seq<char>, new: Seq<char>, context: usize) -> Seq<Seq<LineSkeleton>>;

/// `similar::TextDiff::from_lines`, `grouped_ops` and `iter_inline_changes`:
/// the diff of `old` and `new` by lines, in groups of changed lines with
/// `context` unchanged lines around them, each line split into pieces with
/// the inline changes emphasized. The line diff takes no time limit, so the
/// lines (kind, indexes, text, missing newline) are a function of the
/// arguments, named `line_diff`; the pieces of a line join to its text. The
/// inline pass stops at a time limit, so nothing is stated of where the
/// pieces split or which are emphasized. Equal texts give one run of equal
/// lines at most, which grouping drops: no groups. Grouping doubles
/// `context`, which overflows (a panic where overflow is checked) above
/// half of `usize::MAX`.
#[verifier::external_body]
fn inline_diff_groups(old: &str, new: &str, context: usize) -> (r: Vec<Vec<DiffChange>>)
    requires
        context <= usize::MAX / 2,
    ensures
        skeletons(groups_view(r@)) == line_diff(old@, new@, context),
        old@ == new@ ==> r@.len() == 0,
{
    let diff = similar::TextDiff::from_lines(old, new);
    let groups = diff.grouped_ops(context);
    groups.iter().map(|group| group.iter().flat_map(|op| diff.iter_inline_changes(op)).map(|c| DiffChange {
        kind: match c.tag() {
            similar::ChangeTag::Equal => ChangeKind::Equal,
            similar::ChangeTag::Delete => ChangeKind::Delete,
            similar::ChangeTag::Insert => ChangeKind::Insert,
        },
        old_index: c.old_index(),
        new_index: c.new_index(),
        values: c.values().iter().map(|v| (v.0, v.1.to_string())).collect(),
        missing_newline: c.missing_newline(),
    }).collect()).collect()
}

/// The decimal digits of `n`.
pub open spec fn decimal(n: nat) -> Seq<char>
    decreases n,
{
    if n < 10 {
        seq![digit(n)]
    } else {
        decimal(n / 10) + seq![digit(n % 10)]
    }
}

pub open spec fn digit(d: nat) -> char {
    if d == 0 { '0' } else if d == 1 { '1' } else if d == 2 { '2' } else if d == 3 { '3' }
    else if d == 4 { '4' } else if d == 5 { '5' } else if d == 6 { '6' } else if d == 7 { '7' }
    else if d == 8 { '8' } else { '9' }
}

fn digit_char(d: u128) -> (c: char)
    requires
        d < 10,
    ensures
        c == digit(d as nat),
{
    if d == 0 { '0' } else if d == 1 { '1' } else if d == 2 { '2' } else if d == 3 { '3' }
    else if d == 4 { '4' } else if d == 5 { '5' } else if d == 6 { '6' } else if d == 7 { '7' }
    else if d == 8 { '8' } else { '9' }
}

/// The decimal digits of `n`.
pub fn decimal_chars(n: u128) -> (r: Vec<char>)
    ensures
        r@ == decimal(n as nat),
    decreases n,
{
    if n < 10 {
        let mut v: Vec<char> = Vec::new();
        v.push(digit_char(n));
        assert(v@ =~= decimal(n as nat));
        v
    } else {
        let mut v = decimal_chars(n / 10);
        v.push(digit_char(n % 10));
        assert(v@ =~= decimal(n as nat));
        v
    }
}

/// `s` preceded by spaces up to `width` characters (`{:>width}`).
pub open spec fn pad_left(s: Seq<char>, width: nat) -> Seq<char> {
    if s.len() < width {
        Seq::new((width - s.len()) as nat, |i: int| ' ') + s
    } else {
        s
    }
}

/// The line number shown for a diff line: one more than its index in the
/// old text (deleted and kept lines) or the new text (inserted lines).
pub open spec fn line_number(c: ChangeView) -> Seq<char> {
    let idx = match c.kind {
        ChangeKind::Insert => c.new_index,
        _ => c.old_index,
    };
    match idx {
        Some(i) => decimal((i + 1) as nat),
        None => Seq::empty(),
    }
}

/// The marker of a diff line and its style.
pub open spec fn marker(k: ChangeKind) -> (Seq<char>, Style) {
    match k {
        ChangeKind::Delete => (seq!['-'], Style::Red),
        ChangeKind::Insert => (seq!['+'], Style::Green),
        ChangeKind::Equal => (seq![' '], Style::Dimmed),
    }
}

/// The style of a piece of a diff line.
pub open spec fn value_style(k: ChangeKind, emphasized: bool) -> Style {
    match k {
        ChangeKind::Delete => if emphasized { Style::RedBold } else { Style::Red },
        ChangeKind::Insert => if emphasized { Style::GreenBold } else { Style::Green },
        ChangeKind::Equal => Style::Dimmed,
    }
}

/// How one diff line is shown: `{number:>4} | {marker} ` then its pieces,
/// then a newline if the line lacks one.
pub open spec fn change_spec(c: ChangeView) -> Seq<(Seq<char>, Style)> {
    seq![(pad_left(line_number(c), 4), Style::Dimmed), (" | "@, Style::Plain), marker(c.kind), (" "@, Style::Plain)]
        + c.values.map_values(|v: (bool, Seq<char>)| (v.1, value_style(c.kind, v.0)))
        + if c.missing_newline { seq![("\n"@, Style::Plain)] } else { Seq::empty() }
}

/// How the lines of one group are shown.
pub open spec fn changes_spec(cs: Seq<ChangeView>) -> Seq<(Seq<char>, Style)>
    decreases cs.len(),
{
    if cs.len() == 0 {
        Seq::empty()
    } else {
        changes_spec(cs.drop_last()) + change_spec(cs.last())
    }
}

/// The line of 80 dashes that separates groups.
pub open spec fn separator() -> Seq<char> {
    Seq::new(80, |i: int| '-') + seq!['\n']
}

/// How the groups are shown, a separator between each two.
pub open spec fn groups_spec(gs: Seq<Seq<ChangeView>>) -> Seq<(Seq<char>, Style)>
    decreases gs.len(),
{
    if gs.len() == 0 {
        Seq::empty()
    } else {
        groups_spec(gs.drop_last())
            + if gs.len() > 1 { seq![(separator(), Style::Plain)] } else { Seq::empty() }
            + changes_spec(gs.last())
    }
}

/// How the diff of a file is shown: a `File:` line, then the groups.
pub open spec fn diff_spec(filename: Seq<char>, gs: Seq<Seq<ChangeView>>) -> Seq<(Seq<char>, Style)> {
    seq![("File: "@ + filename + seq!['\n'], Style::Plain)] + groups_spec(gs)
}

fn padded_number(c: &DiffChange) -> (r: String)
    ensures
        r@ == pad_left(line_number(change_view(*c)), 4),
{
    let idx = match c.kind {
        ChangeKind::Insert => c.new_index,
        _ => c.old_index,
    };
    let digits: Vec<char> = match idx {
        Some(i) => decimal_chars(i as u128 + 1),
        None => Vec::new(),
    };
    let mut out: Vec<char> = Vec::new();
    let mut pad: usize = 0;
    while pad + digits.len() < 4
        invariant
            pad == 0 || pad + digits.len() <= 4,
            out@ == Seq::new(pad as nat, |i: int| ' '),
        decreases 4 - pad,
    {
        out.push(' ');
        assert(out@ =~= Seq::new((pad + 1) as nat, |i: int| ' '));
        pad = pad + 1;
    }
    append_chars(&mut out, digits.as_slice());
    proof {
        let ln = line_number(change_view(*c));
        assert(digits@ == ln);
        if digits.len() < 4 {
            assert(out@ =~= pad_left(ln, 4));
        } else {
            assert(out@ =~= ln);
        }
    }
    string_of(out.as_slice())
}

fn push_change(out: &mut Vec<Segment>, c: &DiffChange)
    ensures
        line_view(final(out)@) == line_view(old(out)@) + change_spec(change_view(*c)),
{
    let ghost cv = change_view(*c);
    let ghost start = line_view(out@);
    push_seg(out, Segment { text: padded_number(c), style: Style::Dimmed });
    push_seg(out, seg(" | ", Style::Plain));
    proof {
        reveal_strlit("-");
        reveal_strlit("+");
        reveal_strlit(" ");
    }
    let m = match c.kind {
        ChangeKind::Delete => seg("-", Style::Red),
        ChangeKind::Insert => seg("+", Style::Green),
        ChangeKind::Equal => seg(" ", Style::Dimmed),
    };
    assert(seg_view(m) == marker(cv.kind));
    push_seg(out, m);
    push_seg(out, seg(" ", Style::Plain));
    proof {
        assert(line_view(out@) =~= start + seq![(pad_left(line_number(cv), 4), Style::Dimmed), (" | "@, Style::Plain), marker(cv.kind), (" "@, Style::Plain)]);
    }
    let ghost head = line_view(out@);
    let ghost vals = cv.values.map_values(|v: (bool, Seq<char>)| (v.1, value_style(cv.kind, v.0)));
    let mut i: usize = 0;
    while i < c.values.len()
        invariant
            i <= c.values.len(),
            cv == change_view(*c),
            vals == cv.values.map_values(|v: (bool, Seq<char>)| (v.1, value_style(cv.kind, v.0))),
            line_view(out@) == head + vals.take(i as int),
        decreases c.values.len() - i,
    {
        let style = match c.kind {
            ChangeKind::Delete => if c.values[i].0 { Style::RedBold } else { Style::Red },
            ChangeKind::Insert => if c.values[i].0 { Style::GreenBold } else { Style::Green },
            ChangeKind::Equal => Style::Dimmed,
        };
        push_seg(out, seg(c.values[i].1.as_str(), style));
        assert(vals.take(i + 1) =~= vals.take(i as int).push(vals[i as int]));
        i = i + 1;
    }
    assert(vals.take(c.values.len() as int) =~= vals);
    if c.missing_newline {
        push_seg(out, seg("\n", Style::Plain));
    }
    assert(line_view(out@) =~= start + change_spec(cv));
}

/// The line number of a diff line without emphasis.
pub open spec fn skeleton_number(c: LineSkeleton) -> Seq<char> {
    let idx = match c.0 {
        ChangeKind::Insert => c.2,
        _ => c.1,
    };
    match idx {
        Some(i) => decimal((i + 1) as nat),
        None => Seq::empty(),
    }
}

/// The text of one diff line.
pub open spec fn skeleton_line(c: LineSkeleton) -> Seq<char> {
    pad_left(skeleton_number(c), 4) + " | "@ + marker(c.0).0 + " "@ + c.3 + if c.4 { "\n"@ } else { Seq::empty() }
}

pub open spec fn skeleton_lines(cs: Seq<LineSkeleton>) -> Seq<char>
    decreases cs.len(),
{
    if cs.len() == 0 {
        Seq::empty()
    } else {
        skeleton_lines(cs.drop_last()) + skeleton_line(cs.last())
    }
}

pub open spec fn skeleton_groups(gs: Seq<Seq<LineSkeleton>>) -> Seq<char>
    decreases gs.len(),
{
    if gs.len() == 0 {
        Seq::empty()
    } else {
        skeleton_groups(gs.drop_last()) + (if gs.len() > 1 { separator() } else { Seq::empty() }) + skeleton_lines(gs.last())
    }
}

/// The text of the diff of the file `filename` with the line groups `gs`,
/// without styles.
pub open spec fn diff_text(filename: Seq<char>, gs: Seq<Seq<LineSkeleton>>) -> Seq<char> {
    "File: "@ + filename + seq!['\n'] + skeleton_groups(gs)
}

proof fn lemma_values_plain(vals: Seq<(bool, Seq<char>)>, k: ChangeKind)
    ensures
        plain(vals.map_values(|v: (bool, Seq<char>)| (v.1, value_style(k, v.0)))) == joined(vals),
    decreases vals.len(),
{
    let m = vals.map_values(|v: (bool, Seq<char>)| (v.1, value_style(k, v.0)));
    if vals.len() > 0 {
        let m0 = vals.drop_last().map_values(|v: (bool, Seq<char>)| (v.1, value_style(k, v.0)));
        assert(m.drop_last() =~= m0);
        lemma_values_plain(vals.drop_last(), k);
    } else {
        assert(m =~= Seq::<(Seq<char>, Style)>::empty());
    }
}

proof fn lemma_change_plain(c: ChangeView)
    ensures
        plain(change_spec(c)) == skeleton_line(skeleton(c)),
{
    let head = seq![(pad_left(line_number(c), 4), Style::Dimmed), (" | "@, Style::Plain), marker(c.kind), (" "@, Style::Plain)];
    let vals = c.values.map_values(|v: (bool, Seq<char>)| (v.1, value_style(c.kind, v.0)));
    let tail: Seq<(Seq<char>, Style)> = if c.missing_newline { seq![("\n"@, Style::Plain)] } else { Seq::empty() };
    assert(change_spec(c) == head + vals + tail);
    lemma_plain_add(head + vals, tail);
    lemma_plain_add(head, vals);
    lemma_values_plain(c.values, c.kind);
    assert(head.drop_last().drop_last().drop_last().drop_last() =~= Seq::<(Seq<char>, Style)>::empty());
    assert(plain(head) =~= pad_left(line_number(c), 4) + " | "@ + marker(c.kind).0 + " "@) by {
        reveal_with_fuel(plain, 5);
    }
    assert(plain(tail) =~= if c.missing_newline { "\n"@ } else { Seq::<char>::empty() }) by {
        reveal_with_fuel(plain, 2);
    }
    assert(line_number(c) == skeleton_number(skeleton(c)));
}

proof fn lemma_changes_plain(cs: Seq<ChangeView>)
    ensures
        plain(changes_spec(cs)) == skeleton_lines(group_skeletons(cs)),
    decreases cs.len(),
{
    if cs.len() == 0 {
        assert(group_skeletons(cs) =~= Seq::<LineSkeleton>::empty());
    } else {
        lemma_changes_plain(cs.drop_last());
        lemma_plain_add(changes_spec(cs.drop_last()), change_spec(cs.last()));
        lemma_change_plain(cs.last());
        assert(group_skeletons(cs).drop_last() =~= group_skeletons(cs.drop_last()));
    }
}

proof fn lemma_groups_plain(gs: Seq<Seq<ChangeView>>)
    ensures
        plain(groups_spec(gs)) == skeleton_groups(skeletons(gs)),
    decreases gs.len(),
{
    if gs.len() == 0 {
        assert(skeletons(gs) =~= Seq::<Seq<LineSkeleton>>::empty());
    } else {
        let sep: Seq<(Seq<char>, Style)> = if gs.len() > 1 { seq![(separator(), Style::Plain)] } else { Seq::empty() };
        lemma_groups_plain(gs.drop_last());
        lemma_plain_add(groups_spec(gs.drop_last()) + sep, changes_spec(gs.last()));
        lemma_plain_add(groups_spec(gs.drop_last()), sep);
        lemma_changes_plain(gs.last());
        assert(plain(sep) =~= if gs.len() > 1 { separator() } else { Seq::<char>::empty() }) by {
            reveal_with_fuel(plain, 2);
        }
        assert(skeletons(gs).drop_last() =~= skeletons(gs.drop_last()));
        assert(skeletons(gs).last() == group_skeletons(gs.last()));
    }
}

/// The text of a diff, without its styles, is fixed by its lines without
/// their emphasis: where the inline changes are emphasized changes the
/// styles alone.
pub proof fn diff_text_fixed_by_lines(filename: Seq<char>, gs: Seq<Seq<ChangeView>>)
    ensures
        plain(diff_spec(filename, gs)) == diff_text(filename, skeletons(gs)),
{
    let head = seq![("File: "@ + filename + seq!['\n'], Style::Plain)];
    lemma_plain_add(head, groups_spec(gs));
    lemma_groups_plain(gs);
    assert(plain(head) =~= "File: "@ + filename + seq!['\n']) by {
        reveal_with_fuel(plain, 2);
    }
}

/// How many pieces of a styled line are `s`.
pub open spec fn count_seg(l: Seq<(Seq<char>, Style)>, s: (Seq<char>, Style)) -> nat
    decreases l.len(),
{
    if l.len() == 0 {
        0
    } else {
        count_seg(l.drop_last(), s) + if l.last() == s { 1nat } else { 0nat }
    }
}

/// The bar that stands between a line number and its marker, once in every
/// numbered line of a diff.
pub open spec fn number_bar() -> (Seq<char>, Style) {
    (" | "@, Style::Plain)
}

/// How many lines the groups `gs` hold in all.
pub open spec fn total_lines(gs: Seq<Seq<LineSkeleton>>) -> nat
    decreases gs.len(),
{
    if gs.len() == 0 {
        0
    } else {
        total_lines(gs.drop_last()) + gs.last().len()
    }
}

proof fn lemma_count_add(a: Seq<(Seq<char>, Style)>, b: Seq<(Seq<char>, Style)>, s: (Seq<char>, Style))
    ensures
        count_seg(a + b, s) == count_seg(a, s) + count_seg(b, s),
    decreases b.len(),
{
    if b.len() == 0 {
        assert(a + b =~= a);
    } else {
        assert((a + b).drop_last() =~= a + b.drop_last());
        assert((a + b).last() == b.last());
        lemma_count_add(a, b.drop_last(), s);
    }
}

proof fn lemma_count_values(vals: Seq<(bool, Seq<char>)>, k: ChangeKind)
    ensures
        count_seg(vals.map_values(|v: (bool, Seq<char>)| (v.1, value_style(k, v.0))), number_bar()) == 0,
    decreases vals.len(),
{
    let m = vals.map_values(|v: (bool, Seq<char>)| (v.1, value_style(k, v.0)));
    if vals.len() > 0 {
        assert(m.drop_last() =~= vals.drop_last().map_values(|v: (bool, Seq<char>)| (v.1, value_style(k, v.0))));
        lemma_count_values(vals.drop_last(), k);
        assert(m.last().1 != Style::Plain);
    }
}

proof fn lemma_count_change(c: ChangeView)
    ensures
        count_seg(change_spec(c), number_bar()) == 1,
{
    reveal_strlit(" | ");
    reveal_strlit(" ");
    reveal_strlit("\n");
    let head = seq![(pad_left(line_number(c), 4), Style::Dimmed), (" | "@, Style::Plain), marker(c.kind), (" "@, Style::Plain)];
    let vals = c.values.map_values(|v: (bool, Seq<char>)| (v.1, value_style(c.kind, v.0)));
    let tail: Seq<(Seq<char>, Style)> = if c.missing_newline { seq![("\n"@, Style::Plain)] } else { Seq::empty() };
    assert(change_spec(c) == head + vals + tail);
    lemma_count_add(head + vals, tail, number_bar());
    lemma_count_add(head, vals, number_bar());
    lemma_count_values(c.values, c.kind);
    assert(marker(c.kind).1 != Style::Plain);
    assert((" "@).len() != (" | "@).len());
    assert(count_seg(head, number_bar()) == 1) by {
        reveal_with_fuel(count_seg, 5);
    }
    assert(count_seg(tail, number_bar()) == 0) by {
        reveal_with_fuel(count_seg, 2);
    }
}

proof fn lemma_count_changes(cs: Seq<ChangeView>)
    ensures
        count_seg(changes_spec(cs), number_bar()) == cs.len(),
    decreases cs.len(),
{
    if cs.len() > 0 {
        lemma_count_changes(cs.drop_last());
        lemma_count_add(changes_spec(cs.drop_last()), change_spec(cs.last()), number_bar());
        lemma_count_change(cs.last());
    }
}

proof fn lemma_count_groups(gs: Seq<Seq<ChangeView>>)
    ensures
        count_seg(groups_spec(gs), number_bar()) == total_lines(skeletons(gs)),
    decreases gs.len(),
{
    if gs.len() > 0 {
        reveal_strlit(" | ");
        let sep: Seq<(Seq<char>, Style)> = if gs.len() > 1 { seq![(separator(), Style::Plain)] } else { Seq::empty() };
        lemma_count_groups(gs.drop_last());
        lemma_count_add(groups_spec(gs.drop_last()) + sep, changes_spec(gs.last()), number_bar());
        lemma_count_add(groups_spec(gs.drop_last()), sep, number_bar());
        lemma_count_changes(gs.last());
        assert(separator().len() == 81);
        assert(count_seg(sep, number_bar()) == 0) by {
            reveal_with_fuel(count_seg, 2);
        }
        assert(skeletons(gs).drop_last() =~= skeletons(gs.drop_last()));
        assert(skeletons(gs).last().len() == gs.last().len());
    }
}

/// Every line of every group is shown: a rendered diff holds one numbered
/// line (one number bar) for each line of each of its groups, so no line
/// of a hunk, whether kept, deleted or inserted, is left out.
pub proof fn every_diff_line_shown(filename: Seq<char>, gs: Seq<Seq<ChangeView>>)
    ensures
        count_seg(diff_spec(filename, gs), number_bar()) == total_lines(skeletons(gs)),
{
    reveal_strlit(" | ");
    reveal_strlit("File: ");
    let head = seq![("File: "@ + filename + seq!['\n'], Style::Plain)];
    lemma_count_add(head, groups_spec(gs), number_bar());
    lemma_count_groups(gs);
    assert(("File: "@ + filename + seq!['\n']).len() != (" | "@).len());
    assert(count_seg(head, number_bar()) == 0) by {
        reveal_with_fuel(count_seg, 2);
    }
}

/// How the diff of the file `filename` with line groups `groups` is shown.
pub fn render_diff(filename: &str, groups: &Vec<Vec<DiffChange>>) -> (r: Vec<Segment>)
    ensures
        line_view(r@) == diff_spec(filename@, groups_view(groups@)),
{
    let ghost gv = groups_view(groups@);
    let mut out: Vec<Segment> = Vec::new();
    let mut head = chars_of("File: ");
    let name = chars_of(filename);
    append_chars(&mut head, name.as_slice());
    head.push('\n');
    assert(head@ =~= "File: "@ + filename@ + seq!['\n']);
    let htext = string_of(head.as_slice());
    assert(line_view(out@) =~= Seq::<(Seq<char>, Style)>::empty());
    let hseg = Segment { text: htext, style: Style::Plain };
    assert(seg_view(hseg) == ("File: "@ + filename@ + seq!['\n'], Style::Plain));
    push_seg(&mut out, hseg);
    let ghost first = line_view(out@);
    assert(first =~= seq![("File: "@ + filename@ + seq!['\n'], Style::Plain)]);
    let mut g: usize = 0;
    while g < groups.len()
        invariant
            g <= groups.len(),
            gv == groups_view(groups@),
            line_view(out@) == first + groups_spec(gv.take(g as int)),
        decreases groups.len() - g,
    {
        let ghost before_group = line_view(out@);
        if g > 0 {
            let mut dashes: Vec<char> = Vec::new();
            let mut k: usize = 0;
            while k < 80
                invariant
                    k <= 80,
                    dashes@ == Seq::new(k as nat, |i: int| '-'),
                decreases 80 - k,
            {
                dashes.push('-');
                assert(dashes@ =~= Seq::new((k + 1) as nat, |i: int| '-'));
                k = k + 1;
            }
            dashes.push('\n');
            assert(dashes@ =~= separator());
            push_seg(&mut out, Segment { text: string_of(dashes.as_slice()), style: Style::Plain });
        }
        let ghost after_sep = line_view(out@);
        assert(after_sep =~= before_group + if g > 0 { seq![(separator(), Style::Plain)] } else { Seq::empty() });
        let group = &groups[g];
        let ghost grv = gv[g as int];
        assert(grv == group_view(group@));
        let mut c: usize = 0;
        while c < group.len()
            invariant
                c <= group.len(),
                grv == group_view(group@),
                line_view(out@) == after_sep + changes_spec(grv.take(c as int)),
            decreases group.len() - c,
        {
            push_change(&mut out, &group[c]);
            assert(grv.take(c + 1).drop_last() =~= grv.take(c as int));
            assert(line_view(out@) =~= after_sep + changes_spec(grv.take(c + 1)));
            c = c + 1;
        }
        assert(grv.take(group.len() as int) =~= grv);
        assert(gv.take(g + 1).drop_last() =~= gv.take(g as int));
        assert(line_view(out@) =~= first + groups_spec(gv.take(g + 1)));
        g = g + 1;
    }
    assert(gv.take(groups.len() as int) =~= gv);
    out
}

/// The diff of `text1` and `text2` by lines, shown as the diff of the file
/// `filename` with `context` unchanged lines around each change.
pub fn generate_diff(text1: &str, text2: &str, filename: &str, context: usize) -> (r: Vec<Segment>)
    requires
        context <= usize::MAX / 2,
    ensures
        exists|gs: Seq<Seq<ChangeView>>| line_view(r@) == diff_spec(filename@, gs) && skeletons(gs) == line_diff(text1@, text2@, context),
        plain(line_view(r@)) == diff_text(filename@, line_diff(text1@, text2@, context)),
        text1@ == text2@ ==> line_view(r@) == seq![("File: "@ + filename@ + seq!['\n'], Style::Plain)],
        count_seg(line_view(r@), number_bar()) == total_lines(line_diff(text1@, text2@, context)),
{
    let groups = inline_diff_groups(text1, text2, context);
    let r = render_diff(filename, &groups);
    proof {
        diff_text_fixed_by_lines(filename@, groups_view(groups@));
        every_diff_line_shown(filename@, groups_view(groups@));
        if text1@ == text2@ {
            assert(groups_view(groups@) =~= Seq::<Seq<ChangeView>>::empty());
            assert(groups_spec(groups_view(groups@)) =~= Seq::<(Seq<char>, Style)>::empty());
            assert(line_view(r@) =~= seq![("File: "@ + filename@ + seq!['\n'], Style::Plain)]);
        }
    }
    r
}

/// A deleted line is shown in red, an inserted one in green, a kept one
/// dimmed: its marker and every piece of it, emphasized pieces in bold.
pub proof fn changes_colored_by_kind(c: ChangeView)
    ensures
        change_spec(c)[2] == marker(c.kind),
        forall|i: int| 0 <= i < c.values.len() ==> {
            let st = change_spec(c)[4 + i].1;
            &&& change_spec(c)[4 + i].0 == (#[trigger] c.values[i]).1
            &&& c.kind == ChangeKind::Delete ==> (st == Style::Red || st == Style::RedBold)
            &&& c.kind == ChangeKind::Insert ==> (st == Style::Green || st == Style::GreenBold)
            &&& c.kind == ChangeKind::Equal ==> st == Style::Dimmed
        },
{
}

} // verus!
