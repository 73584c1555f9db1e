//! Lines of styled text.

use vstd::prelude::*;

use crate::display;
use crate::text;

verus! {

/// How a piece of a line looks.
#[derive(Clone, Copy, Debug, PartialEq, Eq, Structural)]
pub enum Tone {
    Plain,
    Bold,
    Dim,
    DimItalic,
    Red,
    RedItalic,
    Magenta,
    Cyan,
    /// A key that can be pressed.
    Key,
    /// The mark of the selected session.
    Marker,
    /// The title of the selected session.
    SelectedTitle,
    /// A line of the user's.
    UserLine,
    /// A style of rendered Markdown, by the number that its renderer gave it.
    Rendered(u32),
    /// Such a style, made dim.
    DimRendered(u32),
}

/// A piece of a line.
#[derive(Debug)]
pub struct Span {
    pub text: String,
    pub tone: Tone,
}

/// A piece of a line by its text.
pub type SpanView = (Seq<char>, Tone);

/// A line by its text.
pub open spec fn line_view(line: Seq<Span>) -> Seq<SpanView> {
    Seq::new(line.len(), |i: int| (line[i].text@, line[i].tone))
}

/// Lines by their text.
pub open spec fn lines_view(lines: Seq<Vec<Span>>) -> Seq<Seq<SpanView>> {
    Seq::new(lines.len(), |i: int| line_view(lines[i]@))
}

pub(crate) fn push_span(line: &mut Vec<Span>, s: String, tone: Tone)
    ensures
        line_view(final(line)@) == line_view(old(line)@).push((s@, tone)),
{
    let ghost before = line@;
    line.push(Span { text: s, tone });
    assert(line_view(line@) =~= line_view(before).push((s@, tone)));
}

pub(crate) fn push_line(lines: &mut Vec<Vec<Span>>, line: Vec<Span>)
    ensures
        lines_view(final(lines)@) == lines_view(old(lines)@).push(line_view(line@)),
{
    let ghost before = lines@;
    lines.push(line);
    assert(lines_view(lines@) =~= lines_view(before).push(line_view(line@)));
}

pub(crate) fn append_lines(lines: &mut Vec<Vec<Span>>, mut more: Vec<Vec<Span>>)
    ensures
        lines_view(final(lines)@) == lines_view(old(lines)@) + lines_view(more@),
{
    let ghost before = lines@;
    let ghost added = more@;
    lines.append(&mut more);
    assert(lines_view(lines@) =~= lines_view(before) + lines_view(added));
}

/// A copy of a line.
pub(crate) fn copy_line(line: &Vec<Span>) -> (r: Vec<Span>)
    ensures
        line_view(r@) == line_view(line@),
{
    let ghost v = line_view(line@);
    let mut r: Vec<Span> = empty_line();
    let mut i: usize = 0;
    assert(v.take(0) =~= Seq::<SpanView>::empty());
    while i < line.len()
        invariant
            i <= line.len(),
            v == line_view(line@),
            line_view(r@) == v.take(i as int),
        decreases line.len() - i,
    {
        push_span(&mut r, line[i].text.clone(), line[i].tone);
        assert(v.take(i + 1) =~= v.take(i as int).push(v[i as int]));
        i = i + 1;
    }
    assert(v.take(i as int) =~= v);
    r
}

/// Adds copies of the lines from `from` up to `to`.
pub(crate) fn copy_lines(lines: &Vec<Vec<Span>>, from: usize, to: usize, out: &mut Vec<Vec<Span>>)
    requires
        from <= to <= lines@.len(),
    ensures
        lines_view(final(out)@) == lines_view(old(out)@) + lines_view(
            lines@,
        ).subrange(from as int, to as int),
{
    let ghost before = lines_view(out@);
    let ghost all = lines_view(lines@);
    let mut i: usize = from;
    assert(before + all.subrange(from as int, from as int) =~= before);
    while i < to
        invariant
            from <= i <= to <= lines@.len(),
            all == lines_view(lines@),
            lines_view(out@) == before + all.subrange(from as int, i as int),
        decreases to - i,
    {
        let ghost so_far = out@;
        out.push(copy_line(&lines[i]));
        assert(lines_view(out@) =~= lines_view(so_far).push(all[i as int]));
        assert(before + all.subrange(from as int, i + 1) =~= (before + all.subrange(
            from as int,
            i as int,
        )).push(all[i as int]));
        i = i + 1;
    }
}

pub(crate) fn empty_line() -> (r: Vec<Span>)
    ensures
        line_view(r@) == Seq::<SpanView>::empty(),
{
    let r: Vec<Span> = Vec::new();
    assert(line_view(r@) =~= Seq::<SpanView>::empty());
    r
}

/// The text of a line.
pub open spec fn line_text(line: Seq<SpanView>) -> Seq<char>
    decreases line.len(),
{
    if line.len() == 0 {
        Seq::empty()
    } else {
        line_text(line.drop_last()) + line.last().0
    }
}

/// The text of a line.
pub fn text_of_line(line: &[Span]) -> (r: String)
    ensures
        r@ == line_text(line_view(line@)),
{
    let ghost v = line_view(line@);
    let mut r = String::new();
    let mut i: usize = 0;
    assert(v.take(0) =~= Seq::<SpanView>::empty());
    while i < line.len()
        invariant
            i <= line.len(),
            v == line_view(line@),
            r@ == line_text(v.take(i as int)),
        decreases line.len() - i,
    {
        r.push_str(line[i].text.as_str());
        assert(v.take(i + 1).drop_last() =~= v.take(i as int));
        assert(v[i as int].0 == line@[i as int].text@);
        i = i + 1;
    }
    assert(v.take(i as int) =~= v);
    r
}

/// The columns that a line takes: those of its pieces together, counted up to the largest
/// number.
pub open spec fn line_width(line: Seq<SpanView>) -> usize
    decreases line.len(),
{
    if line.len() == 0 {
        0
    } else {
        let sum = line_width(line.drop_last()) + display::display_width(line.last().0);
        if sum > usize::MAX {
            usize::MAX
        } else {
            sum as usize
        }
    }
}

/// Computes `line_width`.
pub fn width_of_line(line: &[Span]) -> (r: usize)
    ensures
        r == line_width(line_view(line@)),
{
    let ghost v = line_view(line@);
    let mut r: usize = 0;
    let mut i: usize = 0;
    assert(v.take(0) =~= Seq::<SpanView>::empty());
    while i < line.len()
        invariant
            i <= line.len(),
            v == line_view(line@),
            r == line_width(v.take(i as int)),
        decreases line.len() - i,
    {
        let w = display::width_of(line[i].text.as_str());
        assert(v.take(i + 1).drop_last() =~= v.take(i as int));
        assert(v.take(i + 1).last().0 == line@[i as int].text@);
        r = if w > usize::MAX - r {
            usize::MAX
        } else {
            r + w
        };
        i = i + 1;
    }
    assert(v.take(i as int) =~= v);
    r
}

/// A number held between zero and `n`.
pub open spec fn within(k: int, n: int) -> int {
    if k < 0 {
        0
    } else if k > n {
        n
    } else {
        k
    }
}

/// What a piece has of the characters from `from` up to `to`: nothing, or a piece that looks
/// like it.
pub open spec fn cut_span(span: SpanView, from: int, to: int) -> Seq<SpanView> {
    let a = within(from, span.0.len() as int);
    let b = within(to, span.0.len() as int);
    if a < b {
        seq![(span.0.subrange(a, b), span.1)]
    } else {
        Seq::empty()
    }
}

/// The characters of a line from `from` up to `to`, looking as they do in the line.
pub open spec fn cut_line(line: Seq<SpanView>, from: int, to: int) -> Seq<SpanView>
    decreases line.len(),
{
    if line.len() == 0 {
        Seq::empty()
    } else {
        let before = line_text(line.drop_last()).len();
        cut_line(line.drop_last(), from, to) + cut_span(line.last(), from - before, to - before)
    }
}

/// A part of a line holds the text that stands there.
pub proof fn cutting_keeps_the_text(line: Seq<SpanView>, from: int, to: int)
    requires
        0 <= from <= to,
    ensures
        line_text(cut_line(line, from, to)) == line_text(line).subrange(
            within(from, line_text(line).len() as int),
            within(to, line_text(line).len() as int),
        ),
    decreases line.len(),
{
    if line.len() > 0 {
        let rest = line.drop_last();
        let before = line_text(rest).len();
        cutting_keeps_the_text(rest, from, to);
        let first = cut_line(rest, from, to);
        let last = cut_span(line.last(), from - before, to - before);
        if last.len() > 0 {
            assert((first + last).drop_last() =~= first);
        } else {
            assert(first + last =~= first);
        }
    }
    assert(line_text(cut_line(line, from, to)) =~= line_text(line).subrange(
        within(from, line_text(line).len() as int),
        within(to, line_text(line).len() as int),
    ));
}

/// The part of a line from `from` up to `to`.
pub(crate) fn part_of_line(line: &Vec<Span>, from: usize, to: usize) -> (r: Vec<Span>)
    requires
        line_text(line_view(line@)).len() <= usize::MAX,
        from <= to,
    ensures
        line_view(r@) == cut_line(line_view(line@), from as int, to as int),
{
    let ghost v = line_view(line@);
    let mut r: Vec<Span> = empty_line();
    let mut before: usize = 0;
    let mut i: usize = 0;
    assert(v.take(0) =~= Seq::<SpanView>::empty());
    while i < line.len()
        invariant
            i <= line.len(),
            v == line_view(line@),
            from <= to,
            line_text(v).len() <= usize::MAX,
            before == line_text(v.take(i as int)).len(),
            line_view(r@) == cut_line(v.take(i as int), from as int, to as int),
        decreases line.len() - i,
    {
        let chars = text::chars_of(line[i].text.as_str());
        let n = chars.len();
        proof {
            assert(v.take(i + 1).drop_last() =~= v.take(i as int));
            assert(v.take(i + 1).last() == v[i as int]);
            lemma_shorter_text(v, i + 1);
        }
        let a = offset_in(from, before, n);
        let b = offset_in(to, before, n);
        if a < b {
            push_span(&mut r, text::string_of_range(chars.as_slice(), a, b), line[i].tone);
        }
        proof {
            assert(line_view(r@) =~= cut_line(v.take(i + 1), from as int, to as int));
        }
        before = before + n;
        i = i + 1;
    }
    assert(v.take(i as int) =~= v);
    r
}

fn offset_in(k: usize, before: usize, n: usize) -> (r: usize)
    ensures
        r == within(k - before, n as int),
{
    if k < before {
        0
    } else if k - before > n {
        n
    } else {
        k - before
    }
}

proof fn lemma_shorter_text(line: Seq<SpanView>, n: int)
    requires
        0 <= n <= line.len(),
    ensures
        line_text(line.take(n)).len() <= line_text(line).len(),
    decreases line.len(),
{
    if n == line.len() {
        assert(line.take(n) =~= line);
    } else {
        lemma_shorter_text(line.drop_last(), n);
        assert(line.drop_last().take(n) =~= line.take(n));
    }
}

/// Adds copies of the pieces of `more`.
pub(crate) fn extend_line(line: &mut Vec<Span>, more: &Vec<Span>)
    ensures
        line_view(final(line)@) == line_view(old(line)@) + line_view(more@),
{
    let ghost before = line@;
    let mut copy = copy_line(more);
    let ghost added = copy@;
    line.append(&mut copy);
    assert(line_view(line@) =~= line_view(before) + line_view(added));
}

pub(crate) fn two_spans(a: &str, tone_a: Tone, b: String, tone_b: Tone) -> (r: Vec<Span>)
    ensures
        line_view(r@) == seq![(a@, tone_a), (b@, tone_b)],
{
    let mut line = empty_line();
    push_span(&mut line, a.to_owned(), tone_a);
    push_span(&mut line, b, tone_b);
    assert(line_view(line@) =~= seq![(a@, tone_a), (b@, tone_b)]);
    line
}

pub(crate) fn one_line(line: Vec<Span>) -> (r: Vec<Vec<Span>>)
    ensures
        lines_view(r@) == seq![line_view(line@)],
{
    let mut lines: Vec<Vec<Span>> = Vec::new();
    assert(lines_view(lines@) =~= Seq::<Seq<SpanView>>::empty());
    push_line(&mut lines, line);
    assert(lines_view(lines@) =~= seq![line_view(line@)]);
    lines
}

/// Whether the parts stand in a line, one behind the other, each at its place.
pub open spec fn stand_in_order(
    line: Seq<SpanView>,
    parts: Seq<Seq<SpanView>>,
    at: Seq<int>,
) -> bool {
    &&& at.len() == parts.len()
    &&& forall|j: int|
        0 <= j < parts.len() ==> 0 <= #[trigger] at[j] && at[j] + parts[j].len() <= line.len()
            && line.subrange(at[j], at[j] + parts[j].len()) == parts[j]
    &&& forall|i: int, j: int|
        0 <= i < j < parts.len() ==> #[trigger] at[i] + parts[i].len() <= #[trigger] at[j]
}

/// Whether a part stands somewhere in a line.
pub open spec fn holds_part(line: Seq<SpanView>, part: Seq<SpanView>) -> bool {
    exists|p: int|
        0 <= p <= line.len() - part.len() && #[trigger] line.subrange(p, p + part.len()) == part
}

/// How each character of a line looks.
pub open spec fn line_tones(line: Seq<SpanView>) -> Seq<Tone>
    decreases line.len(),
{
    if line.len() == 0 {
        Seq::empty()
    } else {
        line_tones(line.drop_last()) + Seq::new(line.last().0.len(), |i: int| line.last().1)
    }
}

proof fn lemma_tones_len(line: Seq<SpanView>)
    ensures
        line_tones(line).len() == line_text(line).len(),
    decreases line.len(),
{
    if line.len() > 0 {
        lemma_tones_len(line.drop_last());
    }
}

/// Each character of a part of a line looks as it does in the line.
pub proof fn cutting_keeps_the_look(line: Seq<SpanView>, from: int, to: int)
    requires
        0 <= from <= to,
    ensures
        line_tones(cut_line(line, from, to)) == line_tones(line).subrange(
            within(from, line_text(line).len() as int),
            within(to, line_text(line).len() as int),
        ),
        line_tones(line).len() == line_text(line).len(),
    decreases line.len(),
{
    lemma_tones_len(line);
    if line.len() > 0 {
        let rest = line.drop_last();
        let before = line_text(rest).len();
        cutting_keeps_the_look(rest, from, to);
        let first = cut_line(rest, from, to);
        let last = cut_span(line.last(), from - before, to - before);
        if last.len() > 0 {
            assert((first + last).drop_last() =~= first);
        } else {
            assert(first + last =~= first);
        }
    }
    assert(line_tones(cut_line(line, from, to)) =~= line_tones(line).subrange(
        within(from, line_text(line).len() as int),
        within(to, line_text(line).len() as int),
    ));
}

/// The text of two lines in one is the text of the first and that of the second, and so it is with
/// their looks.
pub proof fn lines_in_one_keep_text_and_look(a: Seq<SpanView>, b: Seq<SpanView>)
    ensures
        line_text(a + b) == line_text(a) + line_text(b),
        line_tones(a + b) == line_tones(a) + line_tones(b),
    decreases b.len(),
{
    if b.len() == 0 {
        assert(a + b =~= a);
        assert(line_text(a) + line_text(b) =~= line_text(a));
        assert(line_tones(a) + line_tones(b) =~= line_tones(a));
    } else {
        lines_in_one_keep_text_and_look(a, b.drop_last());
        assert((a + b).drop_last() =~= a + b.drop_last());
        assert(line_text(a + b) =~= line_text(a) + line_text(b));
        assert(line_tones(a + b) =~= line_tones(a) + line_tones(b));
    }
}

} // verus!
