//! Text on a terminal: how wide it is, how it wraps, and how it is cut to a width.

use unicode_width::UnicodeWidthStr;
use vstd::prelude::*;

use crate::text;

verus! {

/// What `UnicodeWidthStr::width` returns for a text: the columns it takes.
pub uninterp spec fn display_width(s: Seq<char>) -> usize;

/// Calls `UnicodeWidthStr::width`. Claims only that the width depends on the text alone.
#[verifier::external_body]
pub(crate) fn width_of(s: &str) -> (r: usize)
    ensures
        r == display_width(s@),
{
    s.width()
}

/// What `textwrap::wrap` returns for a text, a width, and whether words longer than the
/// width are broken, with words separated at ASCII spaces and lines filled greedily.
pub uninterp spec fn wrapped_text(s: Seq<char>, width: usize, break_words: bool) -> Seq<Seq<char>>;

/// Calls `textwrap::wrap` with ASCII-space word separation and the first-fit algorithm.
/// Claims only that the lines depend on the text, the width and `break_words` alone. To hand the
/// text of a styled line to it in one piece, and to give the lines their styles afterwards, is a
/// choice of this library.
#[verifier::external_body]
pub(crate) fn wrap_text(s: &str, width: usize, break_words: bool) -> (r: Vec<String>)
    ensures
        text::string_views(r@) == wrapped_text(s@, width, break_words),
{
    let options = textwrap::Options::new(width)
        .break_words(break_words)
        .word_separator(textwrap::WordSeparator::AsciiSpace)
        .wrap_algorithm(textwrap::WrapAlgorithm::FirstFit);
    textwrap::wrap(s, options).into_iter().map(|line| line.into_owned()).collect()
}

/// The width of one character on its own.
pub open spec fn char_width(c: char) -> usize {
    display_width(seq![c])
}

/// Computes `char_width`.
pub fn width_of_char(c: char) -> (r: usize)
    ensures
        r == char_width(c),
{
    let mut s = String::new();
    s.push(c);
    assert(s@ =~= seq![c]);
    width_of(s.as_str())
}

/// How many characters of `s` from `i` on fit into `room` columns, taken one by one
/// until the first that does not fit.
pub open spec fn fitting(s: Seq<char>, i: int, room: int) -> int
    decreases s.len() - i,
{
    if 0 <= i < s.len() && char_width(s[i]) <= room {
        1 + fitting(s, i + 1, room - char_width(s[i]))
    } else {
        0
    }
}

/// `s` where it fits into `max` columns; otherwise its longest fitting beginning with
/// an ellipsis, which takes the last column.
pub open spec fn truncated(s: Seq<char>, max: usize) -> Seq<char> {
    if display_width(s) <= max {
        s
    } else if max == 0 {
        Seq::empty()
    } else if max == 1 {
        seq!['…']
    } else {
        s.take(fitting(s, 0, max - 1)) + seq!['…']
    }
}

/// The sum of the widths of the characters of `s`, each on its own.
pub open spec fn char_widths(s: Seq<char>) -> int
    decreases s.len(),
{
    if s.len() == 0 {
        0
    } else {
        char_widths(s.drop_last()) + char_width(s.last())
    }
}

proof fn lemma_fitting(s: Seq<char>, i: int, room: int)
    requires
        0 <= i <= s.len(),
    ensures
        0 <= fitting(s, i, room) <= s.len() - i,
    decreases s.len() - i,
{
    if i < s.len() && char_width(s[i]) <= room {
        lemma_fitting(s, i + 1, room - char_width(s[i]));
    }
}

proof fn lemma_fitting_width(s: Seq<char>, i: int, room: int)
    requires
        0 <= i <= s.len(),
        room >= 0,
    ensures
        0 <= fitting(s, i, room) <= s.len() - i,
        char_widths(s.take(i + fitting(s, i, room))) <= char_widths(s.take(i)) + room,
    decreases s.len() - i,
{
    if i < s.len() && char_width(s[i]) <= room {
        lemma_fitting_width(s, i + 1, room - char_width(s[i]));
        assert(s.take(i + 1).drop_last() =~= s.take(i));
    }
}

/// What is kept of a text that is cut takes at most the columns before the ellipsis,
/// measured character by character.
pub proof fn truncation_keeps_within_width(s: Seq<char>, max: usize)
    requires
        display_width(s) > max,
        max >= 2,
    ensures
        truncated(s, max).last() == '…',
        char_widths(truncated(s, max).drop_last()) <= max - 1,
        truncated(s, max).drop_last() == s.take(truncated(s, max).len() - 1),
{
    lemma_fitting_width(s, 0, max - 1);
    assert(s.take(0).len() == 0);
    let kept = s.take(fitting(s, 0, max - 1));
    assert(truncated(s, max).drop_last() =~= kept);
}

/// How many characters of `s` from the start on fit into `room` columns.
pub fn fitting_chars(s: &[char], room: usize) -> (r: usize)
    ensures
        r == fitting(s@, 0, room as int),
        r <= s@.len(),
{
    let mut left: usize = room;
    let mut i: usize = 0;
    while i < s.len()
        invariant
            i <= s.len(),
            fitting(s@, 0, room as int) == i + fitting(s@, i as int, left as int),
        decreases s.len() - i,
    {
        let w = width_of_char(s[i]);
        if w > left {
            return i;
        }
        left = left - w;
        i = i + 1;
    }
    i
}

/// The text cut to `max_width` columns.
pub fn truncate_to_width(input: &str, max_width: usize) -> (r: String)
    ensures
        r@ == truncated(input@, max_width),
{
    if width_of(input) <= max_width {
        return input.to_owned();
    }
    let mut out = String::new();
    if max_width == 0 {
        return out;
    }
    if max_width == 1 {
        out.push('…');
        assert(out@ =~= seq!['…']);
        return out;
    }
    let chars = text::chars_of(input);
    let n = fitting_chars(chars.as_slice(), max_width - 1);
    out = text::string_of_range(chars.as_slice(), 0, n);
    assert(out@ =~= input@.take(n as int));
    out.push('…');
    assert(out@ =~= input@.take(n as int) + seq!['…']);
    out
}

/// `n` spaces.
pub fn spaces(n: usize) -> (r: String)
    ensures
        r@ == text::repeat_char(' ', n as nat),
{
    text::repeated(' ', n)
}

proof fn lemma_char_widths_first(s: Seq<char>)
    requires
        s.len() > 0,
    ensures
        char_widths(s) == char_width(s[0]) + char_widths(s.drop_first()),
    decreases s.len(),
{
    if s.len() > 1 {
        lemma_char_widths_first(s.drop_last());
        assert(s.drop_last().drop_first() =~= s.drop_first().drop_last());
        assert(s.drop_first().last() == s.last());
    } else {
        assert(s.drop_last() =~= Seq::<char>::empty());
        assert(s.drop_first() =~= Seq::<char>::empty());
    }
}

/// What fits of a text is a beginning of it: its characters take no more than the room together,
/// and with the next one they would.
pub proof fn fitting_is_within(s: Seq<char>, i: int, room: int)
    requires
        0 <= i <= s.len(),
    ensures
        ({
            let n = fitting(s, i, room);
            &&& 0 <= n <= s.len() - i
            &&& room >= 0 ==> char_widths(s.subrange(i, i + n)) <= room
            &&& i + n < s.len() ==> char_widths(s.subrange(i, i + n + 1)) > room
        }),
    decreases s.len() - i,
{
    if i < s.len() && char_width(s[i]) <= room {
        fitting_is_within(s, i + 1, room - char_width(s[i]));
        let n = fitting(s, i, room);
        lemma_char_widths_first(s.subrange(i, i + n));
        assert(s.subrange(i, i + n).drop_first() =~= s.subrange(i + 1, i + n));
        if i + n < s.len() {
            lemma_char_widths_first(s.subrange(i, i + n + 1));
            assert(s.subrange(i, i + n + 1).drop_first() =~= s.subrange(i + 1, i + n + 1));
        }
    } else {
        assert(s.subrange(i, i) =~= Seq::<char>::empty());
        if i < s.len() {
            lemma_char_widths_first(s.subrange(i, i + 1));
            assert(s.subrange(i, i + 1).drop_first() =~= Seq::<char>::empty());
        }
    }
}

/// A text is kept where it fits. Else as much of its beginning is kept as leaves a column, and an
/// ellipsis stands there; without any room nothing is left.
pub proof fn truncated_texts_begin_alike(s: Seq<char>, max: usize)
    ensures
        ({
            let t = truncated(s, max);
            &&& display_width(s) <= max ==> t == s
            &&& display_width(s) > max && max == 0 ==> t.len() == 0
            &&& display_width(s) > max && max > 0 ==> t.len() > 0 && t.last() == '…' && t.len() - 1
                <= s.len() && t.drop_last() == s.take(t.len() - 1)
            &&& display_width(s) > max && max > 1 && t.len() - 1 < s.len() ==> char_widths(
                s.take(t.len() as int),
            ) > max - 1
        }),
{
    if display_width(s) > max && max > 1 {
        let n = fitting(s, 0, max - 1);
        fitting_is_within(s, 0, max - 1);
        assert(truncated(s, max).drop_last() =~= s.take(n));
        if n < s.len() {
            assert(s.subrange(0, n + 1) =~= s.take(n + 1));
        }
    } else if display_width(s) > max && max == 1 {
        assert(truncated(s, max).drop_last() =~= s.take(0));
    }
}

} // verus!
