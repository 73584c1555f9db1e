//! The lines that the session picker shows: a title, a preview and a footer for each session,
//! and the lines around the list.

use vstd::prelude::*;

use crate::display;
use crate::session_rows;
use crate::session_rows::Row;
use crate::session_rows::SessionPickerAction;
use crate::session_rows::ThreadSortKey;
use crate::session_rows::Timestamp;
use crate::session_rows::TranscriptPreviewLine;
use crate::session_rows::TranscriptPreviewSpeaker;
use crate::spans;
use crate::spans::Span;
use crate::spans::Tone;
use crate::text;

verus! {

pub const SESSION_META_INDENT_WIDTH: usize = 2;

pub const SESSION_META_DATE_WIDTH: usize = 12;

pub const SESSION_META_FIELD_GAP_WIDTH: usize = 2;

pub const SESSION_META_MIN_CWD_WIDTH: usize = 30;

pub const SESSION_META_MAX_CWD_WIDTH: usize = 72;

pub const SESSION_META_BRANCH_ICON: &'static str = "\u{e0a0}";

pub const SESSION_META_CWD_ICON: &'static str = "⌁";

// ---- cutting text ----

/// A text cut to a number of characters, with three dots at its end where they fit.
pub open spec fn shortened(s: Seq<char>, max: int) -> Seq<char> {
    if s.len() <= max {
        s
    } else if max >= 3 {
        s.take(max - 3) + "..."@
    } else {
        s.take(max)
    }
}

/// A text cut to a number of characters. The unit is a choice of this library: each `char`
/// counts once, whatever columns it takes on the screen.
pub fn truncate_text(s: &str, max: usize) -> (r: String)
    ensures
        r@ == shortened(s@, max as int),
{
    let c = text::chars_of(s);
    if c.len() <= max {
        return s.to_owned();
    }
    if max >= 3 {
        let mut r = text::string_of_range(c.as_slice(), 0, max - 3);
        assert(r@ =~= s@.take(max - 3));
        r.push_str("...");
        return r;
    }
    let r = text::string_of_range(c.as_slice(), 0, max);
    assert(r@ =~= s@.take(max as int));
    r
}

/// A text that is cut is as long as it may be, and no text becomes longer.
pub proof fn shortened_fits(s: Seq<char>, max: int)
    requires
        0 <= max,
    ensures
        shortened(s, max).len() == if s.len() <= max {
            s.len() as int
        } else {
            max
        },
{
    reveal_strlit("...");
}

// ---- footers ----

/// A part of a session's footer.
#[derive(Debug)]
pub enum FooterPart {
    Date(String),
    Branch(Option<String>),
    Cwd(Option<String>),
}

/// A part of a footer by its text.
pub ghost enum PartView {
    Date(Seq<char>),
    Branch(Option<Seq<char>>),
    Cwd(Option<Seq<char>>),
}

impl View for FooterPart {
    type V = PartView;

    open spec fn view(&self) -> PartView {
        match self {
            FooterPart::Date(t) => PartView::Date(t@),
            FooterPart::Branch(b) => PartView::Branch(text::option_view(*b)),
            FooterPart::Cwd(c) => PartView::Cwd(text::option_view(*c)),
        }
    }
}

/// Parts of a footer by their text.
pub open spec fn part_views(parts: Seq<FooterPart>) -> Seq<PartView> {
    Seq::new(parts.len(), |i: int| parts[i]@)
}

/// What a part says.
pub open spec fn part_text(part: PartView) -> Seq<char> {
    match part {
        PartView::Date(t) => t,
        PartView::Branch(Some(t)) => t,
        PartView::Branch(None) => "no branch"@,
        PartView::Cwd(Some(t)) => t,
        PartView::Cwd(None) => "no cwd"@,
    }
}

/// The icon before a part.
pub open spec fn part_prefix(part: PartView) -> Option<Seq<char>> {
    match part {
        PartView::Date(_) => None,
        PartView::Branch(_) => Some(SESSION_META_BRANCH_ICON@),
        PartView::Cwd(_) => Some(SESSION_META_CWD_ICON@),
    }
}

impl FooterPart {
    /// What the part says.
    pub fn text(&self) -> (r: &str)
        ensures
            r@ == part_text(self@),
    {
        match self {
            FooterPart::Date(t) => t.as_str(),
            FooterPart::Branch(Some(t)) => t.as_str(),
            FooterPart::Branch(None) => "no branch",
            FooterPart::Cwd(Some(t)) => t.as_str(),
            FooterPart::Cwd(None) => "no cwd",
        }
    }

    /// The icon before the part.
    pub fn prefix(&self) -> (r: Option<&'static str>)
        ensures
            match r {
                Some(p) => part_prefix(self@) == Some(p@),
                None => part_prefix(self@) is None,
            },
    {
        match self {
            FooterPart::Date(_) => None,
            FooterPart::Branch(_) => Some(SESSION_META_BRANCH_ICON),
            FooterPart::Cwd(_) => Some(SESSION_META_CWD_ICON),
        }
    }
}

/// The columns of a working directory that something follows: half of what is left of the
/// line, within limits.
pub open spec fn cwd_columns(width: int) -> int {
    let available = if width > 18 {
        width - 18
    } else {
        0
    };
    if available / 2 < SESSION_META_MIN_CWD_WIDTH {
        SESSION_META_MIN_CWD_WIDTH as int
    } else if available / 2 > SESSION_META_MAX_CWD_WIDTH {
        SESSION_META_MAX_CWD_WIDTH as int
    } else {
        available / 2
    }
}

/// The columns of a working directory that something follows.
pub fn cwd_column_width(width: usize) -> (r: usize)
    ensures
        r == cwd_columns(width as int),
        SESSION_META_MIN_CWD_WIDTH <= r <= SESSION_META_MAX_CWD_WIDTH,
{
    let available: usize = if width > 18 {
        width - 18
    } else {
        0
    };
    let half: usize = available / 2;
    if half < SESSION_META_MIN_CWD_WIDTH {
        SESSION_META_MIN_CWD_WIDTH
    } else if half > SESSION_META_MAX_CWD_WIDTH {
        SESSION_META_MAX_CWD_WIDTH
    } else {
        half
    }
}

/// The columns of a part; one that another follows is padded.
pub open spec fn part_width(part: PartView, padded: bool, cwd_width: int) -> int {
    let prefix = match part_prefix(part) {
        Some(p) => display::display_width(p) + (if part_text(part).len() > 0 {
            1int
        } else {
            0int
        }),
        None => 0,
    };
    let actual = prefix + display::display_width(part_text(part));
    match part {
        PartView::Date(_) => if padded && actual < SESSION_META_DATE_WIDTH {
            SESSION_META_DATE_WIDTH as int
        } else {
            actual
        },
        PartView::Cwd(_) => if padded {
            cwd_width
        } else {
            actual
        },
        PartView::Branch(_) => actual,
    }
}

/// The columns of the parts from `from` on, of which the last stands before `to`.
pub open spec fn content_width(parts: Seq<PartView>, from: int, to: int, cwd_width: int) -> int
    decreases to - from,
{
    if from >= to {
        0
    } else {
        part_width(parts[from], from + 1 < to, cwd_width) + content_width(
            parts,
            from + 1,
            to,
            cwd_width,
        )
    }
}

/// The columns of a line with the parts from `from` to `to`.
pub open spec fn parts_width(parts: Seq<PartView>, from: int, to: int, cwd_width: int) -> int {
    SESSION_META_INDENT_WIDTH + content_width(parts, from, to, cwd_width)
}

fn footer_part_width(part: &FooterPart, padded: bool, cwd_width: usize) -> (r: u128)
    ensures
        r == part_width(part@, padded, cwd_width as int),
        r <= 0x3_0000_0000_0000_0000,
{
    let t = part.text();
    let is_empty = text::chars_of(t).len() == 0;
    let prefix: u128 = match part.prefix() {
        Some(p) => {
            let gap: u128 = if is_empty {
                0
            } else {
                1
            };
            display::width_of(p) as u128 + gap
        },
        None => 0,
    };
    let actual: u128 = prefix + display::width_of(t) as u128;
    match part {
        FooterPart::Date(_) => if padded && actual < SESSION_META_DATE_WIDTH as u128 {
            SESSION_META_DATE_WIDTH as u128
        } else {
            actual
        },
        FooterPart::Cwd(_) => if padded {
            cwd_width as u128
        } else {
            actual
        },
        FooterPart::Branch(_) => actual,
    }
}

proof fn lemma_content_width(parts: Seq<PartView>, from: int, to: int, cwd_width: int)
    requires
        0 <= cwd_width,
    ensures
        0 <= content_width(parts, from, to, cwd_width),
    decreases to - from,
{
    if from < to {
        lemma_content_width(parts, from + 1, to, cwd_width);
    }
}

/// Whether parts take more columns than there are.
fn footer_parts_are_wider_than(
    parts: &[FooterPart],
    from: usize,
    to: usize,
    cwd_width: usize,
    available: usize,
) -> (r: bool)
    requires
        from <= to <= parts@.len(),
        SESSION_META_INDENT_WIDTH <= available,
    ensures
        r == (parts_width(part_views(parts@), from as int, to as int, cwd_width as int) > available),
{
    let mut sum: u128 = SESSION_META_INDENT_WIDTH as u128;
    let mut i: usize = from;
    while i < to
        invariant
            from <= i <= to <= parts@.len(),
            sum + content_width(part_views(parts@), i as int, to as int, cwd_width as int) == parts_width(
                part_views(parts@),
                from as int,
                to as int,
                cwd_width as int,
            ),
            sum <= available,
        decreases to - i,
    {
        sum = sum + footer_part_width(&parts[i], i + 1 < to, cwd_width);
        i = i + 1;
        if sum > available as u128 {
            proof {
                lemma_content_width(part_views(parts@), i as int, to as int, cwd_width as int);
            }
            return true;
        }
    }
    false
}

/// What one number leaves of another.
pub open spec fn left_of(a: int, b: int) -> int {
    if a > b {
        a - b
    } else {
        0
    }
}

/// The smaller of two numbers.
pub open spec fn smaller(a: int, b: int) -> int {
    if a < b {
        a
    } else {
        b
    }
}

/// The pieces of a part in the columns that are left of a line.
pub open spec fn part_spans(part: PartView, target: Option<int>, available: int) -> Seq<spans::SpanView> {
    match part_prefix(part) {
        None => seq![(shortened(part_text(part), available), Tone::Dim)],
        Some(prefix) => {
            let prefix_width = display::display_width(prefix) as int;
            if available <= prefix_width {
                seq![(shortened(prefix, available), Tone::Dim)]
            } else {
                let spaced = part_text(part).len() > 0;
                let used = prefix_width + (if spaced {
                    1int
                } else {
                    0int
                });
                let room = smaller(
                    left_of(
                        match target {
                            Some(t) => t,
                            None => available,
                        },
                        used,
                    ),
                    left_of(available, used),
                );
                let tone = if part is Branch && part->Branch_0 is None || part is Cwd
                    && part->Cwd_0 is None {
                    Tone::DimItalic
                } else {
                    Tone::Dim
                };
                seq![(prefix, Tone::Dim)] + (if spaced {
                    seq![(" "@, Tone::Dim)]
                } else {
                    Seq::empty()
                }) + seq![(shortened(part_text(part), room), tone)]
            }
        },
    }
}

/// The columns of the pieces of a part.
pub open spec fn part_used(part: PartView, target: Option<int>, available: int) -> int {
    spans_width(part_spans(part, target, available), part, available)
}

/// The columns that the pieces of a part are counted with: a space counts one.
pub open spec fn spans_width(spans: Seq<spans::SpanView>, part: PartView, available: int) -> int {
    if part_prefix(part) is None || available <= display::display_width(part_prefix(part)->0) {
        display::display_width(spans[0].0) as int
    } else {
        display::display_width(part_prefix(part)->0) + (if spans.len() == 3 {
            1int
        } else {
            0int
        }) + display::display_width(spans.last().0)
    }
}

fn push_footer_part(
    spans: &mut Vec<Span>,
    part: &FooterPart,
    target_width: Option<usize>,
    available_width: usize,
) -> (r: u128)
    ensures
        ({
            let target = match target_width {
                Some(t) => Some(t as int),
                None => None,
            };
            &&& spans::line_view(final(spans)@) == spans::line_view(old(spans)@) + part_spans(
                part@,
                target,
                available_width as int,
            )
            &&& r == part_used(part@, target, available_width as int)
        }),
{
    let ghost before = spans::line_view(spans@);
    let ghost target: Option<int> = match target_width {
        Some(t) => Some(t as int),
        None => None,
    };
    let ghost all = part_spans(part@, target, available_width as int);
    let t = part.text();
    let prefix = match part.prefix() {
        None => {
            let shown = truncate_text(t, available_width);
            let width = display::width_of(shown.as_str());
            spans::push_span(spans, shown, Tone::Dim);
            assert(spans::line_view(spans@) =~= before + all);
            return width as u128;
        },
        Some(p) => p,
    };
    let prefix_width = display::width_of(prefix);
    if available_width <= prefix_width {
        let shown = truncate_text(prefix, available_width);
        let width = display::width_of(shown.as_str());
        spans::push_span(spans, shown, Tone::Dim);
        assert(spans::line_view(spans@) =~= before + all);
        return width as u128;
    }
    spans::push_span(spans, prefix.to_owned(), Tone::Dim);
    let mut used: usize = prefix_width;
    let spaced = text::chars_of(t).len() > 0;
    if spaced {
        spans::push_span(spans, " ".to_owned(), Tone::Dim);
        used = used + 1;
    }
    let target_room: usize = match target_width {
        Some(w) => w,
        None => available_width,
    };
    let a: usize = if target_room > used {
        target_room - used
    } else {
        0
    };
    let b: usize = available_width - used;
    let room: usize = if a < b {
        a
    } else {
        b
    };
    let shown = truncate_text(t, room);
    let width = display::width_of(shown.as_str());
    let tone = match part {
        FooterPart::Branch(None) => Tone::DimItalic,
        FooterPart::Cwd(None) => Tone::DimItalic,
        _ => Tone::Dim,
    };
    spans::push_span(spans, shown, tone);
    assert(spans::line_view(spans@) =~= before + all);
    assert(all.last() == (shown@, tone));
    used as u128 + width as u128
}

/// How many columns a part is padded to.
pub open spec fn target_of(part: PartView, padded: bool, cwd_width: int) -> Option<int> {
    match part {
        PartView::Date(_) => if padded {
            Some(SESSION_META_DATE_WIDTH as int)
        } else {
            None
        },
        PartView::Cwd(_) => if padded {
            Some(cwd_width)
        } else {
            None
        },
        PartView::Branch(_) => None,
    }
}

/// Blank columns, as a piece where there are any.
pub open spec fn blank_span(n: int) -> Seq<spans::SpanView> {
    if n > 0 {
        seq![(text::repeat_char(' ', n as nat), Tone::Dim)]
    } else {
        Seq::empty()
    }
}

/// The pieces of a line with the parts from `from` up to `n`, of `to`, and the columns that
/// are left.
pub open spec fn footer_state(
    parts: Seq<PartView>,
    from: int,
    to: int,
    n: int,
    width: int,
    cwd_width: int,
) -> (Seq<spans::SpanView>, int)
    decreases n - from,
{
    if n <= from {
        (seq![("  "@, Tone::Plain)], left_of(width, SESSION_META_INDENT_WIDTH as int))
    } else {
        let (spans, left) = footer_state(parts, from, to, n - 1, width, cwd_width);
        let part = parts[n - 1];
        let gap = if n - 1 > from {
            smaller(SESSION_META_FIELD_GAP_WIDTH as int, left)
        } else {
            0
        };
        let target = target_of(part, n < to, cwd_width);
        let used = part_used(part, target, left - gap);
        let padding = match target {
            Some(t) => left_of(t, used),
            None => 0,
        };
        (
            spans + blank_span(gap) + part_spans(part, target, left - gap) + blank_span(padding),
            left_of(left_of(left - gap, used), padding),
        )
    }
}

/// A line with the parts from `from` to `to`.
pub open spec fn footer_line_view(
    parts: Seq<PartView>,
    from: int,
    to: int,
    width: int,
    cwd_width: int,
) -> Seq<spans::SpanView> {
    footer_state(parts, from, to, to, width, cwd_width).0
}

fn footer_line(parts: &[FooterPart], from: usize, to: usize, width: usize, cwd_width: usize) -> (r:
    Vec<Span>)
    requires
        from <= to <= parts@.len(),
    ensures
        spans::line_view(r@) == footer_line_view(
            part_views(parts@),
            from as int,
            to as int,
            width as int,
            cwd_width as int,
        ),
{
    let mut spans = spans::empty_line();
    spans::push_span(&mut spans, "  ".to_owned(), Tone::Plain);
    let mut left: usize = if width > SESSION_META_INDENT_WIDTH {
        width - SESSION_META_INDENT_WIDTH
    } else {
        0
    };
    let mut i: usize = from;
    assert(spans::line_view(spans@) =~= seq![("  "@, Tone::Plain)]);
    while i < to
        invariant
            from <= i <= to <= parts@.len(),
            (spans::line_view(spans@), left as int) == footer_state(
                part_views(parts@),
                from as int,
                to as int,
                i as int,
                width as int,
                cwd_width as int,
            ),
        decreases to - i,
    {
        let ghost before = spans::line_view(spans@);
        let ghost was_left = left;
        let mut gap: usize = 0;
        if i > from {
            gap = if SESSION_META_FIELD_GAP_WIDTH < left {
                SESSION_META_FIELD_GAP_WIDTH
            } else {
                left
            };
            if gap > 0 {
                spans::push_span(&mut spans, display::spaces(gap), Tone::Dim);
                left = left - gap;
            }
        }
        assert(spans::line_view(spans@) =~= before + blank_span(gap as int));
        let padded = i + 1 < to;
        let target: Option<usize> = match &parts[i] {
            FooterPart::Date(_) => if padded {
                Some(SESSION_META_DATE_WIDTH)
            } else {
                None
            },
            FooterPart::Cwd(_) => if padded {
                Some(cwd_width)
            } else {
                None
            },
            FooterPart::Branch(_) => None,
        };
        let used = push_footer_part(&mut spans, &parts[i], target, left);
        left = if left as u128 > used {
            (left as u128 - used) as usize
        } else {
            0
        };
        let mut padding: usize = 0;
        if let Some(t) = target {
            padding = if t as u128 > used {
                (t as u128 - used) as usize
            } else {
                0
            };
            if padding > 0 {
                spans::push_span(&mut spans, display::spaces(padding), Tone::Dim);
                left = if left > padding {
                    left - padding
                } else {
                    0
                };
            }
        }
        proof {
            let part = parts@[i as int]@;
            let goal = target_of(part, i + 1 < to, cwd_width as int);
            assert(spans::line_view(spans@) =~= before + blank_span(gap as int) + part_spans(
                part,
                goal,
                was_left - gap,
            ) + blank_span(padding as int));
        }
        i = i + 1;
    }
    spans
}

/// Where the line starts that holds part `i`, when parts go to a line as long as they fit.
pub open spec fn group_start(parts: Seq<PartView>, i: int, width: int, cwd_width: int) -> int
    decreases i,
{
    if i <= 0 {
        0
    } else {
        let start = group_start(parts, i - 1, width, cwd_width);
        if parts_width(parts, start, i + 1, cwd_width) > width {
            i
        } else {
            start
        }
    }
}

/// The lines that are full before part `i` comes.
pub open spec fn full_lines(parts: Seq<PartView>, i: int, width: int, cwd_width: int) -> Seq<
    Seq<spans::SpanView>,
>
    decreases i,
{
    if i <= 0 {
        Seq::empty()
    } else {
        let start = group_start(parts, i - 1, width, cwd_width);
        if group_start(parts, i, width, cwd_width) == i {
            full_lines(parts, i - 1, width, cwd_width).push(
                footer_line_view(parts, start, i, width, cwd_width),
            )
        } else {
            full_lines(parts, i - 1, width, cwd_width)
        }
    }
}

/// A footer: its parts on one line where they fit, and otherwise on as few as they go to one
/// after the other.
pub open spec fn footer_lines_view(parts: Seq<PartView>, width: int) -> Seq<Seq<spans::SpanView>> {
    let cwd_width = cwd_columns(width);
    let n = parts.len() as int;
    if width <= SESSION_META_INDENT_WIDTH {
        Seq::empty()
    } else if parts_width(parts, 0, n, cwd_width) <= width {
        seq![footer_line_view(parts, 0, n, width, cwd_width)]
    } else if n == 0 {
        Seq::empty()
    } else {
        full_lines(parts, n - 1, width, cwd_width).push(
            footer_line_view(
                parts,
                group_start(parts, n - 1, width, cwd_width),
                n,
                width,
                cwd_width,
            ),
        )
    }
}

proof fn lemma_group_start(parts: Seq<PartView>, i: int, width: int, cwd_width: int)
    requires
        0 <= i,
    ensures
        0 <= group_start(parts, i, width, cwd_width) <= i,
    decreases i,
{
    if i > 0 {
        lemma_group_start(parts, i - 1, width, cwd_width);
    }
}

/// A footer in a width.
pub fn pack_footer_parts(parts: &[FooterPart], width: u16) -> (r: Vec<Vec<Span>>)
    ensures
        spans::lines_view(r@) == footer_lines_view(part_views(parts@), width as int),
{
    let available = width as usize;
    let mut lines: Vec<Vec<Span>> = Vec::new();
    assert(spans::lines_view(lines@) =~= Seq::<Seq<spans::SpanView>>::empty());
    if available <= SESSION_META_INDENT_WIDTH {
        return lines;
    }
    let cwd_width = cwd_column_width(available);
    let n = parts.len();
    if !footer_parts_are_wider_than(parts, 0, n, cwd_width, available) {
        spans::push_line(&mut lines, footer_line(parts, 0, n, available, cwd_width));
        assert(spans::lines_view(lines@) =~= seq![
            footer_line_view(part_views(parts@), 0, n as int, width as int, cwd_width as int),
        ]);
        return lines;
    }
    if n == 0 {
        return lines;
    }
    let mut start: usize = 0;
    let mut i: usize = 1;
    while i < n
        invariant
            1 <= i <= n == parts@.len(),
            available == width,
            SESSION_META_INDENT_WIDTH <= available,
            start < i,
            start == group_start(part_views(parts@), i - 1, width as int, cwd_width as int),
            spans::lines_view(lines@) == full_lines(part_views(parts@), i - 1, width as int, cwd_width as int),
        decreases n - i,
    {
        if footer_parts_are_wider_than(parts, start, i + 1, cwd_width, available) {
            spans::push_line(&mut lines, footer_line(parts, start, i, available, cwd_width));
            start = i;
        }
        i = i + 1;
    }
    spans::push_line(&mut lines, footer_line(parts, start, n, available, cwd_width));
    lines
}

/// The parts of a session's footer: the time that sessions are sorted by, the working
/// directory and the branch.
pub open spec fn session_parts(
    sort_key: ThreadSortKey,
    created: Seq<char>,
    updated: Seq<char>,
    branch: Option<Seq<char>>,
    cwd: Option<Seq<char>>,
) -> Seq<PartView> {
    seq![
        PartView::Date(
            match sort_key {
                ThreadSortKey::CreatedAt => created,
                ThreadSortKey::UpdatedAt => updated,
            },
        ),
        PartView::Cwd(cwd),
        PartView::Branch(branch),
    ]
}

/// A text that may be there, by its characters.
pub open spec fn slice_view(s: Option<&str>) -> Option<Seq<char>> {
    match s {
        Some(t) => Some(t@),
        None => None,
    }
}

fn owned(s: Option<&str>) -> (r: Option<String>)
    ensures
        text::option_view(r) == slice_view(s),
{
    match s {
        Some(t) => Some(t.to_owned()),
        None => None,
    }
}

/// The footer of a session.
pub fn render_footer_lines(
    sort_key: ThreadSortKey,
    created: &str,
    updated: &str,
    branch: Option<&str>,
    cwd: Option<&str>,
    width: u16,
) -> (r: Vec<Vec<Span>>)
    ensures
        spans::lines_view(r@) == footer_lines_view(
            session_parts(sort_key, created@, updated@, slice_view(branch), slice_view(cwd)),
            width as int,
        ),
{
    let date = match sort_key {
        ThreadSortKey::CreatedAt => created,
        ThreadSortKey::UpdatedAt => updated,
    };
    let mut parts: Vec<FooterPart> = Vec::new();
    parts.push(FooterPart::Date(date.to_owned()));
    parts.push(FooterPart::Cwd(owned(cwd)));
    parts.push(FooterPart::Branch(owned(branch)));
    assert(part_views(parts@) =~= session_parts(
        sort_key,
        created@,
        updated@,
        slice_view(branch),
        slice_view(cwd),
    ));
    pack_footer_parts(parts.as_slice(), width)
}

/// A footer has at most a line for each part.
pub proof fn footers_have_a_line_for_a_part_at_most(parts: Seq<PartView>, width: int)
    requires
        parts.len() > 0,
    ensures
        footer_lines_view(parts, width).len() <= parts.len(),
{
    lemma_full_lines(parts, parts.len() - 1, width, cwd_columns(width));
}

proof fn lemma_full_lines(parts: Seq<PartView>, i: int, width: int, cwd_width: int)
    requires
        0 <= i,
    ensures
        full_lines(parts, i, width, cwd_width).len() <= i,
    decreases i,
{
    if i > 0 {
        lemma_full_lines(parts, i - 1, width, cwd_width);
    }
}

// ---- previews ----

/// A piece of a line of rendered Markdown, with the number of its style on that line.
#[derive(Debug)]
pub struct RenderedPiece {
    pub text: String,
    pub style: u32,
}

/// A line of rendered Markdown, with the number of its own style.
#[derive(Debug)]
pub struct RenderedLine {
    pub style: u32,
    pub pieces: Vec<RenderedPiece>,
}

/// What a Markdown source renders to in a width.
#[derive(Debug)]
pub struct Rendering {
    pub source: String,
    pub width: usize,
    pub lines: Vec<RenderedLine>,
}

/// The lines that a source renders to in a width, from the first of the renderings from `i` on
/// that is of it.
pub open spec fn rendering_from(
    renderings: Seq<Rendering>,
    source: Seq<char>,
    width: int,
    i: int,
) -> Option<Seq<RenderedLine>>
    decreases renderings.len() - i,
{
    if i < 0 || i >= renderings.len() {
        None
    } else if renderings[i].source@ == source && renderings[i].width == width {
        Some(renderings[i].lines@)
    } else {
        rendering_from(renderings, source, width, i + 1)
    }
}

/// The lines that a source renders to in a width.
pub open spec fn rendering_of(renderings: Seq<Rendering>, source: Seq<char>, width: int) -> Option<
    Seq<RenderedLine>,
> {
    rendering_from(renderings, source, width, 0)
}

/// The lines that a source renders to in a width, where it was rendered in it.
pub fn find_rendering<'a>(renderings: &'a Vec<Rendering>, source: &str, width: usize) -> (r: Option<
    &'a Vec<RenderedLine>,
>)
    ensures
        match r {
            Some(lines) => rendering_of(renderings@, source@, width as int) == Some(lines@),
            None => rendering_of(renderings@, source@, width as int) is None,
        },
{
    let mut i: usize = 0;
    while i < renderings.len()
        invariant
            i <= renderings.len(),
            rendering_of(renderings@, source@, width as int) == rendering_from(
                renderings@,
                source@,
                width as int,
                i as int,
            ),
        decreases renderings.len() - i,
    {
        let rendering = &renderings[i];
        if rendering.width == width && text::same_str(rendering.source.as_str(), source) {
            return Some(&rendering.lines);
        }
        i = i + 1;
    }
    None
}

/// A rendering that is added last is found where none was before.
pub(crate) proof fn lemma_rendering_added(
    renderings: Seq<Rendering>,
    added: Rendering,
    source: Seq<char>,
    width: int,
    i: int,
)
    requires
        0 <= i <= renderings.len(),
    ensures
        rendering_from(renderings.push(added), source, width, i) == (match rendering_from(
            renderings,
            source,
            width,
            i,
        ) {
            Some(known) => Some(known),
            None => if source == added.source@ && width == added.width {
                Some(added.lines@)
            } else {
                None
            },
        }),
    decreases renderings.len() - i,
{
    if i < renderings.len() {
        lemma_rendering_added(renderings, added, source, width, i + 1);
    } else {
        assert(rendering_from(renderings.push(added), source, width, i + 1) is None);
    }
}

/// The width that the lines of a preview take in a list: what its prefix leaves of the list's.
pub fn preview_width(width: u16) -> (r: usize)
    ensures
        r == left_of(width as int, 4),
{
    if width > 4 {
        width as usize - 4
    } else {
        0
    }
}

/// What is known of a session's transcript.
#[derive(Debug)]
pub enum TranscriptPreviewState {
    Loading,
    Loaded(Vec<TranscriptPreviewLine>),
    Failed,
}

/// A line of a preview without its prefix: the tone of the line, and its pieces.
pub type ContentView = (Tone, Seq<spans::SpanView>);

/// The pieces of a line of rendered Markdown, made dim.
pub open spec fn dim_pieces(pieces: Seq<RenderedPiece>) -> Seq<spans::SpanView> {
    Seq::new(pieces.len(), |i: int| (pieces[i].text@, Tone::DimRendered(pieces[i].style)))
}

/// Texts as pieces of a line of the user's.
pub open spec fn user_pieces(texts: Seq<Seq<char>>) -> Seq<spans::SpanView> {
    Seq::new(texts.len(), |i: int| (texts[i], Tone::UserLine))
}

/// The lines on the screen that a line of a transcript takes: one for a line of the user's, and
/// for one of the assistant's those that it renders to in the width. One that was not rendered
/// in the width takes none.
pub open spec fn content_of(
    line: TranscriptPreviewLine,
    renderings: Seq<Rendering>,
    width: int,
) -> Seq<ContentView> {
    let room = left_of(width, 4);
    match line.speaker {
        TranscriptPreviewSpeaker::User => seq![
            (Tone::UserLine, user_pieces(text::text_lines(shortened(line.text@, room)))),
        ],
        TranscriptPreviewSpeaker::Assistant => match rendering_of(renderings, line.text@, room) {
            Some(lines) => Seq::new(
                lines.len(),
                |i: int| (Tone::DimRendered(lines[i].style), dim_pieces(lines[i].pieces@)),
            ),
            None => Seq::empty(),
        },
    }
}

/// The lines on the screen that the first `n` lines of a transcript take.
pub open spec fn contents_of(
    lines: Seq<TranscriptPreviewLine>,
    renderings: Seq<Rendering>,
    n: int,
    width: int,
) -> Seq<ContentView>
    decreases n,
{
    if n <= 0 {
        Seq::empty()
    } else {
        contents_of(lines, renderings, n - 1, width) + content_of(lines[n - 1], renderings, width)
    }
}

/// Lines with the prefixes of a preview, of which the last is marked as such. A prefix has the
/// tone of its line.
pub open spec fn hung(contents: Seq<ContentView>) -> Seq<Seq<spans::SpanView>> {
    Seq::new(
        contents.len(),
        |i: int|
            seq![
                (
                    if i + 1 == contents.len() {
                        "  └ "@
                    } else {
                        "  │ "@
                    },
                    contents[i].0,
                ),
            ] + contents[i].1,
    )
}

/// The preview of a session.
pub open spec fn preview_view(
    preview: Option<TranscriptPreviewState>,
    renderings: Seq<Rendering>,
    width: int,
) -> Seq<Seq<spans::SpanView>> {
    match preview {
        None => Seq::empty(),
        Some(TranscriptPreviewState::Loading) => seq![
            seq![("  │ "@, Tone::Dim), ("Loading recent transcript..."@, Tone::DimItalic)],
        ],
        Some(TranscriptPreviewState::Failed) => seq![
            seq![("  │ "@, Tone::Dim), ("Could not load transcript preview"@, Tone::RedItalic)],
        ],
        Some(TranscriptPreviewState::Loaded(lines)) => if lines@.len() == 0 {
            seq![
                seq![("  └ "@, Tone::Dim), ("No transcript preview available"@, Tone::DimItalic)],
            ]
        } else {
            hung(contents_of(lines@, renderings, lines@.len() as int, width))
        },
    }
}

/// A line of a preview without its prefix.
struct ContentLine {
    tone: Tone,
    pieces: Vec<Span>,
}

spec fn content_views(lines: Seq<ContentLine>) -> Seq<ContentView> {
    Seq::new(lines.len(), |i: int| (lines[i].tone, spans::line_view(lines[i].pieces@)))
}

fn push_content_line(out: &mut Vec<ContentLine>, tone: Tone, pieces: Vec<Span>)
    ensures
        content_views(final(out)@) == content_views(old(out)@).push(
            (tone, spans::line_view(pieces@)),
        ),
{
    let ghost before = content_views(out@);
    out.push(ContentLine { tone, pieces });
    assert(content_views(out@) =~= before.push((tone, spans::line_view(pieces@))));
}

fn user_line(s: &str) -> (r: Vec<Span>)
    ensures
        spans::line_view(r@) == user_pieces(text::text_lines(s@)),
{
    let chars = text::chars_of(s);
    let texts = text::lines_of(chars.as_slice());
    let ghost v = text::char_views(texts@);
    let ghost all = user_pieces(v);
    let mut r = spans::empty_line();
    let mut i: usize = 0;
    assert(all.take(0) =~= Seq::<spans::SpanView>::empty());
    while i < texts.len()
        invariant
            i <= texts.len(),
            v == text::char_views(texts@),
            all == user_pieces(v),
            spans::line_view(r@) == all.take(i as int),
        decreases texts.len() - i,
    {
        assert(v[i as int] == texts@[i as int]@);
        spans::push_span(&mut r, text::string_of(texts[i].as_slice()), Tone::UserLine);
        assert(all.take(i + 1) =~= all.take(i as int).push(all[i as int]));
        i = i + 1;
    }
    assert(all.take(i as int) =~= all);
    r
}

fn dim_line(pieces: &Vec<RenderedPiece>) -> (r: Vec<Span>)
    ensures
        spans::line_view(r@) == dim_pieces(pieces@),
{
    let ghost all = dim_pieces(pieces@);
    let mut r = spans::empty_line();
    let mut i: usize = 0;
    assert(all.take(0) =~= Seq::<spans::SpanView>::empty());
    while i < pieces.len()
        invariant
            i <= pieces.len(),
            all == dim_pieces(pieces@),
            spans::line_view(r@) == all.take(i as int),
        decreases pieces.len() - i,
    {
        spans::push_span(&mut r, pieces[i].text.clone(), Tone::DimRendered(pieces[i].style));
        assert(all.take(i + 1) =~= all.take(i as int).push(all[i as int]));
        i = i + 1;
    }
    assert(all.take(i as int) =~= all);
    r
}

fn push_content(
    out: &mut Vec<ContentLine>,
    line: &TranscriptPreviewLine,
    renderings: &Vec<Rendering>,
    width: u16,
)
    ensures
        content_views(final(out)@) == content_views(old(out)@) + content_of(
            *line,
            renderings@,
            width as int,
        ),
{
    let ghost before = content_views(out@);
    let ghost all = content_of(*line, renderings@, width as int);
    let room = preview_width(width);
    match line.speaker {
        TranscriptPreviewSpeaker::User => {
            let cut = truncate_text(line.text.as_str(), room);
            push_content_line(out, Tone::UserLine, user_line(cut.as_str()));
            assert(content_views(out@) =~= before + all);
        },
        TranscriptPreviewSpeaker::Assistant => {
            match find_rendering(renderings, line.text.as_str(), room) {
                Some(lines) => {
                    let mut i: usize = 0;
                    assert(before + all.take(0) =~= before);
                    while i < lines.len()
                        invariant
                            i <= lines.len(),
                            all == Seq::new(
                                lines@.len(),
                                |i: int|
                                    (
                                        Tone::DimRendered(lines@[i].style),
                                        dim_pieces(lines@[i].pieces@),
                                    ),
                            ),
                            content_views(out@) == before + all.take(i as int),
                        decreases lines.len() - i,
                    {
                        push_content_line(
                            out,
                            Tone::DimRendered(lines[i].style),
                            dim_line(&lines[i].pieces),
                        );
                        assert(before + all.take(i + 1) =~= (before + all.take(i as int)).push(
                            all[i as int],
                        ));
                        i = i + 1;
                    }
                    assert(all.take(i as int) =~= all);
                },
                None => {
                    assert(before + all =~= before);
                },
            }
        },
    }
}

/// The preview of a session.
pub fn render_transcript_preview_lines(
    preview: Option<&TranscriptPreviewState>,
    renderings: &Vec<Rendering>,
    width: u16,
) -> (r: Vec<Vec<Span>>)
    ensures
        spans::lines_view(r@) == preview_view(
            match preview {
                Some(p) => Some(*p),
                None => None,
            },
            renderings@,
            width as int,
        ),
{
    let state = match preview {
        None => {
            let none: Vec<Vec<Span>> = Vec::new();
            assert(spans::lines_view(none@) =~= Seq::<Seq<spans::SpanView>>::empty());
            return none;
        },
        Some(state) => state,
    };
    match state {
        TranscriptPreviewState::Loading => spans::one_line(
            spans::two_spans(
                "  │ ",
                Tone::Dim,
                "Loading recent transcript...".to_owned(),
                Tone::DimItalic,
            ),
        ),
        TranscriptPreviewState::Failed => spans::one_line(
            spans::two_spans(
                "  │ ",
                Tone::Dim,
                "Could not load transcript preview".to_owned(),
                Tone::RedItalic,
            ),
        ),
        TranscriptPreviewState::Loaded(lines) => {
            if lines.len() == 0 {
                return spans::one_line(
                    spans::two_spans(
                        "  └ ",
                        Tone::Dim,
                        "No transcript preview available".to_owned(),
                        Tone::DimItalic,
                    ),
                );
            }
            let mut contents: Vec<ContentLine> = Vec::new();
            let mut i: usize = 0;
            assert(content_views(contents@) =~= contents_of(lines@, renderings@, 0, width as int));
            while i < lines.len()
                invariant
                    i <= lines.len(),
                    content_views(contents@) == contents_of(
                        lines@,
                        renderings@,
                        i as int,
                        width as int,
                    ),
                decreases lines.len() - i,
            {
                push_content(&mut contents, &lines[i], renderings, width);
                i = i + 1;
            }
            let ghost all = content_views(contents@);
            let n = contents.len();
            let mut rendered: Vec<Vec<Span>> = Vec::new();
            let mut k: usize = 0;
            assert(spans::lines_view(rendered@) =~= hung(all).take(0));
            while k < n
                invariant
                    k <= n,
                    n == contents.len(),
                    all == content_views(contents@),
                    spans::lines_view(rendered@) == hung(all).take(k as int),
                decreases n - k,
            {
                let prefix = if k + 1 == n {
                    "  └ "
                } else {
                    "  │ "
                };
                let mut line = spans::empty_line();
                spans::push_span(&mut line, prefix.to_owned(), contents[k].tone);
                spans::extend_line(&mut line, &contents[k].pieces);
                assert(spans::line_view(line@) =~= hung(all)[k as int]);
                spans::push_line(&mut rendered, line);
                assert(hung(all).take(k + 1) =~= hung(all).take(k as int).push(
                    hung(all)[k as int],
                ));
                k = k + 1;
            }
            assert(hung(all).take(k as int) =~= hung(all));
            rendered
        },
    }
}

// ---- sessions ----

/// The mark before a session.
pub open spec fn marker(is_selected: bool, is_expanded: bool) -> spans::SpanView {
    if !is_selected {
        ("  "@, Tone::Plain)
    } else if is_expanded {
        ("▾ "@, Tone::Marker)
    } else {
        ("▸ "@, Tone::Marker)
    }
}

/// When a session was last written to, as far as that is known.
pub open spec fn last_update(row: Row) -> Option<Timestamp> {
    match row.updated_at {
        Some(t) => Some(t),
        None => row.created_at,
    }
}

/// What a session is listed as.
pub open spec fn row_title(row: Row) -> Seq<char> {
    match row.thread_name {
        Some(name) => name@,
        None => row.preview@,
    }
}

/// The footer of a session.
pub open spec fn row_footer(row: Row, sort_key: ThreadSortKey, reference: Timestamp, width: int)
    -> Seq<Seq<spans::SpanView>> {
    footer_lines_view(
        session_parts(
            sort_key,
            session_rows::relative_time(reference, row.created_at),
            session_rows::relative_time(reference, last_update(row)),
            text::option_view(row.git_branch),
            text::option_view(row.cwd_display),
        ),
        width,
    )
}

/// The lines of a session: its title, its preview where it is expanded, and its footer.
pub open spec fn session_view(
    row: Row,
    preview: Option<TranscriptPreviewState>,
    renderings: Seq<Rendering>,
    sort_key: ThreadSortKey,
    reference: Timestamp,
    is_selected: bool,
    is_expanded: bool,
    width: int,
) -> Seq<Seq<spans::SpanView>> {
    let title = (
        shortened(row_title(row), left_of(width, 2)),
        if is_selected {
            Tone::SelectedTitle
        } else {
            Tone::Plain
        },
    );
    seq![seq![marker(is_selected, is_expanded), title]] + (if is_expanded {
        preview_view(preview, renderings, width)
    } else {
        Seq::empty()
    }) + row_footer(row, sort_key, reference, width)
}

/// The lines of a session.
pub fn render_session_lines(
    row: &Row,
    preview: Option<&TranscriptPreviewState>,
    renderings: &Vec<Rendering>,
    sort_key: ThreadSortKey,
    reference: Timestamp,
    is_selected: bool,
    is_expanded: bool,
    width: u16,
) -> (r: Vec<Vec<Span>>)
    ensures
        spans::lines_view(r@) == session_view(
            *row,
            match preview {
                Some(p) => Some(*p),
                None => None,
            },
            renderings@,
            sort_key,
            reference,
            is_selected,
            is_expanded,
            width as int,
        ),
{
    let (mark, mark_tone) = if !is_selected {
        ("  ", Tone::Plain)
    } else if is_expanded {
        ("▾ ", Tone::Marker)
    } else {
        ("▸ ", Tone::Marker)
    };
    let created = session_rows::format_relative_time(reference, row.created_at);
    let updated = session_rows::format_relative_time(
        reference,
        match row.updated_at {
            Some(t) => Some(t),
            None => row.created_at,
        },
    );
    let room: usize = if width > 2 {
        width as usize - 2
    } else {
        0
    };
    let title = truncate_text(row.display_preview(), room);
    let title_tone = if is_selected {
        Tone::SelectedTitle
    } else {
        Tone::Plain
    };
    let mut lines = spans::one_line(spans::two_spans(mark, mark_tone, title, title_tone));
    let ghost head = spans::lines_view(lines@);
    if is_expanded {
        spans::append_lines(
            &mut lines,
            render_transcript_preview_lines(preview, renderings, width),
        );
    } else {
        assert(head + Seq::<Seq<spans::SpanView>>::empty() =~= head);
    }
    let footer = render_footer_lines(
        sort_key,
        created.as_str(),
        updated.as_str(),
        match &row.git_branch {
            Some(b) => Some(b.as_str()),
            None => None,
        },
        match &row.cwd_display {
            Some(c) => Some(c.as_str()),
            None => None,
        },
        width,
    );
    spans::append_lines(&mut lines, footer);
    lines
}

// ---- around the list ----

/// The line above the list: an error, or what is searched for and by what is sorted.
pub open spec fn search_view(
    inline_error: Option<Seq<char>>,
    query: Seq<char>,
    sort_key: ThreadSortKey,
    width: int,
) -> Seq<spans::SpanView> {
    match inline_error {
        Some(e) => seq![(e, Tone::Red)],
        None => {
            let search: spans::SpanView = if query.len() == 0 {
                ("Type to search"@, Tone::Dim)
            } else {
                ("Search: "@ + query, Tone::Plain)
            };
            let sort = session_rows::sort_label(sort_key);
            // The width is counted in sixteen bits.
            let taken = (search.0.len() + "Sort: "@.len() + sort.len()) % 65536;
            let spacer = if left_of(width, taken as int) < 2 {
                2
            } else {
                left_of(width, taken as int)
            };
            seq![
                search,
                (text::repeat_char(' ', spacer as nat), Tone::Plain),
                ("Sort: "@, Tone::Dim),
                (sort, Tone::Magenta),
            ]
        },
    }
}

/// The line above the list.
pub fn search_line(inline_error: Option<&str>, query: &str, sort_key: ThreadSortKey, width: u16)
    -> (r: Vec<Span>)
    ensures
        spans::line_view(r@) == search_view(
            slice_view(inline_error),
            query@,
            sort_key,
            width as int,
        ),
{
    let mut line = spans::empty_line();
    if let Some(e) = inline_error {
        spans::push_span(&mut line, e.to_owned(), Tone::Red);
        assert(spans::line_view(line@) =~= seq![(e@, Tone::Red)]);
        return line;
    }
    let q = text::chars_of(query);
    let (search, tone) = if q.len() == 0 {
        ("Type to search".to_owned(), Tone::Dim)
    } else {
        let mut s = "Search: ".to_owned();
        s.push_str(query);
        (s, Tone::Plain)
    };
    let sort = session_rows::sort_key_label(sort_key);
    let taken: u128 = text::chars_of(search.as_str()).len() as u128 + text::chars_of(
        "Sort: ",
    ).len() as u128 + text::chars_of(sort).len() as u128;
    let counted: usize = (taken % 65536) as usize;
    let left: usize = if width as usize > counted {
        width as usize - counted
    } else {
        0
    };
    let spacer: usize = if left < 2 {
        2
    } else {
        left
    };
    let ghost first = (search@, tone);
    spans::push_span(&mut line, search, tone);
    spans::push_span(&mut line, display::spaces(spacer), Tone::Plain);
    spans::push_span(&mut line, "Sort: ".to_owned(), Tone::Dim);
    spans::push_span(&mut line, sort.to_owned(), Tone::Magenta);
    assert(spans::line_view(line@) =~= seq![
        first,
        (text::repeat_char(' ', spacer as nat), Tone::Plain),
        ("Sort: "@, Tone::Dim),
        (sort@, Tone::Magenta),
    ]);
    line
}

/// The line below the list: the keys and what they do.
pub open spec fn hint_view(action: SessionPickerAction, searching: bool) -> Seq<spans::SpanView> {
    seq![
        ("enter"@, Tone::Key),
        (
            " to "@ + (match action {
                SessionPickerAction::Resume => "resume"@,
                SessionPickerAction::Fork => "fork"@,
            }) + " "@,
            Tone::Dim,
        ),
        ("    "@, Tone::Dim),
        ("esc"@, Tone::Key),
        (
            if searching {
                " to clear search "@
            } else {
                " to start new "@
            },
            Tone::Dim,
        ),
        ("    "@, Tone::Dim),
        ("ctrl + c"@, Tone::Key),
        (" to quit "@, Tone::Dim),
        ("    "@, Tone::Dim),
        ("tab"@, Tone::Key),
        (" to toggle sort "@, Tone::Dim),
        ("    "@, Tone::Dim),
        ("space"@, Tone::Key),
        (" to expand "@, Tone::Dim),
        ("    "@, Tone::Dim),
        ("↑"@, Tone::Key),
        ("/"@, Tone::Dim),
        ("↓"@, Tone::Key),
        (" to browse"@, Tone::Dim),
    ]
}

/// The line below the list.
pub fn hint_line(action: SessionPickerAction, query: &str) -> (r: Vec<Span>)
    ensures
        spans::line_view(r@) == hint_view(action, query@.len() > 0),
{
    let searching = text::chars_of(query).len() > 0;
    let mut act = " to ".to_owned();
    act.push_str(action.action_label());
    act.push_str(" ");
    let mut line = spans::empty_line();
    spans::push_span(&mut line, "enter".to_owned(), Tone::Key);
    spans::push_span(&mut line, act, Tone::Dim);
    spans::push_span(&mut line, "    ".to_owned(), Tone::Dim);
    spans::push_span(&mut line, "esc".to_owned(), Tone::Key);
    if searching {
        spans::push_span(&mut line, " to clear search ".to_owned(), Tone::Dim);
    } else {
        spans::push_span(&mut line, " to start new ".to_owned(), Tone::Dim);
    }
    spans::push_span(&mut line, "    ".to_owned(), Tone::Dim);
    spans::push_span(&mut line, "ctrl + c".to_owned(), Tone::Key);
    spans::push_span(&mut line, " to quit ".to_owned(), Tone::Dim);
    spans::push_span(&mut line, "    ".to_owned(), Tone::Dim);
    spans::push_span(&mut line, "tab".to_owned(), Tone::Key);
    spans::push_span(&mut line, " to toggle sort ".to_owned(), Tone::Dim);
    spans::push_span(&mut line, "    ".to_owned(), Tone::Dim);
    spans::push_span(&mut line, "space".to_owned(), Tone::Key);
    spans::push_span(&mut line, " to expand ".to_owned(), Tone::Dim);
    spans::push_span(&mut line, "    ".to_owned(), Tone::Dim);
    spans::push_span(&mut line, "↑".to_owned(), Tone::Key);
    spans::push_span(&mut line, "/".to_owned(), Tone::Dim);
    spans::push_span(&mut line, "↓".to_owned(), Tone::Key);
    spans::push_span(&mut line, " to browse".to_owned(), Tone::Dim);
    assert(spans::line_view(line@) =~= hint_view(action, query@.len() > 0));
    line
}

// ---- what is shown ----

/// A footer shows its parts in order: its lines divide the parts among them, a line that has more
/// than one part is no wider than there is room, and what begins a line had no room in the line
/// before it.
pub open spec fn divides(
    lines: Seq<Seq<spans::SpanView>>,
    parts: Seq<PartView>,
    width: int,
    cuts: Seq<int>,
) -> bool {
    &&& cuts.len() == lines.len() + 1
    &&& cuts[0] == 0
    &&& cuts.last() == parts.len()
    &&& forall|l: int|
        0 <= l < lines.len() ==> {
            &&& 0 <= #[trigger] cuts[l] < cuts[l + 1] <= parts.len()
            &&& lines[l] == footer_line_view(
                parts,
                cuts[l],
                cuts[l + 1],
                width,
                cwd_columns(width),
            )
            &&& cuts[l + 1] > cuts[l] + 1 ==> parts_width(
                parts,
                cuts[l],
                cuts[l + 1],
                cwd_columns(width),
            ) <= width
            &&& l + 1 < lines.len() ==> parts_width(
                parts,
                cuts[l],
                cuts[l + 1] + 1,
                cwd_columns(width),
            ) > width
        }
}

proof fn lemma_cuts(parts: Seq<PartView>, i: int, width: int) -> (cuts: Seq<int>)
    requires
        0 <= i < parts.len(),
    ensures
        ({
            let lines = full_lines(parts, i, width, cwd_columns(width));
            let start = group_start(parts, i, width, cwd_columns(width));
            &&& cuts.len() == lines.len() + 1
            &&& cuts[0] == 0
            &&& cuts.last() == start
            &&& 0 <= start <= i
            &&& start < i ==> parts_width(parts, start, i + 1, cwd_columns(width)) <= width
            &&& forall|l: int|
                0 <= l < lines.len() ==> {
                    &&& 0 <= #[trigger] cuts[l] < cuts[l + 1] <= i
                    &&& lines[l] == footer_line_view(
                        parts,
                        cuts[l],
                        cuts[l + 1],
                        width,
                        cwd_columns(width),
                    )
                    &&& cuts[l + 1] > cuts[l] + 1 ==> parts_width(
                        parts,
                        cuts[l],
                        cuts[l + 1],
                        cwd_columns(width),
                    ) <= width
                    &&& parts_width(parts, cuts[l], cuts[l + 1] + 1, cwd_columns(width)) > width
                }
        }),
    decreases i,
{
    if i == 0 {
        seq![0int]
    } else {
        let cwd_width = cwd_columns(width);
        let before = lemma_cuts(parts, i - 1, width);
        let old_lines = full_lines(parts, i - 1, width, cwd_width);
        let lines = full_lines(parts, i, width, cwd_width);
        let start = group_start(parts, i - 1, width, cwd_width);
        if group_start(parts, i, width, cwd_width) == i {
            let cuts = before.push(i);
            assert forall|l: int| 0 <= l < lines.len() implies {
                &&& 0 <= #[trigger] cuts[l] < cuts[l + 1] <= i
                &&& lines[l] == footer_line_view(parts, cuts[l], cuts[l + 1], width, cwd_width)
                &&& cuts[l + 1] > cuts[l] + 1 ==> parts_width(
                    parts,
                    cuts[l],
                    cuts[l + 1],
                    cwd_width,
                ) <= width
                &&& parts_width(parts, cuts[l], cuts[l + 1] + 1, cwd_width) > width
            } by {
                if l < old_lines.len() {
                    assert(cuts[l] == before[l]);
                    assert(cuts[l + 1] == before[l + 1]);
                } else {
                    assert(cuts[l] == start);
                }
            }
            cuts
        } else {
            before
        }
    }
}

/// A footer with room for more than its indent shows all its parts, in order.
pub proof fn footers_show_every_part(parts: Seq<PartView>, width: int)
    requires
        parts.len() > 0,
        width > SESSION_META_INDENT_WIDTH,
    ensures
        exists|cuts: Seq<int>| #[trigger]
            divides(footer_lines_view(parts, width), parts, width, cuts),
{
    let cwd_width = cwd_columns(width);
    let n = parts.len() as int;
    let lines = footer_lines_view(parts, width);
    if parts_width(parts, 0, n, cwd_width) <= width {
        assert(divides(lines, parts, width, seq![0, n]));
    } else {
        let before = lemma_cuts(parts, n - 1, width);
        let cuts = before.push(n);
        let full = full_lines(parts, n - 1, width, cwd_width);
        assert forall|l: int| 0 <= l < lines.len() implies {
            &&& 0 <= #[trigger] cuts[l] < cuts[l + 1] <= parts.len()
            &&& lines[l] == footer_line_view(parts, cuts[l], cuts[l + 1], width, cwd_width)
            &&& cuts[l + 1] > cuts[l] + 1 ==> parts_width(parts, cuts[l], cuts[l + 1], cwd_width)
                <= width
            &&& l + 1 < lines.len() ==> parts_width(parts, cuts[l], cuts[l + 1] + 1, cwd_width)
                > width
        } by {
            if l < full.len() {
                assert(cuts[l] == before[l]);
                assert(cuts[l + 1] == before[l + 1]);
            }
        }
        assert(divides(lines, parts, width, cuts));
    }
}

/// Whether a part is shown in a line, with as much room as there may be.
pub open spec fn shows_footer_part(line: Seq<spans::SpanView>, part: PartView) -> bool {
    exists|target: Option<int>, available: int|
        spans::holds_part(line, #[trigger] part_spans(part, target, available))
}

proof fn lemma_part_kept(line: Seq<spans::SpanView>, more: Seq<spans::SpanView>, part: PartView)
    requires
        shows_footer_part(line, part),
    ensures
        shows_footer_part(line + more, part),
{
    let (target, available) = choose|target: Option<int>, available: int|
        spans::holds_part(line, #[trigger] part_spans(part, target, available));
    let shown = part_spans(part, target, available);
    let p = choose|p: int|
        0 <= p <= line.len() - shown.len() && #[trigger] line.subrange(p, p + shown.len())
            == shown;
    assert((line + more).subrange(p, p + shown.len()) =~= line.subrange(p, p + shown.len()));
    assert(spans::holds_part(line + more, shown));
}

proof fn lemma_part_held(
    before: Seq<spans::SpanView>,
    part: Seq<spans::SpanView>,
    after: Seq<spans::SpanView>,
)
    ensures
        spans::holds_part(before + part + after, part),
{
    let whole = before + part + after;
    let p = before.len() as int;
    assert(whole.subrange(p, p + part.len()) =~= part);
}

proof fn lemma_footer_step(
    parts: Seq<PartView>,
    from: int,
    to: int,
    n: int,
    width: int,
    cwd_width: int,
) -> (r: (Seq<spans::SpanView>, Seq<spans::SpanView>, Seq<spans::SpanView>))
    requires
        0 <= from < n <= to <= parts.len(),
    ensures
        footer_state(parts, from, to, n, width, cwd_width).0 == footer_state(
            parts,
            from,
            to,
            n - 1,
            width,
            cwd_width,
        ).0 + r.0 + r.1 + r.2,
        shows_footer_part(
            footer_state(parts, from, to, n - 1, width, cwd_width).0 + r.0 + r.1,
            parts[n - 1],
        ),
{
    let (spans, left) = footer_state(parts, from, to, n - 1, width, cwd_width);
    let part = parts[n - 1];
    let gap = if n - 1 > from {
        smaller(SESSION_META_FIELD_GAP_WIDTH as int, left)
    } else {
        0
    };
    let target = target_of(part, n < to, cwd_width);
    let used = part_used(part, target, left - gap);
    let padding = match target {
        Some(t) => left_of(t, used),
        None => 0,
    };
    let shown = part_spans(part, target, left - gap);
    lemma_part_held(spans + blank_span(gap), shown, Seq::empty());
    assert(spans + blank_span(gap) + shown + Seq::<spans::SpanView>::empty() =~= spans + blank_span(
        gap,
    ) + shown);
    (blank_span(gap), shown, blank_span(padding))
}

proof fn lemma_shown_parts(
    parts: Seq<PartView>,
    from: int,
    to: int,
    n: int,
    width: int,
    cwd_width: int,
    i: int,
)
    requires
        0 <= from <= i < n <= to <= parts.len(),
    ensures
        shows_footer_part(footer_state(parts, from, to, n, width, cwd_width).0, parts[i]),
    decreases n,
{
    let (gap, shown, padding) = lemma_footer_step(parts, from, to, n, width, cwd_width);
    let spans = footer_state(parts, from, to, n - 1, width, cwd_width).0;
    if i < n - 1 {
        lemma_shown_parts(parts, from, to, n - 1, width, cwd_width, i);
        lemma_part_kept(spans, gap, parts[i]);
        lemma_part_kept(spans + gap, shown, parts[i]);
        lemma_part_kept(spans + gap + shown, padding, parts[i]);
    } else {
        lemma_part_kept(spans + gap + shown, padding, parts[i]);
    }
}

/// A line of a footer begins with its indent and shows each of its parts.
pub proof fn footer_lines_show_their_parts(
    parts: Seq<PartView>,
    from: int,
    to: int,
    width: int,
    cwd_width: int,
    i: int,
)
    requires
        0 <= from <= i < to <= parts.len(),
    ensures
        shows_footer_part(footer_line_view(parts, from, to, width, cwd_width), parts[i]),
        footer_line_view(parts, from, to, width, cwd_width).len() > 0,
        footer_line_view(parts, from, to, width, cwd_width)[0].0 == "  "@,
{
    lemma_shown_parts(parts, from, to, to, width, cwd_width, i);
    lemma_indented(parts, from, to, to, width, cwd_width);
}

proof fn lemma_indented(
    parts: Seq<PartView>,
    from: int,
    to: int,
    n: int,
    width: int,
    cwd_width: int,
)
    requires
        from <= n,
    ensures
        footer_state(parts, from, to, n, width, cwd_width).0.len() > 0,
        footer_state(parts, from, to, n, width, cwd_width).0[0].0 == "  "@,
    decreases n - from,
{
    if n > from {
        lemma_indented(parts, from, to, n - 1, width, cwd_width);
    }
}

/// A part with room is shown whole: a date as its text, a branch or a directory as its icon, a
/// space and its text, or what says that there is none.
pub proof fn parts_with_room_are_shown_whole(part: PartView, available: int)
    requires
        available >= display::display_width(SESSION_META_BRANCH_ICON@) + 1 + part_text(part).len(),
        available >= display::display_width(SESSION_META_CWD_ICON@) + 1 + part_text(part).len(),
    ensures
        ({
            let shown = part_spans(part, None, available);
            let said = shown.last().0;
            &&& part matches PartView::Date(t) ==> shown.len() == 1 && said == t
            &&& part matches PartView::Branch(b) ==> shown[0].0 == SESSION_META_BRANCH_ICON@ && (
            match b {
                Some(name) => said == name,
                None => said == "no branch"@,
            })
            &&& part matches PartView::Cwd(c) ==> shown[0].0 == SESSION_META_CWD_ICON@ && (match c {
                Some(dir) => said == dir,
                None => said == "no cwd"@,
            })
            &&& part !is Date && said.len() > 0 ==> shown.len() == 3 && shown[1].0 == " "@
        }),
{
}

/// A footer tells when a session was begun if sessions are sorted by that, when it was last updated
/// if they are sorted by that, and where and on which branch it is.
pub proof fn footers_tell_time_place_and_branch(
    sort_key: ThreadSortKey,
    created: Seq<char>,
    updated: Seq<char>,
    branch: Option<Seq<char>>,
    cwd: Option<Seq<char>>,
)
    ensures
        ({
            let parts = session_parts(sort_key, created, updated, branch, cwd);
            &&& parts.len() == 3
            &&& sort_key is CreatedAt ==> parts.contains(PartView::Date(created))
            &&& sort_key is UpdatedAt ==> parts.contains(PartView::Date(updated))
            &&& parts.contains(PartView::Branch(branch))
            &&& parts.contains(PartView::Cwd(cwd))
        }),
{
    let parts = session_parts(sort_key, created, updated, branch, cwd);
    assert(parts[0] is Date && parts[1] == PartView::Cwd(cwd) && parts[2] == PartView::Branch(
        branch,
    ));
}

/// A shortened text is the text itself where it fits, and else begins as the text does and, where
/// there is room for them, ends with dots.
pub proof fn shortened_texts_begin_alike(s: Seq<char>, max: int)
    requires
        0 <= max,
    ensures
        s.len() <= max ==> shortened(s, max) == s,
        s.len() > max ==> shortened(s, max).len() == max,
        s.len() > max ==> forall|i: int|
            0 <= i < max - 3 ==> #[trigger] shortened(s, max)[i] == s[i],
        s.len() > max >= 3 ==> forall|i: int|
            max - 3 <= i < max ==> #[trigger] shortened(s, max)[i] == '.',
        s.len() > max && max < 3 ==> forall|i: int|
            0 <= i < max ==> #[trigger] shortened(s, max)[i] == s[i],
{
    reveal_strlit("...");
}

proof fn lemma_rendering_from(
    renderings: Seq<Rendering>,
    source: Seq<char>,
    width: int,
    i: int,
)
    requires
        0 <= i <= renderings.len(),
    ensures
        match rendering_from(renderings, source, width, i) {
            Some(lines) => exists|k: int|
                i <= k < renderings.len() && (#[trigger] renderings[k]).source@ == source
                    && renderings[k].width == width && renderings[k].lines@ == lines,
            None => forall|k: int|
                i <= k < renderings.len() ==> (#[trigger] renderings[k]).source@ != source
                    || renderings[k].width != width,
        },
    decreases renderings.len() - i,
{
    if i < renderings.len() {
        lemma_rendering_from(renderings, source, width, i + 1);
        if renderings[i].source@ == source && renderings[i].width == width {
            assert(renderings[i].lines@ == rendering_from(renderings, source, width, i)->0);
        }
    }
}

/// What is found for a text and a width was rendered from that text for that width, and it is found
/// wherever there is such a rendering.
pub proof fn renderings_are_found_by_source_and_width(
    renderings: Seq<Rendering>,
    source: Seq<char>,
    width: int,
)
    ensures
        match rendering_of(renderings, source, width) {
            Some(lines) => exists|k: int|
                0 <= k < renderings.len() && (#[trigger] renderings[k]).source@ == source
                    && renderings[k].width == width && renderings[k].lines@ == lines,
            None => forall|k: int|
                0 <= k < renderings.len() ==> (#[trigger] renderings[k]).source@ != source
                    || renderings[k].width != width,
        },
{
    lemma_rendering_from(renderings, source, width, 0);
}

/// How many lines the first `n` messages of a preview take.
pub open spec fn contents_before(
    lines: Seq<TranscriptPreviewLine>,
    renderings: Seq<Rendering>,
    n: int,
    width: int,
) -> int
    decreases n,
{
    if n <= 0 {
        0
    } else {
        contents_before(lines, renderings, n - 1, width) + content_of(
            lines[n - 1],
            renderings,
            width,
        ).len()
    }
}

proof fn lemma_contents(
    lines: Seq<TranscriptPreviewLine>,
    renderings: Seq<Rendering>,
    n: int,
    width: int,
    i: int,
)
    requires
        0 <= i < n <= lines.len(),
    ensures
        ({
            let all = contents_of(lines, renderings, n, width);
            let own = content_of(lines[i], renderings, width);
            let at = contents_before(lines, renderings, i, width);
            &&& all.len() == contents_before(lines, renderings, n, width)
            &&& 0 <= at && at + own.len() <= all.len()
            &&& all.subrange(at, at + own.len()) == own
        }),
    decreases n,
{
    lemma_contents_len(lines, renderings, n, width);
    lemma_contents_len(lines, renderings, n - 1, width);
    lemma_contents_len(lines, renderings, i, width);
    let all = contents_of(lines, renderings, n, width);
    let own = content_of(lines[i], renderings, width);
    let at = contents_before(lines, renderings, i, width);
    if i < n - 1 {
        lemma_contents(lines, renderings, n - 1, width, i);
        assert(all.subrange(at, at + own.len()) =~= contents_of(
            lines,
            renderings,
            n - 1,
            width,
        ).subrange(at, at + own.len()));
    } else {
        assert(all.subrange(at, at + own.len()) =~= own);
    }
}

proof fn lemma_contents_len(
    lines: Seq<TranscriptPreviewLine>,
    renderings: Seq<Rendering>,
    n: int,
    width: int,
)
    requires
        0 <= n <= lines.len(),
    ensures
        contents_of(lines, renderings, n, width).len() == contents_before(
            lines,
            renderings,
            n,
            width,
        ),
        contents_before(lines, renderings, n, width) >= 0,
    decreases n,
{
    if n > 0 {
        lemma_contents_len(lines, renderings, n - 1, width);
    }
}

/// A loaded preview shows every message of its own, in order and with nothing between them: each
/// line of a message behind a bar, and the last line of all behind a corner.
pub proof fn previews_show_every_message(
    preview: TranscriptPreviewState,
    renderings: Seq<Rendering>,
    width: int,
    i: int,
    k: int,
)
    requires
        preview is Loaded,
        0 <= i < preview->Loaded_0@.len(),
        0 <= k < content_of(preview->Loaded_0@[i], renderings, width).len(),
    ensures
        ({
            let lines = preview->Loaded_0@;
            let shown = preview_view(Some(preview), renderings, width);
            let own = content_of(lines[i], renderings, width);
            let at = contents_before(lines, renderings, i, width) + k;
            &&& shown.len() == contents_before(lines, renderings, lines.len() as int, width)
            &&& 0 <= at < shown.len()
            &&& shown[at].len() == own[k].1.len() + 1
            &&& shown[at].skip(1) == own[k].1
            &&& shown[at][0].0 == if at + 1 == shown.len() {
                "  └ "@
            } else {
                "  │ "@
            }
        }),
{
    let lines = preview->Loaded_0@;
    let own = content_of(lines[i], renderings, width);
    let first = contents_before(lines, renderings, i, width);
    let all = contents_of(lines, renderings, lines.len() as int, width);
    lemma_contents(lines, renderings, lines.len() as int, width, i);
    assert(all.subrange(first, first + own.len())[k] == all[first + k]);
    let shown = preview_view(Some(preview), renderings, width);
    assert(shown[first + k].skip(1) =~= own[k].1);
}

/// A message of the user is shown as its text, cut to what fits beside the bar; one of the
/// assistant as what was rendered of its text for that width, piece by piece.
pub proof fn messages_are_shown_by_speaker(
    line: TranscriptPreviewLine,
    renderings: Seq<Rendering>,
    width: int,
    k: int,
    p: int,
)
    requires
        width >= 4,
    ensures
        ({
            let own = content_of(line, renderings, width);
            &&& line.speaker is User ==> own.len() == 1 && own[0].1.len() == text::text_lines(
                shortened(line.text@, width - 4),
            ).len() && (0 <= p < own[0].1.len() ==> own[0].1[p].0 == text::text_lines(
                shortened(line.text@, width - 4),
            )[p])
            &&& line.speaker is Assistant ==> match rendering_of(
                renderings,
                line.text@,
                width - 4,
            ) {
                None => own.len() == 0,
                Some(rendered) => own.len() == rendered.len() && (0 <= k < own.len()
                    ==> own[k].1.len() == rendered[k].pieces@.len() && (0 <= p < own[k].1.len()
                    ==> own[k].1[p].0 == rendered[k].pieces@[p].text@)),
            }
        }),
{
}

/// A listed session shows its name, or its first message where it has none, behind its marker;
/// then, if it is expanded, its preview; and last its footer.
pub proof fn sessions_show_title_preview_and_footer(
    row: Row,
    preview: Option<TranscriptPreviewState>,
    renderings: Seq<Rendering>,
    sort_key: ThreadSortKey,
    reference: Timestamp,
    is_selected: bool,
    is_expanded: bool,
    width: int,
)
    requires
        width >= 2,
    ensures
        ({
            let shown = session_view(
                row,
                preview,
                renderings,
                sort_key,
                reference,
                is_selected,
                is_expanded,
                width,
            );
            let above = preview_view(preview, renderings, width);
            let below = row_footer(row, sort_key, reference, width);
            let room = width - 2;
            &&& shown[0].len() == 2
            &&& row.thread_name matches Some(name) ==> shown[0][1].0 == shortened(name@, room)
            &&& row.thread_name is None ==> shown[0][1].0 == shortened(row.preview@, room)
            &&& is_selected && is_expanded ==> shown[0][0].0 == "▾ "@
            &&& is_selected && !is_expanded ==> shown[0][0].0 == "▸ "@
            &&& !is_selected ==> shown[0][0].0 == "  "@
            &&& is_expanded ==> shown.len() == 1 + above.len() + below.len() && shown.subrange(
                1,
                1 + above.len() as int,
            ) == above && shown.skip(1 + above.len() as int) == below
            &&& !is_expanded ==> shown.len() == 1 + below.len() && shown.skip(1) == below
        }),
{
    let shown = session_view(
        row,
        preview,
        renderings,
        sort_key,
        reference,
        is_selected,
        is_expanded,
        width,
    );
    let above = preview_view(preview, renderings, width);
    let below = row_footer(row, sort_key, reference, width);
    if is_expanded {
        assert(shown.subrange(1, 1 + above.len() as int) =~= above);
        assert(shown.skip(1 + above.len() as int) =~= below);
    } else {
        assert(shown.skip(1) =~= below);
    }
}

/// The footer of a session tells its own times, directory and branch: when it was last updated
/// where that is known, and when it was begun otherwise.
pub proof fn sessions_tell_their_own_footer(
    row: Row,
    sort_key: ThreadSortKey,
    reference: Timestamp,
    width: int,
)
    ensures
        sort_key is CreatedAt ==> row_footer(row, sort_key, reference, width) == footer_lines_view(
            seq![
                PartView::Date(session_rows::relative_time(reference, row.created_at)),
                PartView::Cwd(text::option_view(row.cwd_display)),
                PartView::Branch(text::option_view(row.git_branch)),
            ],
            width,
        ),
        sort_key is UpdatedAt ==> row_footer(row, sort_key, reference, width) == footer_lines_view(
            seq![
                PartView::Date(
                    if row.updated_at is Some {
                        session_rows::relative_time(reference, row.updated_at)
                    } else {
                        session_rows::relative_time(reference, row.created_at)
                    },
                ),
                PartView::Cwd(text::option_view(row.cwd_display)),
                PartView::Branch(text::option_view(row.git_branch)),
            ],
            width,
        ),
{
}

/// The line above the sessions shows the error there is, or else the query and, at its right end,
/// the sort order: the line is as wide as the window, or has two columns between them if that is
/// wider.
pub proof fn search_lines_fill_the_window(query: Seq<char>, sort_key: ThreadSortKey, width: int)
    requires
        query.len() < 60000,
        0 <= width,
    ensures
        ({
            let line = search_view(None, query, sort_key, width);
            let sort = session_rows::sort_label(sort_key);
            let taken = line[0].0.len() + "Sort: "@.len() + sort.len();
            let whole = line[0].0.len() + line[1].0.len() + line[2].0.len() + line[3].0.len();
            &&& line.len() == 4
            &&& query.len() > 0 ==> line[0].0 == "Search: "@ + query
            &&& query.len() == 0 ==> line[0].0 == "Type to search"@
            &&& line[2].0 == "Sort: "@ && line[3].0 == sort
            &&& whole == if width >= taken + 2 {
                width
            } else {
                (taken + 2) as int
            }
        }),
        forall|e: Seq<char>|
            (#[trigger] search_view(Some(e), query, sort_key, width)).len() == 1 && search_view(
                Some(e),
                query,
                sort_key,
                width,
            )[0].0 == e,
{
    reveal_strlit("Sort: ");
    reveal_strlit("Search: ");
    reveal_strlit("Type to search");
    reveal_strlit("Created");
    reveal_strlit("Updated");
}

/// What says that there is no branch or no directory looks different from a name.
pub proof fn missing_parts_look_different(part: PartView, target: Option<int>, available: int)
    requires
        part !is Date,
        available > display::display_width(SESSION_META_BRANCH_ICON@),
        available > display::display_width(SESSION_META_CWD_ICON@),
    ensures
        ({
            let shown = part_spans(part, target, available).last().1;
            &&& part matches PartView::Branch(b) ==> (b is None <==> shown == Tone::DimItalic)
            &&& part matches PartView::Cwd(c) ==> (c is None <==> shown == Tone::DimItalic)
        }),
{
}

/// A part takes as much room in a line as it is wide: its icon, a space and its text; a date and a
/// directory that others follow are given their whole columns.
pub proof fn parts_take_their_columns(part: PartView, padded: bool, cwd_width: int)
    ensures
        ({
            let w = part_width(part, padded, cwd_width);
            &&& part matches PartView::Date(t) ==> (padded ==> w >= 12 && w
                >= display::display_width(t)) && (!padded ==> w == display::display_width(t))
            &&& part matches PartView::Cwd(c) ==> (padded ==> w == cwd_width)
            &&& part matches PartView::Branch(Some(b)) ==> (b.len() > 0 ==> w
                == display::display_width(SESSION_META_BRANCH_ICON@) + 1 + display::display_width(
                b,
            ))
            &&& part matches PartView::Cwd(Some(c)) ==> (c.len() > 0 && !padded ==> w
                == display::display_width(SESSION_META_CWD_ICON@) + 1 + display::display_width(c))
        }),
{
}

/// The column of the directory is half of what is left of the line, but at least thirty and at most
/// seventy-two columns wide.
pub proof fn directories_have_half_of_the_line(width: int)
    requires
        width >= 0,
    ensures
        30 <= cwd_columns(width) <= 72,
        60 <= width - 18 <= 144 ==> cwd_columns(width) == (width - 18) / 2,
        width - 18 < 60 ==> cwd_columns(width) == 30,
        width - 18 > 146 ==> cwd_columns(width) == 72,
{
}

} // verus!
