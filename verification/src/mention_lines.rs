//! How the list of mentions looks: a line for each visible row, and a footer.

use vstd::prelude::*;

use crate::display;
use crate::mention_popup::ScrollState;
use crate::mention_popup::MAX_POPUP_ROWS;
use crate::mention_search;
use crate::mention_search::MentionType;
use crate::mention_search::SearchMode;
use crate::mention_search::SearchResult;
use crate::mention_search::Selection;
use crate::mention_search::SelectionView;
use crate::session_lines;
use crate::text;

verus! {

/// The columns of a row's tag.
pub const TAG_WIDTH: usize = 6;

/// The columns between the parts of a row.
pub const CONTENT_TAG_GAP: usize = 2;

/// The columns left of the list.
pub const POPUP_HORIZONTAL_INSET: u16 = 2;

/// A colour that stands out.
#[derive(Clone, Copy, Debug, PartialEq, Eq, Structural)]
pub enum Accent {
    Plain,
    Filesystem,
    Plugin,
}

/// How a piece of a line looks.
#[derive(Clone, Copy, Debug, PartialEq, Eq, Structural)]
pub struct PieceStyle {
    pub bold: bool,
    pub dim: bool,
    pub italic: bool,
    pub accent: Accent,
}

/// A piece of a line.
#[derive(Debug)]
pub struct Piece {
    pub text: String,
    pub style: PieceStyle,
}

/// A piece by its text.
pub type PieceView = (Seq<char>, PieceStyle);

/// A line by its texts.
pub open spec fn pieces_view(line: Seq<Piece>) -> Seq<PieceView> {
    Seq::new(line.len(), |i: int| (line[i].text@, line[i].style))
}

/// The look of ordinary text.
pub open spec fn plain() -> PieceStyle {
    PieceStyle { bold: false, dim: false, italic: false, accent: Accent::Plain }
}

/// The look of a row.
pub open spec fn base_style(selected: bool) -> PieceStyle {
    PieceStyle { bold: selected, ..plain() }
}

/// The look of what matters less in a row.
pub open spec fn faint_style(selected: bool) -> PieceStyle {
    PieceStyle { bold: selected, dim: !selected, ..plain() }
}

fn style(bold: bool, dim: bool, italic: bool, accent: Accent) -> (r: PieceStyle)
    ensures
        r == (PieceStyle { bold, dim, italic, accent }),
{
    PieceStyle { bold, dim, italic, accent }
}

fn push_piece(line: &mut Vec<Piece>, s: String, style: PieceStyle)
    ensures
        pieces_view(final(line)@) == pieces_view(old(line)@).push((s@, style)),
{
    let ghost before = line@;
    line.push(Piece { text: s, style });
    assert(pieces_view(line@) =~= pieces_view(before).push((s@, style)));
}

fn no_pieces() -> (r: Vec<Piece>)
    ensures
        pieces_view(r@) == Seq::<PieceView>::empty(),
{
    let r: Vec<Piece> = Vec::new();
    assert(pieces_view(r@) =~= Seq::<PieceView>::empty());
    r
}

fn append_pieces(line: &mut Vec<Piece>, mut more: Vec<Piece>)
    ensures
        pieces_view(final(line)@) == pieces_view(old(line)@) + pieces_view(more@),
{
    let ghost before = line@;
    let ghost added = more@;
    line.append(&mut more);
    assert(pieces_view(line@) =~= pieces_view(before) + pieces_view(added));
}

// ---- which rows are visible ----

/// How many rows of a list are visible.
pub open spec fn visible_rows(n: int, height: int) -> int {
    let rows = if n < MAX_POPUP_ROWS {
        n
    } else {
        MAX_POPUP_ROWS as int
    };
    if rows < height {
        rows
    } else {
        height
    }
}

/// The first visible row of a list that is not empty.
pub open spec fn first_visible(s: ScrollState, n: int, height: int) -> int {
    let visible = visible_rows(n, height);
    let top = if s.scroll_top < n - 1 {
        s.scroll_top as int
    } else {
        n - 1
    };
    match s.selected_idx {
        None => top,
        Some(i) => if i < top {
            i as int
        } else if visible > 0 && i > top + visible - 1 {
            i + 1 - visible
        } else {
            top
        },
    }
}

/// The visible rows of a list: the first, and how many.
pub fn visible_range(s: ScrollState, n: usize, height: u16) -> (r: (usize, usize))
    requires
        n > 0,
        height > 0,
        s.selected_idx is Some ==> s.selected_idx->0 < usize::MAX,
    ensures
        r.0 == first_visible(s, n as int, height as int),
        r.1 == visible_rows(n as int, height as int),
        s.selected_idx is Some ==> r.0 <= s.selected_idx->0 < r.0 + r.1,
{
    let mut visible: usize = if n < MAX_POPUP_ROWS {
        n
    } else {
        MAX_POPUP_ROWS
    };
    if height as usize <= visible {
        visible = height as usize;
    }
    let mut start: usize = if s.scroll_top < n - 1 {
        s.scroll_top
    } else {
        n - 1
    };
    if let Some(i) = s.selected_idx {
        if i < start {
            start = i;
        } else if i - start > visible - 1 {
            start = i + 1 - visible;
        }
    }
    (start, visible)
}

// ---- the parts of a row ----

/// Where the name of a file starts in what is shown of it; nothing for a tool.
pub open spec fn file_name_at(row: mention_search::ResultView) -> Option<int> {
    match row.selection {
        SelectionView::File(_) => if mention_search::on_disk(row.mention_type) {
            Some(mention_search::name_start(row.display_name))
        } else {
            None
        },
        SelectionView::Tool { .. } => None,
    }
}

/// What stands first in a row: the name of a file, or what is shown of a tool.
pub open spec fn primary_text(row: mention_search::ResultView) -> Seq<char> {
    match file_name_at(row) {
        Some(at) => row.display_name.skip(at),
        None => row.display_name,
    }
}

/// The characters of a text from `i` on, those at the positions from `p` on in bold.
pub open spec fn marked_from(
    s: Seq<char>,
    style: PieceStyle,
    positions: Seq<usize>,
    i: int,
    p: int,
) -> Seq<PieceView>
    decreases s.len() - i,
{
    if i < 0 || i >= s.len() {
        Seq::empty()
    } else if 0 <= p < positions.len() && positions[p] == i {
        seq![(seq![s[i]], PieceStyle { bold: true, ..style })] + marked_from(
            s,
            style,
            positions,
            i + 1,
            p + 1,
        )
    } else {
        seq![(seq![s[i]], style)] + marked_from(s, style, positions, i + 1, p)
    }
}

/// A text in a style, with the characters at some positions in bold.
pub open spec fn styled(s: Seq<char>, style: PieceStyle, positions: Option<Seq<usize>>) -> Seq<
    PieceView,
> {
    match positions {
        None => seq![(s, style)],
        Some(p) => marked_from(s, style, p, 0, 0),
    }
}

fn styled_text_pieces(s: &[char], style: PieceStyle, positions: Option<&Vec<usize>>) -> (r: Vec<
    Piece,
>)
    ensures
        pieces_view(r@) == styled(
            s@,
            style,
            match positions {
                Some(p) => Some(p@),
                None => None,
            },
        ),
{
    let mut out = no_pieces();
    let marks = match positions {
        None => {
            push_piece(&mut out, text::string_of(s), style);
            assert(pieces_view(out@) =~= seq![(s@, style)]);
            return out;
        },
        Some(p) => p,
    };
    let mut i: usize = 0;
    let mut p: usize = 0;
    let ghost all = marked_from(s@, style, marks@, 0, 0);
    assert(pieces_view(out@) + all =~= all);
    while i < s.len()
        invariant
            i <= s.len(),
            p <= marks.len(),
            pieces_view(out@) + marked_from(s@, style, marks@, i as int, p as int) == all,
        decreases s.len() - i,
    {
        let ghost before = pieces_view(out@);
        let ghost rest = marked_from(s@, style, marks@, i as int, p as int);
        let mut one = String::new();
        one.push(s[i]);
        assert(one@ =~= seq![s@[i as int]]);
        if p < marks.len() && marks[p] == i {
            push_piece(&mut out, one, PieceStyle { bold: true, ..style });
            p = p + 1;
        } else {
            push_piece(&mut out, one, style);
        }
        i = i + 1;
        assert(pieces_view(out@) + marked_from(s@, style, marks@, i as int, p as int) =~= before
            + rest);
    }
    assert(pieces_view(out@) + Seq::<PieceView>::empty() =~= pieces_view(out@));
    out
}

/// The look of a tool's name or tag.
pub open spec fn tool_style(t: MentionType, base: PieceStyle) -> PieceStyle {
    match t {
        MentionType::Plugin => PieceStyle { accent: Accent::Plugin, ..base },
        MentionType::Skill => PieceStyle { dim: true, ..base },
        _ => base,
    }
}

/// What stands first in a row, as it looks.
pub open spec fn primary_view(row: mention_search::ResultView, selected: bool) -> Seq<PieceView> {
    let base = base_style(selected);
    match file_name_at(row) {
        Some(_) => seq![
            (
                primary_text(row),
                if row.mention_type == MentionType::File {
                    PieceStyle { accent: Accent::Filesystem, ..base }
                } else {
                    base
                },
            ),
        ],
        None => styled(row.display_name, tool_style(row.mention_type, base), row.match_indices),
    }
}

/// The directory of a file, as it looks.
pub open spec fn path_view(row: mention_search::ResultView, selected: bool) -> Seq<PieceView> {
    let faint = PieceStyle { dim: true, ..base_style(selected) };
    let at = mention_search::name_start(row.display_name);
    if at == 0 {
        seq![("./"@, faint)]
    } else {
        styled(row.display_name.take(at), faint, row.match_indices)
    }
}

/// The description of a row, where it says anything.
pub open spec fn described(row: mention_search::ResultView) -> Option<Seq<char>> {
    match row.description {
        Some(d) => if d.len() > 0 {
            Some(d)
        } else {
            None
        },
        None => None,
    }
}

/// What stands second in a row: the directory of a file and its description, or the
/// description of a tool.
pub open spec fn secondary_view(row: mention_search::ResultView, selected: bool) -> Option<
    Seq<PieceView>,
> {
    let faint = faint_style(selected);
    match (file_name_at(row), described(row)) {
        (Some(_), Some(d)) => Some(path_view(row, selected) + seq![("  "@, faint), (d, faint)]),
        (Some(_), None) => Some(path_view(row, selected)),
        (None, Some(d)) => Some(seq![(d, faint)]),
        (None, None) => None,
    }
}

/// What is said of a row, with its second part in a column of its own.
pub open spec fn content_view(
    row: mention_search::ResultView,
    selected: bool,
    primary_column: int,
) -> Seq<PieceView> {
    primary_view(row, selected) + (match secondary_view(row, selected) {
        None => Seq::empty(),
        Some(second) => {
            let padding = session_lines::left_of(primary_column, primary_text(row).len() as int)
                + CONTENT_TAG_GAP;
            seq![(text::repeat_char(' ', padding as nat), faint_style(selected))] + second
        },
    })
}

fn file_name_start(row: &SearchResult, name: &[char]) -> (r: Option<usize>)
    requires
        name@ == row.display_name@,
    ensures
        match r {
            Some(at) => file_name_at(row@) == Some(at as int) && at <= name@.len(),
            None => file_name_at(row@) is None,
        },
{
    match &row.selection {
        Selection::File(_) => if row.mention_type.is_filesystem() {
            Some(mention_search::start_of_name(name))
        } else {
            None
        },
        Selection::Tool { .. } => None,
    }
}

/// The characters of what stands first in a row.
pub fn primary_text_width(row: &SearchResult) -> (r: usize)
    ensures
        r == primary_text(row@).len(),
{
    let name = text::chars_of(row.display_name.as_str());
    match file_name_start(row, name.as_slice()) {
        Some(at) => name.len() - at,
        None => name.len(),
    }
}

fn primary_pieces(row: &SearchResult, name: &[char], start: Option<usize>, selected: bool) -> (r:
    Vec<Piece>)
    requires
        name@ == row.display_name@,
        match start {
            Some(at) => file_name_at(row@) == Some(at as int) && at <= name@.len(),
            None => file_name_at(row@) is None,
        },
    ensures
        pieces_view(r@) == primary_view(row@, selected),
{
    let base = style(selected, false, false, Accent::Plain);
    match start {
        Some(at) => {
            let shown = vstd::slice::slice_subrange(name, at, name.len());
            assert(shown@ =~= primary_text(row@));
            let look = if row.mention_type == MentionType::File {
                PieceStyle { accent: Accent::Filesystem, ..base }
            } else {
                base
            };
            styled_text_pieces(shown, look, None)
        },
        None => {
            let look = match row.mention_type {
                MentionType::Plugin => PieceStyle { accent: Accent::Plugin, ..base },
                MentionType::Skill => PieceStyle { dim: true, ..base },
                _ => base,
            };
            match &row.match_indices {
                Some(p) => styled_text_pieces(name, look, Some(p)),
                None => styled_text_pieces(name, look, None),
            }
        },
    }
}

fn path_pieces(row: &SearchResult, name: &[char], at: usize, selected: bool) -> (r: Vec<Piece>)
    requires
        name@ == row.display_name@,
        at == mention_search::name_start(row.display_name@),
        at <= name@.len(),
    ensures
        pieces_view(r@) == path_view(row@, selected),
{
    let faint = style(selected, true, false, Accent::Plain);
    if at == 0 {
        let mut out = no_pieces();
        push_piece(&mut out, "./".to_owned(), faint);
        assert(pieces_view(out@) =~= seq![("./"@, faint)]);
        return out;
    }
    let shown = vstd::slice::slice_subrange(name, 0, at);
    assert(shown@ =~= row.display_name@.take(at as int));
    match &row.match_indices {
        Some(p) => styled_text_pieces(shown, faint, Some(p)),
        None => styled_text_pieces(shown, faint, None),
    }
}

fn secondary_pieces(row: &SearchResult, name: &[char], start: Option<usize>, selected: bool) -> (r:
    Option<Vec<Piece>>)
    requires
        name@ == row.display_name@,
        match start {
            Some(at) => file_name_at(row@) == Some(at as int) && at <= name@.len(),
            None => file_name_at(row@) is None,
        },
    ensures
        match r {
            Some(p) => secondary_view(row@, selected) == Some(pieces_view(p@)),
            None => secondary_view(row@, selected) is None,
        },
{
    let faint = style(selected, !selected, false, Accent::Plain);
    let described = match &row.description {
        Some(d) => text::chars_of(d.as_str()).len() > 0,
        None => false,
    };
    match start {
        Some(at) => {
            let mut out = path_pieces(row, name, at, selected);
            if described {
                if let Some(d) = &row.description {
                    let ghost before = pieces_view(out@);
                    push_piece(&mut out, "  ".to_owned(), faint);
                    push_piece(&mut out, d.clone(), faint);
                    assert(pieces_view(out@) =~= before + seq![("  "@, faint), (d@, faint)]);
                }
            }
            Some(out)
        },
        None => {
            if !described {
                return None;
            }
            let mut out = no_pieces();
            if let Some(d) = &row.description {
                push_piece(&mut out, d.clone(), faint);
                assert(pieces_view(out@) =~= seq![(d@, faint)]);
            }
            Some(out)
        },
    }
}

fn content_pieces(row: &SearchResult, selected: bool, primary_column: usize) -> (r: Vec<Piece>)
    requires
        primary_column <= usize::MAX - CONTENT_TAG_GAP,
    ensures
        pieces_view(r@) == content_view(row@, selected, primary_column as int),
{
    let name = text::chars_of(row.display_name.as_str());
    let start = file_name_start(row, name.as_slice());
    let mut out = primary_pieces(row, name.as_slice(), start, selected);
    let ghost first = pieces_view(out@);
    match secondary_pieces(row, name.as_slice(), start, selected) {
        Some(second) => {
            let used = primary_text_width(row);
            let left: usize = if primary_column > used {
                primary_column - used
            } else {
                0
            };
            let faint = style(selected, !selected, false, Accent::Plain);
            push_piece(&mut out, display::spaces(left + CONTENT_TAG_GAP), faint);
            append_pieces(&mut out, second);
            assert(pieces_view(out@) =~= content_view(row@, selected, primary_column as int));
        },
        None => {
            assert(first + Seq::<PieceView>::empty() =~= first);
        },
    }
    out
}

// ---- cutting a line ----

/// The columns of the pieces from `i` on.
pub open spec fn columns_from(line: Seq<PieceView>, i: int) -> int
    decreases line.len() - i,
{
    if i < 0 || i >= line.len() {
        0
    } else {
        display::display_width(line[i].0) + columns_from(line, i + 1)
    }
}

/// The pieces from `i` on that fit, and the beginning of the first that does not.
pub open spec fn cut_from(line: Seq<PieceView>, i: int, room: int) -> Seq<PieceView>
    decreases line.len() - i,
{
    if i < 0 || i >= line.len() {
        Seq::empty()
    } else if display::display_width(line[i].0) <= room {
        seq![line[i]] + cut_from(line, i + 1, room - display::display_width(line[i].0))
    } else if display::fitting(line[i].0, 0, room) > 0 {
        seq![(line[i].0.take(display::fitting(line[i].0, 0, room)), line[i].1)]
    } else {
        Seq::empty()
    }
}

/// A line where it fits; otherwise what fits of it with an ellipsis, which looks like what
/// stands before it. Where a piece is cut is a choice of this library: between two characters,
/// each measured on its own, and with one column kept for the ellipsis.
pub open spec fn fitted(line: Seq<PieceView>, width: int) -> Seq<PieceView> {
    if columns_from(line, 0) <= width {
        line
    } else if width == 0 {
        Seq::empty()
    } else {
        let kept = cut_from(line, 0, width - 1);
        kept.push(
            (
                "…"@,
                if kept.len() > 0 {
                    kept.last().1
                } else {
                    plain()
                },
            ),
        )
    }
}

proof fn lemma_columns(line: Seq<PieceView>, i: int)
    ensures
        0 <= columns_from(line, i),
    decreases line.len() - i,
{
    if 0 <= i < line.len() {
        lemma_columns(line, i + 1);
    }
}

fn is_wider(line: &Vec<Piece>, width: usize) -> (r: bool)
    ensures
        r == (columns_from(pieces_view(line@), 0) > width),
{
    let ghost v = pieces_view(line@);
    let mut used: usize = 0;
    let mut i: usize = 0;
    while i < line.len()
        invariant
            i <= line.len(),
            v == pieces_view(line@),
            used <= width,
            used + columns_from(v, i as int) == columns_from(v, 0),
        decreases line.len() - i,
    {
        let w = display::width_of(line[i].text.as_str());
        proof {
            lemma_columns(v, i + 1);
            assert(v[i as int].0 == line@[i as int].text@);
        }
        if w > width - used {
            return true;
        }
        used = used + w;
        i = i + 1;
    }
    false
}

fn cut_pieces(line: Vec<Piece>, room: usize) -> (r: Vec<Piece>)
    ensures
        pieces_view(r@) == cut_from(pieces_view(line@), 0, room as int),
{
    let ghost v = pieces_view(line@);
    let mut out = no_pieces();
    let mut left: usize = room;
    let mut i: usize = 0;
    assert(pieces_view(out@) + cut_from(v, 0, room as int) =~= cut_from(v, 0, room as int));
    while i < line.len()
        invariant
            i <= line.len(),
            v == pieces_view(line@),
            pieces_view(out@) + cut_from(v, i as int, left as int) == cut_from(
                v,
                0,
                room as int,
            ),
        decreases line.len() - i,
    {
        let ghost before = pieces_view(out@);
        let piece = &line[i];
        assert(v[i as int] == (piece.text@, piece.style));
        let w = display::width_of(piece.text.as_str());
        if w > left {
            let chars = text::chars_of(piece.text.as_str());
            let n = display::fitting_chars(chars.as_slice(), left);
            if n > 0 {
                let part = text::string_of_range(chars.as_slice(), 0, n);
                assert(part@ =~= piece.text@.take(n as int));
                push_piece(&mut out, part, piece.style);
                assert(pieces_view(out@) =~= before + seq![
                    (piece.text@.take(n as int), piece.style),
                ]);
            } else {
                assert(before + Seq::<PieceView>::empty() =~= before);
            }
            return out;
        }
        push_piece(&mut out, piece.text.clone(), piece.style);
        left = left - w;
        i = i + 1;
        assert(before + (seq![v[i - 1]] + cut_from(v, i as int, left as int)) =~= pieces_view(out@)
            + cut_from(v, i as int, left as int));
    }
    assert(pieces_view(out@) + Seq::<PieceView>::empty() =~= pieces_view(out@));
    out
}

/// A line cut to a width, with an ellipsis where something is left out.
pub fn fit_pieces(line: Vec<Piece>, width: usize) -> (r: Vec<Piece>)
    ensures
        pieces_view(r@) == fitted(pieces_view(line@), width as int),
{
    if !is_wider(&line, width) {
        return line;
    }
    if width == 0 {
        return no_pieces();
    }
    let mut out = cut_pieces(line, width - 1);
    assert(pieces_view(out@).len() == out@.len());
    let look = if out.len() > 0 {
        out[out.len() - 1].style
    } else {
        style(false, false, false, Accent::Plain)
    };
    push_piece(&mut out, "…".to_owned(), look);
    out
}

// ---- whole rows ----

/// The tag of a row: what it is, in a column of its own.
pub open spec fn tag_text(t: MentionType) -> Seq<char> {
    let label = mention_search::type_label(t);
    label + text::repeat_char(
        ' ',
        session_lines::left_of(TAG_WIDTH as int, label.len() as int) as nat,
    )
}

/// The tag of a row, as it looks.
pub open spec fn tag_view(t: MentionType, selected: bool) -> PieceView {
    (
        tag_text(t),
        match t {
            MentionType::File => PieceStyle {
                accent: Accent::Filesystem,
                ..base_style(selected)
            },
            _ => tool_style(t, base_style(selected)),
        },
    )
}

/// A row of the list in a width: what is said of it at the left, and its tag at the right.
pub open spec fn row_line(
    row: mention_search::ResultView,
    selected: bool,
    width: int,
    primary_column: int,
) -> Seq<PieceView> {
    let tag = tag_view(row.mention_type, selected);
    let tag_width = display::display_width(tag.0) as int;
    let content = fitted(
        content_view(row, selected, primary_column),
        session_lines::left_of(width, tag_width + CONTENT_TAG_GAP),
    );
    let padding = session_lines::left_of(width, columns_from(content, 0) + tag_width);
    content + (if padding > 0 {
        seq![(text::repeat_char(' ', padding as nat), faint_style(selected))]
    } else {
        Seq::empty()
    }) + seq![tag]
}

fn columns_within(line: &Vec<Piece>, width: usize) -> (r: usize)
    ensures
        r == session_lines::left_of(width as int, columns_from(pieces_view(line@), 0)),
{
    let ghost v = pieces_view(line@);
    let mut left: usize = width;
    let mut i: usize = 0;
    while i < line.len()
        invariant
            i <= line.len(),
            v == pieces_view(line@),
            session_lines::left_of(width as int, columns_from(v, 0)) == session_lines::left_of(
                left as int,
                columns_from(v, i as int),
            ),
        decreases line.len() - i,
    {
        let w = display::width_of(line[i].text.as_str());
        proof {
            lemma_columns(v, i + 1);
            assert(v[i as int].0 == line@[i as int].text@);
        }
        if w >= left {
            return 0;
        }
        left = left - w;
        i = i + 1;
    }
    left
}

/// A row of the list in a width.
pub fn build_line(row: &SearchResult, selected: bool, width: usize, primary_column_width: usize)
    -> (r: Vec<Piece>)
    requires
        primary_column_width <= usize::MAX - CONTENT_TAG_GAP,
    ensures
        pieces_view(r@) == row_line(row@, selected, width as int, primary_column_width as int),
{
    let base = style(selected, false, false, Accent::Plain);
    let look = match row.mention_type {
        MentionType::Plugin => PieceStyle { accent: Accent::Plugin, ..base },
        MentionType::Skill => PieceStyle { dim: true, ..base },
        MentionType::File => PieceStyle { accent: Accent::Filesystem, ..base },
        MentionType::Directory => base,
    };
    let mut tag = row.mention_type.label().to_owned();
    let label_len = text::chars_of(tag.as_str()).len();
    let fill: usize = if label_len < TAG_WIDTH {
        TAG_WIDTH - label_len
    } else {
        0
    };
    tag.push_str(display::spaces(fill).as_str());
    assert(tag@ =~= tag_text(row.mention_type));
    let tag_width = display::width_of(tag.as_str());
    let left_of_tag: usize = if width > tag_width {
        width - tag_width
    } else {
        0
    };
    let content_width: usize = if left_of_tag > CONTENT_TAG_GAP {
        left_of_tag - CONTENT_TAG_GAP
    } else {
        0
    };
    let content = content_pieces(row, selected, primary_column_width);
    let mut line = fit_pieces(content, content_width);
    let ghost fitted_content = pieces_view(line@);
    proof {
        lemma_columns(fitted_content, 0);
    }
    let padding = columns_within(&line, left_of_tag);
    if padding > 0 {
        push_piece(
            &mut line,
            display::spaces(padding),
            style(selected, !selected, false, Accent::Plain),
        );
    }
    push_piece(&mut line, tag, look);
    assert(pieces_view(line@) =~= row_line(
        row@,
        selected,
        width as int,
        primary_column_width as int,
    ));
    line
}

/// The widest first part among rows from `from` up to `to`.
pub open spec fn widest_primary(rows: Seq<SearchResult>, from: int, to: int) -> int
    decreases to - from,
{
    if from >= to {
        0
    } else {
        let before = widest_primary(rows, from, to - 1);
        let own = primary_text(rows[to - 1]@).len() as int;
        if own > before {
            own
        } else {
            before
        }
    }
}

/// Lines by their texts.
pub open spec fn piece_lines(lines: Seq<Vec<Piece>>) -> Seq<Seq<PieceView>> {
    Seq::new(lines.len(), |i: int| pieces_view(lines[i]@))
}

/// The end of the visible rows.
pub open spec fn visible_end(s: ScrollState, n: int, height: int) -> int {
    let end = first_visible(s, n, height) + visible_rows(n, height);
    if end < n {
        end
    } else {
        n
    }
}

/// The list in a space: a line for each visible row, or a message. A selection behind the last
/// row scrolls rows away.
pub open spec fn list_lines(
    rows: Seq<SearchResult>,
    s: ScrollState,
    empty_message: Seq<char>,
    width: int,
    height: int,
) -> Seq<Seq<PieceView>> {
    if height == 0 {
        Seq::empty()
    } else if rows.len() == 0 {
        seq![seq![(empty_message, PieceStyle { italic: true, ..plain() })]]
    } else {
        let n = rows.len() as int;
        let start = first_visible(s, n, height);
        let end = visible_end(s, n, height);
        Seq::new(
            if start < end {
                (end - start) as nat
            } else {
                0
            },
            |i: int|
                row_line(
                    rows[start + i]@,
                    s.selected_idx == Some((start + i) as usize),
                    width,
                    widest_primary(rows, start, end),
                ),
        )
    }
}

/// The list in a space.
pub fn render_rows(
    rows: &[SearchResult],
    s: ScrollState,
    empty_message: &str,
    width: u16,
    height: u16,
) -> (r: Vec<Vec<Piece>>)
    requires
        s.selected_idx is Some ==> s.selected_idx->0 < usize::MAX,
        forall|i: int|
            0 <= i < rows@.len() ==> (#[trigger] rows@[i]).display_name@.len() <= usize::MAX
                - CONTENT_TAG_GAP,
    ensures
        piece_lines(r@) == list_lines(rows@, s, empty_message@, width as int, height as int),
{
    let mut lines: Vec<Vec<Piece>> = Vec::new();
    assert(piece_lines(lines@) =~= Seq::<Seq<PieceView>>::empty());
    if height == 0 {
        return lines;
    }
    if rows.len() == 0 {
        let mut line = no_pieces();
        push_piece(&mut line, empty_message.to_owned(), style(false, false, true, Accent::Plain));
        assert(pieces_view(line@) =~= seq![
            (empty_message@, PieceStyle { italic: true, ..plain() }),
        ]);
        lines.push(line);
        assert(piece_lines(lines@) =~= list_lines(
            rows@,
            s,
            empty_message@,
            width as int,
            height as int,
        ));
        return lines;
    }
    let (start, visible) = visible_range(s, rows.len(), height);
    if start >= rows.len() {
        assert(piece_lines(lines@) =~= list_lines(
            rows@,
            s,
            empty_message@,
            width as int,
            height as int,
        ));
        return lines;
    }
    let end: usize = if visible < rows.len() - start {
        start + visible
    } else {
        rows.len()
    };
    let mut widest: usize = 0;
    let mut i: usize = start;
    while i < end
        invariant
            start <= i <= end <= rows.len(),
            widest == widest_primary(rows@, start as int, i as int),
            widest <= usize::MAX - CONTENT_TAG_GAP,
            forall|i: int|
                0 <= i < rows@.len() ==> (#[trigger] rows@[i]).display_name@.len() <= usize::MAX
                    - CONTENT_TAG_GAP,
        decreases end - i,
    {
        let w = primary_text_width(&rows[i]);
        proof {
            lemma_primary_is_part(rows@[i as int]@);
        }
        if w > widest {
            widest = w;
        }
        i = i + 1;
    }
    let ghost all = list_lines(rows@, s, empty_message@, width as int, height as int);
    let mut k: usize = start;
    assert(piece_lines(lines@) =~= all.take(0));
    while k < end
        invariant
            start <= k <= end <= rows.len(),
            start == first_visible(s, rows@.len() as int, height as int),
            end == visible_end(s, rows@.len() as int, height as int),
            height > 0,
            rows@.len() > 0,
            widest == widest_primary(rows@, start as int, end as int),
            widest <= usize::MAX - CONTENT_TAG_GAP,
            all == list_lines(rows@, s, empty_message@, width as int, height as int),
            piece_lines(lines@) == all.take(k - start),
        decreases end - k,
    {
        let selected = s.selected_idx == Some(k);
        let line = build_line(&rows[k], selected, width as usize, widest);
        let ghost before = lines@;
        assert(all[k - start] == pieces_view(line@));
        lines.push(line);
        assert(piece_lines(lines@) =~= piece_lines(before).push(pieces_view(line@)));
        assert(all.take(k - start + 1) =~= all.take(k - start).push(all[k - start]));
        k = k + 1;
    }
    assert(all.take(k - start) =~= all);
    lines
}

proof fn lemma_primary_is_part(row: mention_search::ResultView)
    ensures
        primary_text(row).len() <= row.display_name.len(),
{
    lemma_name_start(row.display_name);
}

proof fn lemma_name_start(path: Seq<char>)
    ensures
        0 <= mention_search::name_start(path) <= path.len(),
    decreases path.len(),
{
    if path.len() > 0 {
        lemma_name_start(path.drop_last());
    }
}

// ---- the footer ----

/// The modes with the active one in brackets.
pub open spec fn mode_view(mode: SearchMode, active: SearchMode) -> PieceView {
    if mode == active {
        (
            "["@ + mention_search::mode_label(mode) + "]"@,
            PieceStyle {
                bold: true,
                accent: if mode == SearchMode::Tools {
                    Accent::Plugin
                } else {
                    Accent::Filesystem
                },
                ..plain()
            },
        )
    } else {
        (
            " "@ + mention_search::mode_label(mode) + " "@,
            PieceStyle { dim: true, ..plain() },
        )
    }
}

/// The modes, as they look.
pub open spec fn indicator_view(active: SearchMode) -> Seq<PieceView> {
    let gap = ("  "@, PieceStyle { dim: true, ..plain() });
    seq![
        mode_view(SearchMode::Results, active),
        gap,
        mode_view(SearchMode::FilesystemOnly, active),
        gap,
        mode_view(SearchMode::Tools, active),
    ]
}

fn push_mode(line: &mut Vec<Piece>, mode: SearchMode, active: SearchMode)
    ensures
        pieces_view(final(line)@) == pieces_view(old(line)@).push(mode_view(mode, active)),
{
    if mode == active {
        let mut s = "[".to_owned();
        s.push_str(mode.label());
        s.push_str("]");
        let accent = if mode == SearchMode::Tools {
            Accent::Plugin
        } else {
            Accent::Filesystem
        };
        push_piece(line, s, style(true, false, false, accent));
    } else {
        let mut s = " ".to_owned();
        s.push_str(mode.label());
        s.push_str(" ");
        push_piece(line, s, style(false, true, false, Accent::Plain));
    }
}

/// The modes, with the active one in brackets.
pub fn search_mode_indicator_line(active: SearchMode) -> (r: Vec<Piece>)
    ensures
        pieces_view(r@) == indicator_view(active),
{
    let gap = style(false, true, false, Accent::Plain);
    let mut line = no_pieces();
    push_mode(&mut line, SearchMode::Results, active);
    push_piece(&mut line, "  ".to_owned(), gap);
    push_mode(&mut line, SearchMode::FilesystemOnly, active);
    push_piece(&mut line, "  ".to_owned(), gap);
    push_mode(&mut line, SearchMode::Tools, active);
    assert(pieces_view(line@) =~= indicator_view(active));
    line
}

/// How a footer is divided: the columns of the hints at the left, and where the modes start
/// at the right, if they fit.
pub fn divide_footer(x: u16, width: u16, right_width: u16) -> (r: (u16, Option<u16>))
    requires
        x + width <= u16::MAX,
    ensures
        r.0 == session_lines::left_of(
            session_lines::left_of(width as int, right_width as int),
            if right_width > 0 {
                1
            } else {
                0
            },
        ),
        r.1 == if 0 < right_width <= width {
            Some((x + width - right_width) as u16)
        } else {
            None
        },
{
    let mut left: u16 = if width > right_width {
        width - right_width
    } else {
        0
    };
    if right_width > 0 && left > 0 {
        left = left - 1;
    }
    let right = if 0 < right_width && right_width <= width {
        Some(x + width - right_width)
    } else {
        None
    };
    (left, right)
}

/// A key that the footer names.
#[derive(Clone, Copy, Debug, PartialEq, Eq, Structural)]
pub enum FooterKey {
    Enter,
    Tab,
    Esc,
    Left,
    Right,
}

/// A part of the footer's hint: a key, or dim text.
#[derive(Clone, Copy, Debug)]
pub enum HintPart {
    Key(FooterKey),
    Text(&'static str),
}

/// A part of a hint by its text.
pub ghost enum HintView {
    Key(FooterKey),
    Text(Seq<char>),
}

/// The parts of a hint by their texts.
pub open spec fn hint_views(parts: Seq<HintPart>) -> Seq<HintView> {
    Seq::new(
        parts.len(),
        |i: int|
            match parts[i] {
                HintPart::Key(k) => HintView::Key(k),
                HintPart::Text(t) => HintView::Text(t@),
            },
    )
}

/// The hint of the footer: which keys insert, close, and switch the search modes.
pub fn footer_hint_line() -> (r: Vec<HintPart>)
    ensures
        hint_views(r@) == seq![
            HintView::Key(FooterKey::Enter),
            HintView::Text("/"@),
            HintView::Key(FooterKey::Tab),
            HintView::Text(" insert \u{b7} "@),
            HintView::Key(FooterKey::Esc),
            HintView::Text(" close \u{b7} "@),
            HintView::Key(FooterKey::Left),
            HintView::Text("/"@),
            HintView::Key(FooterKey::Right),
            HintView::Text(" switch search modes"@),
        ],
{
    let r: Vec<HintPart> = vec![
        HintPart::Key(FooterKey::Enter),
        HintPart::Text("/"),
        HintPart::Key(FooterKey::Tab),
        HintPart::Text(" insert \u{b7} "),
        HintPart::Key(FooterKey::Esc),
        HintPart::Text(" close \u{b7} "),
        HintPart::Key(FooterKey::Left),
        HintPart::Text("/"),
        HintPart::Key(FooterKey::Right),
        HintPart::Text(" switch search modes"),
    ];
    assert(hint_views(r@) =~= seq![
        HintView::Key(FooterKey::Enter),
        HintView::Text("/"@),
        HintView::Key(FooterKey::Tab),
        HintView::Text(" insert \u{b7} "@),
        HintView::Key(FooterKey::Esc),
        HintView::Text(" close \u{b7} "@),
        HintView::Key(FooterKey::Left),
        HintView::Text("/"@),
        HintView::Key(FooterKey::Right),
        HintView::Text(" switch search modes"@),
    ]);
    r
}

/// How a space is divided between the list and the footer: the rows of the list, and the row
/// of the footer, which needs a free row above it.
pub fn divide_popup(y: u16, height: u16) -> (r: (u16, Option<u16>))
    requires
        y + height <= u16::MAX,
    ensures
        r == if height > 2 {
            ((height - 2) as u16, Some((y + height - 1) as u16))
        } else {
            (height, None)
        },
{
    if height > 2 {
        (height - 2, Some(y + height - 1))
    } else {
        (height, None)
    }
}

// ---- what is shown ----

/// The text of a line of pieces.
pub open spec fn pieces_text(line: Seq<PieceView>) -> Seq<char>
    decreases line.len(),
{
    if line.len() == 0 {
        Seq::empty()
    } else {
        line[0].0 + pieces_text(line.drop_first())
    }
}

proof fn lemma_marked(s: Seq<char>, style: PieceStyle, positions: Seq<usize>, i: int, p: int)
    requires
        0 <= i <= s.len(),
        0 <= p <= positions.len(),
        forall|a: int, b: int|
            0 <= a < b < positions.len() ==> #[trigger] positions[a] < #[trigger] positions[b],
        forall|a: int| 0 <= a < p ==> #[trigger] positions[a] < i,
        forall|a: int| p <= a < positions.len() ==> i <= #[trigger] positions[a],
    ensures
        ({
            let line = marked_from(s, style, positions, i, p);
            &&& line.len() == s.len() - i
            &&& forall|k: int|
                0 <= k < line.len() ==> {
                    &&& (#[trigger] line[k]).0 == seq![s[i + k]]
                    &&& line[k].1 == if exists|a: int|
                        0 <= a < positions.len() && #[trigger] positions[a] == i + k {
                        PieceStyle { bold: true, ..style }
                    } else {
                        style
                    }
                }
            &&& pieces_text(line) == s.skip(i)
        }),
    decreases s.len() - i,
{
    let line = marked_from(s, style, positions, i, p);
    if i < s.len() {
        let hit = p < positions.len() && positions[p] == i;
        let next = if hit {
            p + 1
        } else {
            p
        };
        if hit {
            assert forall|a: int| next <= a < positions.len() implies i + 1
                <= #[trigger] positions[a] by {
                assert(positions[p] < positions[a]);
            }
        } else {
            assert forall|a: int| next <= a < positions.len() implies i + 1
                <= #[trigger] positions[a] by {
                if a == p {
                    assert(positions[p] != i);
                } else {
                    assert(positions[p] < positions[a]);
                }
            }
        }
        lemma_marked(s, style, positions, i + 1, next);
        let rest = marked_from(s, style, positions, i + 1, next);
        assert(line.drop_first() =~= rest);
        assert(s.skip(i) =~= seq![s[i]] + s.skip(i + 1));
        assert forall|k: int| 0 <= k < line.len() implies {
            &&& (#[trigger] line[k]).0 == seq![s[i + k]]
            &&& line[k].1 == if exists|a: int|
                0 <= a < positions.len() && #[trigger] positions[a] == i + k {
                PieceStyle { bold: true, ..style }
            } else {
                style
            }
        } by {
            if k > 0 {
                assert(line[k] == rest[k - 1]);
            } else if hit {
                assert(positions[p] == i);
            } else {
                assert forall|a: int| 0 <= a < positions.len() implies #[trigger] positions[a]
                    != i by {
                    if a == p {
                        assert(positions[p] != i);
                    }
                }
            }
        }
    } else {
        assert(s.skip(i) =~= Seq::<char>::empty());
    }
}

/// A name is shown whole whatever of it matched, and of its characters those that matched are bold.
pub proof fn matched_characters_are_bold(
    s: Seq<char>,
    style: PieceStyle,
    positions: Seq<usize>,
    k: int,
)
    requires
        0 <= k < s.len(),
        forall|a: int, b: int|
            0 <= a < b < positions.len() ==> #[trigger] positions[a] < #[trigger] positions[b],
    ensures
        ({
            let line = styled(s, style, Some(positions));
            &&& line.len() == s.len()
            &&& pieces_text(line) == s
            &&& line[k].0 == seq![s[k]]
            &&& (exists|a: int| 0 <= a < positions.len() && #[trigger] positions[a] == k)
                ==> line[k].1 == (PieceStyle { bold: true, ..style })
            &&& !(exists|a: int| 0 <= a < positions.len() && #[trigger] positions[a] == k)
                ==> line[k].1 == style
        }),
        styled(s, style, None) == seq![(s, style)],
{
    lemma_marked(s, style, positions, 0, 0);
    assert(s.skip(0) =~= s);
    let line = styled(s, style, Some(positions));
    assert(line[k].0 == seq![s[0 + k]]);
}

/// A line shows the name first and then, behind a gap, what is said of it: of a file its directory
/// and its description, of another thing its description.
pub proof fn rows_show_name_and_description(
    row: mention_search::ResultView,
    selected: bool,
    primary_column: int,
)
    ensures
        ({
            let line = content_view(row, selected, primary_column);
            let name = primary_view(row, selected);
            let is_file = row.selection is File && (row.mention_type is File || row.mention_type
                is Directory);
            let at = mention_search::name_start(row.display_name);
            &&& name.len() <= line.len() && line.take(name.len() as int) == name
            &&& is_file ==> name.len() == 1 && name[0].0 == row.display_name.skip(at)
            &&& !is_file && row.match_indices is None ==> name.len() == 1 && name[0].0
                == row.display_name
            &&& !is_file && (row.description is None || row.description->0.len() == 0) ==> line
                == name
            &&& row.description is Some && row.description->0.len() > 0 ==> line.last().0
                == row.description->0
            &&& is_file && at == 0 ==> line[name.len() as int + 1].0 == "./"@
            &&& is_file && at > 0 && row.match_indices is None ==> line[name.len() as int + 1].0
                == row.display_name.take(at)
            &&& line.len() > name.len() && primary_column >= primary_text(row).len()
                ==> line[name.len() as int].0.len() + primary_text(row).len() == primary_column + 2
        }),
{
    let line = content_view(row, selected, primary_column);
    let name = primary_view(row, selected);
    assert(line.take(name.len() as int) =~= name);
    if line.len() == name.len() {
        assert(line =~= name);
    }
}

/// The line of a row ends with the tag of its kind; what stands before it is the row's content,
/// whole where it fits.
pub proof fn lines_end_with_their_tag(
    row: mention_search::ResultView,
    selected: bool,
    width: int,
    primary_column: int,
)
    ensures
        ({
            let line = row_line(row, selected, width, primary_column);
            let content = content_view(row, selected, primary_column);
            let tag = display::display_width(line.last().0);
            &&& line.len() > 0
            &&& line.last().0 == tag_text(row.mention_type)
            &&& columns_from(content, 0) + 2 + tag <= width ==> {
                &&& line.len() == content.len() + 2
                &&& line.take(content.len() as int) == content
                &&& line[content.len() as int].0 == text::repeat_char(
                    ' ',
                    (width - columns_from(content, 0) - tag) as nat,
                )
            }
        }),
{
    let line = row_line(row, selected, width, primary_column);
    let content = content_view(row, selected, primary_column);
    let tag = display::display_width(tag_text(row.mention_type));
    if columns_from(content, 0) + 2 + tag <= width {
        assert(line.take(content.len() as int) =~= content);
    }
}

proof fn lemma_cut(line: Seq<PieceView>, i: int, room: int)
    requires
        0 <= i <= line.len(),
    ensures
        ({
            let cut = cut_from(line, i, room);
            &&& cut.len() <= line.len() - i
            &&& forall|k: int| 0 <= k < cut.len() - 1 ==> #[trigger] cut[k] == line[i + k]
            &&& cut.len() > 0 ==> cut.last().1 == line[i + cut.len() - 1].1 && cut.last().0.len()
                <= line[i + cut.len() - 1].0.len() && cut.last().0 == line[i + cut.len() - 1].0.take(
                cut.last().0.len() as int,
            )
        }),
    decreases line.len() - i,
{
    if i < line.len() {
        let w = display::display_width(line[i].0);
        if w <= room {
            lemma_cut(line, i + 1, room - w);
            let rest = cut_from(line, i + 1, room - w);
            let cut = cut_from(line, i, room);
            assert(cut =~= seq![line[i]] + rest);
            assert forall|k: int| 0 <= k < cut.len() - 1 implies #[trigger] cut[k] == line[i
                + k] by {
                if k > 0 {
                    assert(cut[k] == rest[k - 1]);
                }
            }
            if rest.len() > 0 {
                assert(cut.last() == rest.last());
            } else {
                assert(line[i].0.take(line[i].0.len() as int) =~= line[i].0);
            }
        } else {
            display::fitting_is_within(line[i].0, 0, room);
        }
    }
}

/// A line that fits is kept; of one that does not, the beginning is kept, piece by piece and with
/// its styles, and an ellipsis behind it says so.
pub proof fn lines_are_cut_at_their_end(line: Seq<PieceView>, width: int)
    requires
        width >= 0,
    ensures
        ({
            let fit = fitted(line, width);
            let wide = columns_from(line, 0) > width;
            &&& !wide ==> fit == line
            &&& wide && width == 0 ==> fit.len() == 0
            &&& wide && width > 0 ==> {
                &&& 0 < fit.len() <= line.len() + 1
                &&& fit.last().0 == "…"@
                &&& forall|k: int| 0 <= k < fit.len() - 2 ==> #[trigger] fit[k] == line[k]
                &&& fit.len() >= 2 ==> fit[fit.len() - 2].1 == line[fit.len() - 2].1
                    && fit[fit.len() - 2].0 == line[fit.len() - 2].0.take(
                    fit[fit.len() - 2].0.len() as int,
                )
            }
        }),
{
    if columns_from(line, 0) > width && width > 0 {
        lemma_cut(line, 0, width - 1);
        let kept = cut_from(line, 0, width - 1);
        let fit = fitted(line, width);
        assert forall|k: int| 0 <= k < fit.len() - 2 implies #[trigger] fit[k] == line[k] by {
            assert(fit[k] == kept[k]);
            assert(kept[k] == line[0 + k]);
        }
        if fit.len() >= 2 {
            assert(fit[fit.len() - 2] == kept.last());
        }
    }
}

proof fn lemma_widest_primary(rows: Seq<SearchResult>, from: int, to: int)
    requires
        0 <= from,
        to <= rows.len(),
    ensures
        forall|i: int|
            from <= i < to ==> primary_text((#[trigger] rows[i])@).len() <= widest_primary(
                rows,
                from,
                to,
            ),
        widest_primary(rows, from, to) >= 0,
        widest_primary(rows, from, to) > 0 ==> exists|i: int|
            from <= i < to && primary_text((#[trigger] rows[i])@).len() == widest_primary(
                rows,
                from,
                to,
            ),
    decreases to - from,
{
    if from < to {
        lemma_widest_primary(rows, from, to - 1);
        let w = widest_primary(rows, from, to);
        if w > primary_text(rows[to - 1]@).len() {
            let i = choose|i: int|
                from <= i < to - 1 && primary_text((#[trigger] rows[i])@).len() == widest_primary(
                    rows,
                    from,
                    to - 1,
                );
            assert(primary_text(rows[i]@).len() == w);
        } else {
            assert(primary_text(rows[to - 1]@).len() == w);
        }
    }
}

/// Whether lines show rows that follow each other, with the selected one marked, and with a column
/// for the names that is as wide as each of them.
pub open spec fn aligned(
    shown: Seq<Seq<PieceView>>,
    rows: Seq<SearchResult>,
    first: int,
    selected: int,
    width: int,
    column: int,
) -> bool {
    forall|k: int|
        0 <= k < shown.len() ==> #[trigger] shown[k] == row_line(
            rows[first + k]@,
            first + k == selected,
            width,
            column,
        ) && primary_text(rows[first + k]@).len() <= column
}

/// The list shows rows that follow each other, each as its own line and the selected one marked;
/// among them is the selected one, and all are shown where they have room. The descriptions stand
/// below each other behind the longest name shown.
pub proof fn lists_show_the_selected_row(
    rows: Seq<SearchResult>,
    s: ScrollState,
    empty_message: Seq<char>,
    width: int,
    height: int,
)
    requires
        0 < rows.len() <= usize::MAX,
        height > 0,
        s.selected_idx matches Some(i) && i < rows.len(),
    ensures
        ({
            let shown = list_lines(rows, s, empty_message, width, height);
            let first = first_visible(s, rows.len() as int, height);
            let i = s.selected_idx->0 as int;
            &&& 0 <= first <= i < first + shown.len() <= rows.len()
            &&& shown.len() <= height && shown.len() <= 8
            &&& rows.len() <= height && rows.len() <= 8 && s.scroll_top == 0 ==> first == 0
                && shown.len() == rows.len()
            &&& exists|column: int| #[trigger] aligned(shown, rows, first, i, width, column)
        }),
        list_lines(Seq::empty(), s, empty_message, width, height).len() == 1,
        list_lines(Seq::empty(), s, empty_message, width, height)[0][0].0 == empty_message,
{
    let n = rows.len() as int;
    let shown = list_lines(rows, s, empty_message, width, height);
    let start = first_visible(s, n, height);
    let end = visible_end(s, n, height);
    let column = widest_primary(rows, start, end);
    lemma_widest_primary(rows, start, end);
    assert forall|k: int| 0 <= k < shown.len() implies #[trigger] shown[k] == row_line(
        rows[start + k]@,
        start + k == s.selected_idx->0,
        width,
        column,
    ) by {}
    assert(aligned(shown, rows, start, s.selected_idx->0 as int, width, column));
}

/// Without a selection the window begins where it was scrolled to, or with the last row if that is
/// behind the list; a selected row in the window leaves it where it is.
pub proof fn windows_stay_where_they_were(s: ScrollState, n: int, height: int)
    requires
        n > 0,
        height > 0,
    ensures
        s.selected_idx is None && s.scroll_top < n ==> first_visible(s, n, height) == s.scroll_top,
        s.selected_idx is None && s.scroll_top >= n ==> first_visible(s, n, height) == n - 1,
        s.selected_idx matches Some(i) ==> (s.scroll_top < n && s.scroll_top <= i < s.scroll_top
            + visible_rows(n, height) ==> first_visible(s, n, height) == s.scroll_top),
        visible_rows(n, height) <= n && visible_rows(n, height) <= height && visible_rows(n, height)
            <= 8,
        n <= height && n <= 8 ==> visible_rows(n, height) == n,
        height <= n && height <= 8 ==> visible_rows(n, height) == height,
        n >= 8 && height >= 8 ==> visible_rows(n, height) == 8,
{
}

} // verus!
