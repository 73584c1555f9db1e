//! Drawing a table: the choice between a box and label and value pairs, and the lines
//! of either.

use vstd::prelude::*;

use crate::display;
use crate::spans;
use crate::spans::Span;
#[allow(unused_imports)]
use crate::spans::SpanView;
use crate::spans::Tone;
use crate::table_layout;
#[allow(unused_imports)]
use crate::table_layout::CellView;
use crate::table_layout::TableCell;
use crate::text;

verus! {

// ---- wrapping ----

/// The first place from `from` on where `line` stands in `s`.
pub open spec fn first_place(s: Seq<char>, line: Seq<char>, from: int) -> Option<int>
    decreases s.len() - from + 1,
{
    if from < 0 || from > s.len() {
        None
    } else if text::stands_at(s, line, from) {
        Some(from)
    } else {
        first_place(s, line, from + 1)
    }
}

/// The lines that a styled line wraps to, given their texts: each looks as its text does where
/// it stands first behind the line before it, and plain should it stand nowhere.
pub open spec fn styled_lines(segment: Seq<SpanView>, lines: Seq<Seq<char>>, from: int) -> Seq<
    Seq<SpanView>,
>
    decreases lines.len(),
{
    if lines.len() == 0 {
        Seq::empty()
    } else {
        match first_place(spans::line_text(segment), lines[0], from) {
            Some(p) => seq![spans::cut_line(segment, p, p + lines[0].len())] + styled_lines(
                segment,
                lines.skip(1),
                p + lines[0].len(),
            ),
            None => seq![seq![(lines[0], Tone::Plain)]] + styled_lines(
                segment,
                lines.skip(1),
                from,
            ),
        }
    }
}

/// The texts of the lines that one line of a cell wraps to; a line without width stays one
/// empty line.
pub open spec fn segment_texts(segment: Seq<SpanView>, width: usize, hard: bool) -> Seq<Seq<char>> {
    let wrapped = display::wrapped_text(spans::line_text(segment), width, hard);
    if spans::line_width(segment) == 0 || wrapped.len() == 0 {
        seq![Seq::empty()]
    } else {
        wrapped
    }
}

/// The lines that one line of a cell wraps to.
pub open spec fn segment_lines(segment: Seq<SpanView>, width: usize, hard: bool) -> Seq<
    Seq<SpanView>,
> {
    styled_lines(segment, segment_texts(segment, width, hard), 0)
}

/// The lines that the first `n` lines of a cell wrap to.
pub open spec fn wrapped_segments(cell: CellView, width: usize, hard: bool, n: int) -> Seq<
    Seq<SpanView>,
>
    decreases n,
{
    if n <= 0 {
        Seq::empty()
    } else {
        wrapped_segments(cell, width, hard, n - 1) + segment_lines(cell[n - 1], width, hard)
    }
}

/// The lines that a cell wraps to: at least one.
pub open spec fn wrapped_cell(cell: CellView, width: usize, hard: bool) -> Seq<Seq<SpanView>> {
    if cell.len() == 0 {
        seq![Seq::empty()]
    } else {
        wrapped_segments(cell, width, hard, cell.len() as int)
    }
}

proof fn lemma_first_place(s: Seq<char>, line: Seq<char>, from: int)
    ensures
        match first_place(s, line, from) {
            Some(p) => from <= p && text::stands_at(s, line, p),
            None => true,
        },
    decreases s.len() - from + 1,
{
    if 0 <= from <= s.len() && !text::stands_at(s, line, from) {
        lemma_first_place(s, line, from + 1);
    }
}

proof fn lemma_first_place_is(s: Seq<char>, line: Seq<char>, from: int, p: int)
    requires
        0 <= from <= p,
        text::stands_at(s, line, p),
        forall|j: int| from <= j < p ==> !text::stands_at(s, line, j),
    ensures
        first_place(s, line, from) == Some(p),
    decreases p - from,
{
    if from < p {
        lemma_first_place_is(s, line, from + 1, p);
    }
}

proof fn lemma_no_place(s: Seq<char>, line: Seq<char>, from: int)
    requires
        forall|j: int| from <= j ==> !text::stands_at(s, line, j),
    ensures
        first_place(s, line, from) is None,
    decreases s.len() - from + 1,
{
    if 0 <= from <= s.len() {
        lemma_no_place(s, line, from + 1);
    }
}

proof fn lemma_styled_texts(segment: Seq<SpanView>, lines: Seq<Seq<char>>, from: int)
    ensures
        table_layout::texts(styled_lines(segment, lines, from)) == lines,
    decreases lines.len(),
{
    let all = styled_lines(segment, lines, from);
    if lines.len() > 0 {
        let s = spans::line_text(segment);
        let rest = lines.skip(1);
        lemma_first_place(s, lines[0], from);
        let (first, after) = match first_place(s, lines[0], from) {
            Some(p) => (spans::cut_line(segment, p, p + lines[0].len()), p + lines[0].len()),
            None => (seq![(lines[0], Tone::Plain)], from),
        };
        lemma_styled_texts(segment, rest, after);
        match first_place(s, lines[0], from) {
            Some(p) => {
                spans::cutting_keeps_the_text(segment, p, p + lines[0].len());
            },
            None => {
                assert(first.drop_last() =~= Seq::<SpanView>::empty());
                assert(spans::line_text(first.drop_last()) =~= Seq::<char>::empty());
                assert(spans::line_text(first) =~= lines[0]);
            },
        }
        assert(spans::line_text(first) == lines[0]);
        let more = styled_lines(segment, rest, after);
        assert(all == seq![first] + more);
        assert(table_layout::texts(more) == rest);
        assert forall|k: int| 0 <= k < lines.len() implies #[trigger] table_layout::texts(all)[k]
            == lines[k] by {
            if k > 0 {
                assert(all[k] == more[k - 1]);
                assert(table_layout::texts(more)[k - 1] == rest[k - 1]);
            }
        }
        assert(more.len() == table_layout::texts(more).len());
    }
    assert(table_layout::texts(all) =~= lines);
}

/// Styles change nothing in what a line of a cell wraps to.
pub proof fn styles_keep_the_text(segment: Seq<SpanView>, width: usize, hard: bool)
    ensures
        table_layout::texts(segment_lines(segment, width, hard)) == segment_texts(
            segment,
            width,
            hard,
        ),
{
    lemma_styled_texts(segment, segment_texts(segment, width, hard), 0);
}

proof fn lemma_wrapped_segments_len(cell: CellView, width: usize, hard: bool, n: int)
    ensures
        n > 0 ==> wrapped_segments(cell, width, hard, n).len() >= 1,
    decreases n,
{
    if n > 0 {
        lemma_wrapped_segments_len(cell, width, hard, n - 1);
        styles_keep_the_text(cell[n - 1], width, hard);
        assert(table_layout::texts(segment_lines(cell[n - 1], width, hard)).len() >= 1);
    }
}

/// A wrapped cell takes at least one line.
pub proof fn cells_take_a_line(cell: CellView, width: usize, hard: bool)
    ensures
        wrapped_cell(cell, width, hard).len() >= 1,
{
    lemma_wrapped_segments_len(cell, width, hard, cell.len() as int);
}

fn one_empty_line() -> (r: Vec<Vec<Span>>)
    ensures
        spans::lines_view(r@) == seq![Seq::<SpanView>::empty()],
{
    spans::one_line(spans::empty_line())
}

fn style_lines(segment: &Vec<Span>, lines: &Vec<String>) -> (r: Vec<Vec<Span>>)
    ensures
        spans::lines_view(r@) == styled_lines(
            spans::line_view(segment@),
            text::string_views(lines@),
            0,
        ),
{
    let ghost v = spans::line_view(segment@);
    let ghost all = text::string_views(lines@);
    let whole = text::chars_of(spans::text_of_line(segment.as_slice()).as_str());
    let size = whole.len();
    let mut r: Vec<Vec<Span>> = Vec::new();
    let mut from: usize = 0;
    let mut i: usize = 0;
    proof {
        assert(all.skip(0) =~= all);
        assert(spans::lines_view(r@) + styled_lines(v, all, 0) =~= styled_lines(v, all, 0));
    }
    while i < lines.len()
        invariant
            i <= lines.len(),
            v == spans::line_view(segment@),
            all == text::string_views(lines@),
            whole@ == spans::line_text(v),
            size == whole@.len(),
            from <= size,
            spans::lines_view(r@) + styled_lines(v, all.skip(i as int), from as int)
                == styled_lines(v, all, 0),
        decreases lines.len() - i,
    {
        let ghost left = all.skip(i as int);
        let ghost before = spans::lines_view(r@);
        let line = text::chars_of(lines[i].as_str());
        proof {
            assert(left[0] == line@);
            assert(left.skip(1) =~= all.skip(i + 1));
        }
        match text::find_sub(whole.as_slice(), line.as_slice(), from) {
            Some(p) => {
                proof {
                    lemma_first_place_is(whole@, line@, from as int, p as int);
                }
                let end = p + line.len();
                spans::push_line(&mut r, spans::part_of_line(segment, p, end));
                from = end;
            },
            None => {
                proof {
                    lemma_no_place(whole@, line@, from as int);
                }
                let mut plain = spans::empty_line();
                spans::push_span(&mut plain, lines[i].clone(), Tone::Plain);
                assert(spans::line_view(plain@) =~= seq![(line@, Tone::Plain)]);
                spans::push_line(&mut r, plain);
            },
        }
        i = i + 1;
        proof {
            let now = spans::lines_view(r@);
            assert(now =~= before + seq![now.last()]);
            assert(before + (seq![now.last()] + styled_lines(v, all.skip(i as int), from as int))
                =~= now + styled_lines(v, all.skip(i as int), from as int));
        }
    }
    proof {
        assert(styled_lines(v, all.skip(i as int), from as int) =~= Seq::<Seq<SpanView>>::empty());
        assert(spans::lines_view(r@) + Seq::<Seq<SpanView>>::empty() =~= spans::lines_view(r@));
    }
    r
}

fn wrap_segment(segment: &Vec<Span>, width: usize, hard_wrap: bool) -> (r: Vec<Vec<Span>>)
    ensures
        spans::lines_view(r@) == segment_lines(spans::line_view(segment@), width, hard_wrap),
{
    let mut one: Vec<String> = Vec::new();
    one.push(String::new());
    assert(text::string_views(one@) =~= seq![Seq::<char>::empty()]);
    if spans::width_of_line(segment.as_slice()) == 0 {
        return style_lines(segment, &one);
    }
    let whole = spans::text_of_line(segment.as_slice());
    let wrapped = display::wrap_text(whole.as_str(), width, hard_wrap);
    assert(text::string_views(wrapped@).len() == wrapped@.len());
    if wrapped.len() == 0 {
        style_lines(segment, &one)
    } else {
        style_lines(segment, &wrapped)
    }
}

/// The lines that a cell wraps to.
pub fn wrap_table_cell(cell: &TableCell, width: usize, hard_wrap: bool) -> (r: Vec<Vec<Span>>)
    ensures
        spans::lines_view(r@) == wrapped_cell(spans::lines_view(cell.lines@), width, hard_wrap),
{
    let ghost v = spans::lines_view(cell.lines@);
    if cell.lines.len() == 0 {
        return one_empty_line();
    }
    let mut r: Vec<Vec<Span>> = Vec::new();
    let mut i: usize = 0;
    assert(spans::lines_view(r@) =~= wrapped_segments(v, width, hard_wrap, 0));
    while i < cell.lines.len()
        invariant
            i <= cell.lines.len(),
            v == spans::lines_view(cell.lines@),
            spans::lines_view(r@) == wrapped_segments(v, width, hard_wrap, i as int),
        decreases cell.lines.len() - i,
    {
        assert(v[i as int] == spans::line_view(cell.lines@[i as int]@));
        spans::append_lines(&mut r, wrap_segment(&cell.lines[i], width, hard_wrap));
        i = i + 1;
    }
    r
}

// ---- how a box would come out ----

/// The number of columns that both a row and the widths have.
pub open spec fn shared(row: Seq<CellView>, widths: Seq<usize>) -> int {
    table_layout::min_of(row.len() as int, widths.len() as int)
}

/// The most lines that one of the first `n` cells of a row takes.
pub open spec fn tallest(
    row: Seq<CellView>,
    widths: Seq<usize>,
    hard: bool,
    n: int,
) -> int
    decreases n,
{
    if n <= 0 {
        0
    } else {
        table_layout::max_of(
            tallest(row, widths, hard, n - 1),
            wrapped_cell(row[n - 1], widths[n - 1], hard).len() as int,
        )
    }
}

/// The lines that a row takes: at least one.
pub open spec fn row_height(row: Seq<CellView>, widths: Seq<usize>, hard: bool) -> int {
    if shared(row, widths) == 0 {
        1
    } else {
        tallest(row, widths, hard, shared(row, widths))
    }
}

/// Whether a word of a cell is wider than the cell.
pub open spec fn too_wide(cell: CellView, width: usize) -> bool {
    exists|k: int|
        0 <= k < text::words(table_layout::plain(cell)).len() && display::display_width(
            #[trigger] text::words(table_layout::plain(cell))[k],
        ) > width
}

/// Whether a row has a word that is wider than its column.
pub open spec fn row_too_wide(row: Seq<CellView>, widths: Seq<usize>) -> bool {
    exists|i: int| 0 <= i < shared(row, widths) && too_wide(#[trigger] row[i], widths[i])
}

/// Whether a table has a word that is wider than its column.
pub open spec fn any_too_wide(rows: Seq<Seq<CellView>>, widths: Seq<usize>) -> bool {
    exists|k: int| 0 <= k < rows.len() && row_too_wide(#[trigger] rows[k], widths)
}

/// The height of the tallest of the first `n` rows, without the header row.
pub open spec fn tallest_body(
    rows: Seq<Seq<CellView>>,
    widths: Seq<usize>,
    hard: bool,
    n: int,
) -> int
    decreases n,
{
    if n <= 1 {
        0
    } else {
        table_layout::max_of(
            tallest_body(rows, widths, hard, n - 1),
            row_height(rows[n - 1], widths, hard),
        )
    }
}

/// The height of the first `n` rows together, without the header row.
pub open spec fn body_height(
    rows: Seq<Seq<CellView>>,
    widths: Seq<usize>,
    hard: bool,
    n: int,
) -> int
    decreases n,
{
    if n <= 1 {
        0
    } else {
        body_height(rows, widths, hard, n - 1) + row_height(rows[n - 1], widths, hard)
    }
}

/// The number of rows below the header.
pub open spec fn body_rows(rows: Seq<Seq<CellView>>) -> int {
    if rows.len() == 0 {
        0
    } else {
        rows.len() - 1
    }
}

/// Whether every column that does not number the rows is squeezed to its minimum, and
/// there is such a column.
pub open spec fn all_starved(rows: Seq<Seq<CellView>>, widths: Seq<usize>) -> bool {
    (exists|i: int|
        0 <= i < widths.len() && !#[trigger] table_layout::index_column(rows, i)) && forall|i: int|

        0 <= i < widths.len() && !#[trigger] table_layout::index_column(rows, i) ==> widths[i] <= 3
}

/// Whether a box would be hard to read: rows that are very tall, many rows that are tall on
/// average, many rows in starved columns, or a narrow terminal that may measure the
/// characters otherwise.
pub open spec fn unreadable(
    rows: Seq<Seq<CellView>>,
    widths: Seq<usize>,
    available: int,
    padding: int,
    hard: bool,
) -> bool {
    let n = rows.len() as int;
    let body = body_rows(rows);
    ||| tallest_body(rows, widths, hard, n) > 24
    ||| body >= 10 && body_height(rows, widths, hard, n) > 6 * body
    ||| body >= 24 && body_height(rows, widths, hard, n) > 4 * body
    ||| widths.len() >= 4 && body >= 12 && all_starved(rows, widths)
    ||| table_layout::width_risk(rows) && available <= 24 && table_layout::total_width(
        table_layout::ints(widths),
        padding,
    ) >= available
}

/// Whether words are broken to keep a box in shape.
pub open spec fn breaks_words(rows: Seq<Seq<CellView>>, widths: Seq<usize>) -> bool {
    any_too_wide(rows, widths) || tallest_body(rows, widths, false, rows.len() as int) > 12
}

/// Whether the table is drawn as a box with these widths, and with broken words.
pub open spec fn box_candidate(
    rows: Seq<Seq<CellView>>,
    widths: Seq<usize>,
    available: int,
    padding: int,
) -> Option<bool> {
    let hard = breaks_words(rows, widths);
    if unreadable(rows, widths, available, padding, hard) {
        None
    } else {
        Some(hard)
    }
}

/// How a box table is drawn.
#[derive(Debug)]
pub struct TableLayoutCandidate {
    pub column_widths: Vec<usize>,
    pub padding: usize,
    pub hard_wrap: bool,
}

/// Whether a layout is a readable box with `padding`.
pub open spec fn is_box_with(
    c: TableLayoutCandidate,
    rows: Seq<Seq<CellView>>,
    desired: Seq<int>,
    available: int,
    padding: int,
) -> bool {
    &&& c.padding == padding
    &&& table_layout::allocated(rows, desired, available, padding) == Some(
        table_layout::ints(c.column_widths@),
    )
    &&& box_candidate(rows, c.column_widths@, available, padding) == Some(c.hard_wrap)
}

/// Whether no readable box exists with `padding`.
pub open spec fn no_box_with(
    rows: Seq<Seq<CellView>>,
    desired: Seq<int>,
    available: int,
    padding: int,
) -> bool {
    match table_layout::allocated(rows, desired, available, padding) {
        None => true,
        Some(w) => box_candidate(
            rows,
            w.map_values(|x: int| x as usize),
            available,
            padding,
        ) is None,
    }
}

proof fn lemma_ints_back(w: Seq<usize>)
    ensures
        table_layout::ints(w).map_values(|x: int| x as usize) == w,
{
    assert(table_layout::ints(w).map_values(|x: int| x as usize) =~= w);
}

/// Whether a word of a cell is wider than the cell.
pub fn cell_needs_hard_wrap(cell: &TableCell, width: usize) -> (r: bool)
    ensures
        r == too_wide(spans::lines_view(cell.lines@), width),
{
    let ghost all = text::words(table_layout::plain(spans::lines_view(cell.lines@)));
    let p = text::chars_of(cell.plain_text().as_str());
    let words = text::words_of(p.as_slice());
    let mut k: usize = 0;
    while k < words.len()
        invariant
            k <= words.len(),
            all == text::char_views(words@),
            all == text::words(table_layout::plain(spans::lines_view(cell.lines@))),
            forall|j: int| 0 <= j < k ==> display::display_width(#[trigger] all[j]) <= width,
        decreases words.len() - k,
    {
        assert(all[k as int] == words@[k as int]@);
        if display::width_of(text::string_of(words[k].as_slice()).as_str()) > width {
            return true;
        }
        k = k + 1;
    }
    false
}

fn height_of_row(row: &Vec<TableCell>, widths: &[usize], hard: bool) -> (r: usize)
    ensures
        r == row_height(table_layout::row_view(row@), widths@, hard),
{
    let ghost v = table_layout::row_view(row@);
    let n = if row.len() <= widths.len() {
        row.len()
    } else {
        widths.len()
    };
    if n == 0 {
        return 1;
    }
    let mut best: usize = 0;
    let mut i: usize = 0;
    while i < n
        invariant
            i <= n <= row.len(),
            n <= widths.len(),
            v == table_layout::row_view(row@),
            best == tallest(v, widths@, hard, i as int),
        decreases n - i,
    {
        assert(v[i as int] == spans::lines_view(row@[i as int].lines@));
        let lines = wrap_table_cell(&row[i], widths[i], hard);
        assert(spans::lines_view(lines@).len() == lines@.len());
        if lines.len() > best {
            best = lines.len();
        }
        i = i + 1;
    }
    best
}

fn is_row_too_wide(row: &Vec<TableCell>, widths: &[usize]) -> (r: bool)
    ensures
        r == row_too_wide(table_layout::row_view(row@), widths@),
{
    let ghost v = table_layout::row_view(row@);
    let mut i: usize = 0;
    while i < row.len() && i < widths.len()
        invariant
            i <= row.len(),
            i <= widths.len(),
            v == table_layout::row_view(row@),
            forall|j: int| 0 <= j < i ==> !too_wide(#[trigger] v[j], widths@[j]),
        decreases row.len() - i,
    {
        assert(v[i as int] == spans::lines_view(row@[i as int].lines@));
        if cell_needs_hard_wrap(&row[i], widths[i]) {
            assert(too_wide(v[i as int], widths@[i as int]));
            return true;
        }
        i = i + 1;
    }
    false
}

fn is_any_too_wide(rows: &[Vec<TableCell>], widths: &[usize]) -> (r: bool)
    ensures
        r == any_too_wide(table_layout::rows_view(rows@), widths@),
{
    let ghost v = table_layout::rows_view(rows@);
    let mut k: usize = 0;
    while k < rows.len()
        invariant
            k <= rows.len(),
            v == table_layout::rows_view(rows@),
            forall|j: int| 0 <= j < k ==> !row_too_wide(#[trigger] v[j], widths@),
        decreases rows.len() - k,
    {
        assert(v[k as int] == table_layout::row_view(rows@[k as int]@));
        if is_row_too_wide(&rows[k], widths) {
            return true;
        }
        k = k + 1;
    }
    false
}

/// The heights of a table's body: that of its tallest row, and that of all rows together.
#[derive(Debug)]
pub struct TableMetrics {
    pub max_body_row_height: usize,
    pub total_body_height: u128,
}

/// Measures the body of a table.
pub fn table_metrics(rows: &[Vec<TableCell>], widths: &[usize], hard_wrap: bool) -> (r:
    TableMetrics)
    ensures
        r.max_body_row_height == tallest_body(
            table_layout::rows_view(rows@),
            widths@,
            hard_wrap,
            rows@.len() as int,
        ),
        r.total_body_height == body_height(
            table_layout::rows_view(rows@),
            widths@,
            hard_wrap,
            rows@.len() as int,
        ),
{
    let ghost v = table_layout::rows_view(rows@);
    let mut best: usize = 0;
    let mut total: u128 = 0;
    if rows.len() == 0 {
        return TableMetrics { max_body_row_height: 0, total_body_height: 0 };
    }
    let mut k: usize = 1;
    while k < rows.len()
        invariant
            1 <= k <= rows.len(),
            v == table_layout::rows_view(rows@),
            best == tallest_body(v, widths@, hard_wrap, k as int),
            total == body_height(v, widths@, hard_wrap, k as int),
            total <= (k - 1) * 0xffff_ffff_ffff_ffff,
        decreases rows.len() - k,
    {
        assert(v[k as int] == table_layout::row_view(rows@[k as int]@));
        let h = height_of_row(&rows[k], widths, hard_wrap);
        if h > best {
            best = h;
        }
        total = total + (h as u128);
        k = k + 1;
    }
    TableMetrics { max_body_row_height: best, total_body_height: total }
}

fn is_all_starved(rows: &[Vec<TableCell>], widths: &[usize]) -> (r: bool)
    ensures
        r == all_starved(table_layout::rows_view(rows@), widths@),
{
    let ghost v = table_layout::rows_view(rows@);
    let mut found = false;
    let mut i: usize = 0;
    while i < widths.len()
        invariant
            i <= widths.len(),
            v == table_layout::rows_view(rows@),
            found ==> exists|j: int| 0 <= j < i && !#[trigger] table_layout::index_column(v, j),
            !found ==> forall|j: int| 0 <= j < i ==> #[trigger] table_layout::index_column(v, j),
            forall|j: int|
                0 <= j < i && !#[trigger] table_layout::index_column(v, j) ==> widths@[j] <= 3,
        decreases widths.len() - i,
    {
        if !table_layout::is_index_column(rows, i) {
            if widths[i] > 3 {
                return false;
            }
            found = true;
            assert(!table_layout::index_column(v, i as int));
        }
        i = i + 1;
    }
    found
}

fn is_total_width_at_least(widths: &[usize], padding: usize, limit: usize) -> (r: bool)
    ensures
        r == (table_layout::total_width(table_layout::ints(widths@), padding as int) >= limit),
{
    let ghost w = table_layout::ints(widths@);
    let mut total: u128 = 0;
    let mut i: usize = 0;
    while i < widths.len()
        invariant
            i <= widths.len(),
            w == table_layout::ints(widths@),
            total == table_layout::sum_of(w, i as int),
            total <= i * 0xffff_ffff_ffff_ffff,
        decreases widths.len() - i,
    {
        assert(w[i as int] == widths@[i as int]);
        total = total + (widths[i] as u128);
        i = i + 1;
    }
    let count = widths.len() as u128;
    let pads: u128 = table_layout::product(padding, widths.len());
    total >= 0x1_0000_0000_0000_0000 || pads >= 0x1_0000_0000_0000_0000 || total + (count + 1 + 2
        * pads) >= (limit as u128)
}

/// Whether a box would be hard to read.
pub fn should_render_vertical(
    rows: &[Vec<TableCell>],
    widths: &[usize],
    available_width: usize,
    padding: usize,
    hard_wrap: bool,
) -> (r: bool)
    ensures
        r == unreadable(
            table_layout::rows_view(rows@),
            widths@,
            available_width as int,
            padding as int,
            hard_wrap,
        ),
{
    let metrics = table_metrics(rows, widths, hard_wrap);
    let body: usize = if rows.len() == 0 {
        0
    } else {
        rows.len() - 1
    };
    if metrics.max_body_row_height > 24 {
        return true;
    }
    if body >= 10 && metrics.total_body_height > 6 * (body as u128) {
        return true;
    }
    if body >= 24 && metrics.total_body_height > 4 * (body as u128) {
        return true;
    }
    if widths.len() >= 4 && body >= 12 && is_all_starved(rows, widths) {
        return true;
    }
    table_layout::has_width_risk_chars(rows) && available_width <= 24 && is_total_width_at_least(
        widths,
        padding,
        available_width,
    )
}

fn build_table_candidate(
    rows: &[Vec<TableCell>],
    widths: &[usize],
    available_width: usize,
    padding: usize,
) -> (r: Option<bool>)
    ensures
        r == box_candidate(
            table_layout::rows_view(rows@),
            widths@,
            available_width as int,
            padding as int,
        ),
{
    let metrics = table_metrics(rows, widths, false);
    let hard = is_any_too_wide(rows, widths) || metrics.max_body_row_height > 12;
    if should_render_vertical(rows, widths, available_width, padding, hard) {
        None
    } else {
        Some(hard)
    }
}

/// The layout of a box table: with padding where that is readable, else without, else none.
pub fn choose_table_layout(
    rows: &[Vec<TableCell>],
    desired_widths: &[usize],
    available_width: usize,
) -> (r: Option<TableLayoutCandidate>)
    ensures
        ({
            let v = table_layout::rows_view(rows@);
            let d = table_layout::ints(desired_widths@);
            let a = available_width as int;
            match r {
                Some(c) => c.column_widths@.len() == desired_widths@.len() && (is_box_with(
                    c,
                    v,
                    d,
                    a,
                    1,
                ) || no_box_with(v, d, a, 1) && is_box_with(c, v, d, a, 0)),
                None => no_box_with(v, d, a, 1) && no_box_with(v, d, a, 0),
            }
        }),
{
    match table_layout::allocate_table_widths(rows, desired_widths, available_width, 1) {
        Some(widths) => {
            proof {
                lemma_ints_back(widths@);
            }
            match build_table_candidate(rows, widths.as_slice(), available_width, 1) {
                Some(hard_wrap) => {
                    return Some(
                        TableLayoutCandidate { column_widths: widths, padding: 1, hard_wrap },
                    );
                },
                None => {},
            }
        },
        None => {},
    }
    match table_layout::allocate_table_widths(rows, desired_widths, available_width, 0) {
        Some(widths) => {
            proof {
                lemma_ints_back(widths@);
            }
            match build_table_candidate(rows, widths.as_slice(), available_width, 0) {
                Some(hard_wrap) => Some(
                    TableLayoutCandidate { column_widths: widths, padding: 0, hard_wrap },
                ),
                None => None,
            }
        },
        None => None,
    }
}

// ---- drawing ----

/// A row of a table with empty cells added up to `columns`.
pub open spec fn padded_row(row: Seq<CellView>, columns: int) -> Seq<CellView> {
    Seq::new(
        columns as nat,
        |i: int|
            if i < row.len() {
                row[i]
            } else {
                Seq::empty()
            },
    )
}

/// The most cells that one of the first `n` rows has.
pub open spec fn most_cells(rows: Seq<Seq<CellView>>, n: int) -> int
    decreases n,
{
    if n <= 0 {
        0
    } else {
        table_layout::max_of(most_cells(rows, n - 1), rows[n - 1].len() as int)
    }
}

/// The rows of a table, each with as many cells as the longest has.
pub open spec fn padded_rows(rows: Seq<Seq<CellView>>) -> Seq<Seq<CellView>> {
    rows.map_values(
        |row: Seq<CellView>| padded_row(row, most_cells(rows, rows.len() as int)),
    )
}

/// The widest of the cells of column `i` among the first `n` rows, but at least three.
pub open spec fn desired_width(rows: Seq<Seq<CellView>>, i: int, n: int) -> int
    decreases n,
{
    if n <= 0 {
        3
    } else {
        table_layout::max_of(
            desired_width(rows, i, n - 1),
            if i < rows[n - 1].len() {
                table_layout::cell_width(rows[n - 1][i])
            } else {
                0
            },
        )
    }
}

/// The widths that the columns of a table would have with room for everything.
pub open spec fn desired_widths(rows: Seq<Seq<CellView>>, columns: int) -> Seq<int> {
    Seq::new(columns as nat, |i: int| desired_width(rows, i, rows.len() as int))
}

/// The dashes of a border, one run per column.
pub open spec fn border_runs(widths: Seq<usize>, padding: int) -> Seq<Seq<char>> {
    Seq::new(widths.len(), |i: int| text::repeat_char('─', (widths[i] + 2 * padding) as nat))
}

/// A horizontal border.
pub open spec fn border(
    left: Seq<char>,
    separator: Seq<char>,
    right: Seq<char>,
    widths: Seq<usize>,
    padding: int,
) -> Seq<char> {
    left + text::join(border_runs(widths, padding), separator) + right
}

/// A plain piece.
pub open spec fn plain_span(s: Seq<char>) -> SpanView {
    (s, Tone::Plain)
}

/// A line that is one plain piece.
pub open spec fn plain_line(s: Seq<char>) -> Seq<SpanView> {
    seq![plain_span(s)]
}

/// A piece of `n` spaces, and none where `n` is not positive.
pub open spec fn blank(n: int) -> Seq<SpanView> {
    if n <= 0 {
        Seq::empty()
    } else {
        plain_line(text::repeat_char(' ', n as nat))
    }
}

/// Line `k` of a cell inside its column, with the border behind it.
pub open spec fn cell_box(lines: Seq<Seq<SpanView>>, k: int, width: usize, padding: int) -> Seq<
    SpanView,
> {
    blank(padding) + (if k < lines.len() {
        lines[k] + blank(width - spans::line_width(lines[k]))
    } else {
        blank(width as int)
    }) + blank(padding) + plain_line("│"@)
}

/// Line `k` of the first `n` cells of a row.
pub open spec fn boxed_cells(
    row: Seq<CellView>,
    widths: Seq<usize>,
    padding: int,
    hard: bool,
    k: int,
    n: int,
) -> Seq<SpanView>
    decreases n,
{
    if n <= 0 {
        plain_line("│"@)
    } else {
        boxed_cells(row, widths, padding, hard, k, n - 1) + cell_box(
            wrapped_cell(row[n - 1], widths[n - 1], hard),
            k,
            widths[n - 1],
            padding,
        )
    }
}

/// The lines of a row.
pub open spec fn row_lines(
    row: Seq<CellView>,
    widths: Seq<usize>,
    padding: int,
    hard: bool,
) -> Seq<Seq<SpanView>> {
    Seq::new(
        row_height(row, widths, hard) as nat,
        |k: int| boxed_cells(row, widths, padding, hard, k, shared(row, widths)),
    )
}

/// The lines of the first `n` rows, with a border below the header.
pub open spec fn box_lines(
    rows: Seq<Seq<CellView>>,
    widths: Seq<usize>,
    padding: int,
    hard: bool,
    n: int,
) -> Seq<Seq<SpanView>>
    decreases n,
{
    if n <= 0 {
        seq![plain_line(border("┌"@, "┬"@, "┐"@, widths, padding))]
    } else {
        let above = box_lines(rows, widths, padding, hard, n - 1) + row_lines(
            rows[n - 1],
            widths,
            padding,
            hard,
        );
        if n == 1 {
            above.push(plain_line(border("├"@, "┼"@, "┤"@, widths, padding)))
        } else {
            above
        }
    }
}

/// The lines of a box table.
pub open spec fn box_table(
    rows: Seq<Seq<CellView>>,
    widths: Seq<usize>,
    padding: int,
    hard: bool,
) -> Seq<Seq<SpanView>> {
    box_lines(rows, widths, padding, hard, rows.len() as int).push(
        plain_line(border("└"@, "┴"@, "┘"@, widths, padding)),
    )
}

/// A horizontal border.
pub fn border_line(
    left: &str,
    separator: &str,
    right: &str,
    widths: &[usize],
    padding: usize,
) -> (r: String)
    ensures
        r@ == border(left@, separator@, right@, widths@, padding as int),
{
    let mut runs: Vec<String> = Vec::new();
    let mut i: usize = 0;
    while i < widths.len()
        invariant
            i <= widths.len(),
            runs@.len() == i,
            forall|k: int|
                0 <= k < i ==> (#[trigger] runs@[k])@ == border_runs(widths@, padding as int)[k],
        decreases widths.len() - i,
    {
        let mut run = text::repeated('─', widths[i]);
        run.push_str(text::repeated('─', padding).as_str());
        run.push_str(text::repeated('─', padding).as_str());
        assert(run@ =~= border_runs(widths@, padding as int)[i as int]);
        runs.push(run);
        i = i + 1;
    }
    assert(text::string_views(runs@) =~= border_runs(widths@, padding as int));
    let mut r = left.to_owned();
    r.push_str(text::join_strings(runs.as_slice(), separator).as_str());
    r.push_str(right);
    r
}

fn push_plain(line: &mut Vec<Span>, s: &str)
    ensures
        spans::line_view(final(line)@) == spans::line_view(old(line)@) + plain_line(s@),
{
    let ghost before = spans::line_view(line@);
    spans::push_span(line, s.to_owned(), Tone::Plain);
    assert(before.push((s@, Tone::Plain)) =~= before + plain_line(s@));
}

fn push_plain_line(out: &mut Vec<Vec<Span>>, s: String)
    ensures
        spans::lines_view(final(out)@) == spans::lines_view(old(out)@).push(plain_line(s@)),
{
    let mut line = spans::empty_line();
    spans::push_span(&mut line, s, Tone::Plain);
    assert(spans::line_view(line@) =~= plain_line(s@));
    spans::push_line(out, line);
}

fn push_padding(line: &mut Vec<Span>, width: usize, used: usize)
    ensures
        spans::line_view(final(line)@) == spans::line_view(old(line)@) + blank(width - used),
{
    if width > used {
        let spaces = text::repeated(' ', width - used);
        push_plain(line, spaces.as_str());
    } else {
        assert(spans::line_view(line@) + Seq::<SpanView>::empty() =~= spans::line_view(line@));
    }
}

fn wrapped_cells(row: &Vec<TableCell>, widths: &[usize], hard: bool) -> (r: Vec<Vec<Vec<Span>>>)
    ensures
        r@.len() == shared(table_layout::row_view(row@), widths@),
        forall|i: int|
            0 <= i < r@.len() ==> spans::lines_view((#[trigger] r@[i])@) == wrapped_cell(
                table_layout::row_view(row@)[i],
                widths@[i],
                hard,
            ),
{
    let ghost v = table_layout::row_view(row@);
    let mut r: Vec<Vec<Vec<Span>>> = Vec::new();
    let mut i: usize = 0;
    while i < row.len() && i < widths.len()
        invariant
            i <= row.len(),
            i <= widths.len(),
            v == table_layout::row_view(row@),
            r@.len() == i,
            forall|k: int|
                0 <= k < i ==> spans::lines_view((#[trigger] r@[k])@) == wrapped_cell(
                    v[k],
                    widths@[k],
                    hard,
                ),
        decreases row.len() - i,
    {
        assert(v[i as int] == spans::lines_view(row@[i as int].lines@));
        r.push(wrap_table_cell(&row[i], widths[i], hard));
        i = i + 1;
    }
    r
}

/// The lines of a row.
pub fn render_table_row(
    row: &Vec<TableCell>,
    widths: &[usize],
    padding: usize,
    hard_wrap: bool,
) -> (r: Vec<Vec<Span>>)
    ensures
        spans::lines_view(r@) == row_lines(
            table_layout::row_view(row@),
            widths@,
            padding as int,
            hard_wrap,
        ),
{
    let ghost v = table_layout::row_view(row@);
    let ghost p = padding as int;
    let cells = wrapped_cells(row, widths, hard_wrap);
    let height = height_of_row(row, widths, hard_wrap);
    let mut r: Vec<Vec<Span>> = Vec::new();
    let mut k: usize = 0;
    while k < height
        invariant
            k <= height,
            v == table_layout::row_view(row@),
            p == padding,
            cells@.len() == shared(v, widths@),
            forall|i: int|
                0 <= i < cells@.len() ==> spans::lines_view((#[trigger] cells@[i])@)
                    == wrapped_cell(v[i], widths@[i], hard_wrap),
            r@.len() == k,
            forall|j: int|
                0 <= j < k ==> spans::line_view((#[trigger] r@[j])@) == boxed_cells(
                    v,
                    widths@,
                    p,
                    hard_wrap,
                    j,
                    shared(v, widths@),
                ),
        decreases height - k,
    {
        let mut line = spans::empty_line();
        push_plain(&mut line, "│");
        assert(spans::line_view(line@) =~= plain_line("│"@));
        let mut i: usize = 0;
        while i < cells.len()
            invariant
                i <= cells.len(),
                v == table_layout::row_view(row@),
                p == padding,
                cells@.len() == shared(v, widths@),
                forall|j: int|
                    0 <= j < cells@.len() ==> spans::lines_view((#[trigger] cells@[j])@)
                        == wrapped_cell(v[j], widths@[j], hard_wrap),
                spans::line_view(line@) == boxed_cells(v, widths@, p, hard_wrap, k as int, i as int),
            decreases cells.len() - i,
        {
            let lines = &cells[i];
            let width = widths[i];
            let ghost seen = wrapped_cell(v[i as int], widths@[i as int], hard_wrap);
            assert(spans::lines_view(lines@) == seen);
            let ghost before = spans::line_view(line@);
            push_padding(&mut line, padding, 0);
            if k < lines.len() {
                assert(seen[k as int] == spans::line_view(lines@[k as int]@));
                spans::extend_line(&mut line, &lines[k]);
                push_padding(&mut line, width, spans::width_of_line(lines[k].as_slice()));
            } else {
                push_padding(&mut line, width, 0);
            }
            push_padding(&mut line, padding, 0);
            push_plain(&mut line, "│");
            assert(spans::line_view(line@) =~= before + cell_box(seen, k as int, width, p));
            i = i + 1;
        }
        r.push(line);
        k = k + 1;
    }
    assert(spans::lines_view(r@) =~= row_lines(v, widths@, p, hard_wrap));
    r
}

/// The lines of a box table.
pub fn render_box_table(
    rows: &[Vec<TableCell>],
    widths: &[usize],
    padding: usize,
    hard_wrap: bool,
) -> (r: Vec<Vec<Span>>)
    ensures
        spans::lines_view(r@) == box_table(
            table_layout::rows_view(rows@),
            widths@,
            padding as int,
            hard_wrap,
        ),
{
    let ghost v = table_layout::rows_view(rows@);
    let ghost p = padding as int;
    let mut out: Vec<Vec<Span>> = Vec::new();
    push_plain_line(&mut out, border_line("┌", "┬", "┐", widths, padding));
    assert(spans::lines_view(out@) =~= box_lines(v, widths@, p, hard_wrap, 0));
    let mut i: usize = 0;
    while i < rows.len()
        invariant
            i <= rows.len(),
            v == table_layout::rows_view(rows@),
            p == padding,
            spans::lines_view(out@) == box_lines(v, widths@, p, hard_wrap, i as int),
        decreases rows.len() - i,
    {
        assert(v[i as int] == table_layout::row_view(rows@[i as int]@));
        let lines = render_table_row(&rows[i], widths, padding, hard_wrap);
        spans::append_lines(&mut out, lines);
        if i == 0 {
            push_plain_line(&mut out, border_line("├", "┼", "┤", widths, padding));
        }
        i = i + 1;
    }
    push_plain_line(&mut out, border_line("└", "┴", "┘", widths, padding));
    out
}

// ---- label and value pairs ----

/// The text that labels column `index`.
pub open spec fn label_of(headers: Seq<CellView>, index: int) -> Seq<char> {
    if 0 <= index < headers.len() && text::trim(table_layout::plain(headers[index])).len() > 0 {
        text::trim(table_layout::plain(headers[index]))
    } else {
        "Column"@
    }
}

/// Whether a cell holds nothing but white space.
pub open spec fn blank_cell(cell: CellView) -> bool {
    text::trim(table_layout::plain(cell)).len() == 0
}

/// Whether a column is shown: not the first one where that only numbers the rows, and not
/// one without any content.
pub open spec fn is_shown(rows: Seq<Seq<CellView>>, index: int) -> bool {
    let headers = rows[0];
    &&& !(index == 0 && headers.len() > 1 && table_layout::is_index_header(
        table_layout::header_key(headers[0]),
    ))
    &&& (!blank_cell(headers[index]) || exists|k: int|
        1 <= k < rows.len() && index < (#[trigger] rows[k]).len() && !blank_cell(rows[k][index]))
}

/// The shown columns among the first `n`.
pub open spec fn shown_columns(rows: Seq<Seq<CellView>>, n: int) -> Seq<int>
    decreases n,
{
    if n <= 0 {
        Seq::empty()
    } else if is_shown(rows, n - 1) {
        shown_columns(rows, n - 1).push(n - 1)
    } else {
        shown_columns(rows, n - 1)
    }
}

/// The larger of a width and what was seen before.
pub open spec fn seen_max(seen: Option<int>, w: int) -> Option<int> {
    match seen {
        Some(s) => Some(table_layout::max_of(s, w)),
        None => Some(w),
    }
}

/// The widest label of the first `n` shown columns.
pub open spec fn widest_label(headers: Seq<CellView>, columns: Seq<int>, n: int) -> Option<
    int,
>
    decreases n,
{
    if n <= 0 {
        None
    } else {
        seen_max(
            widest_label(headers, columns, n - 1),
            display::display_width(label_of(headers, columns[n - 1])) as int,
        )
    }
}

/// The widest of what was seen and the first `n` lines.
pub open spec fn widest_line(seen: Option<int>, lines: Seq<Seq<char>>, n: int) -> Option<int>
    decreases n,
{
    if n <= 0 {
        seen
    } else {
        seen_max(widest_line(seen, lines, n - 1), display::display_width(lines[n - 1]) as int)
    }
}

/// The widest of what was seen and the values of a row in the first `n` shown columns.
pub open spec fn widest_in_row(
    seen: Option<int>,
    row: Seq<CellView>,
    columns: Seq<int>,
    n: int,
) -> Option<int>
    decreases n,
{
    if n <= 0 {
        seen
    } else {
        let before = widest_in_row(seen, row, columns, n - 1);
        if columns[n - 1] < row.len() {
            let lines = text::text_lines(table_layout::plain(row[columns[n - 1]]));
            widest_line(before, lines, lines.len() as int)
        } else {
            before
        }
    }
}

/// The widest value of the first `n` rows, without the header row.
pub open spec fn widest_value(rows: Seq<Seq<CellView>>, columns: Seq<int>, n: int) -> Option<
    int,
>
    decreases n,
{
    if n <= 1 {
        None
    } else {
        widest_in_row(
            widest_value(rows, columns, n - 1),
            rows[n - 1],
            columns,
            columns.len() as int,
        )
    }
}

/// One number less another, but not below zero.
pub open spec fn minus(a: int, b: int) -> int {
    if a >= b {
        a - b
    } else {
        0
    }
}

/// The widths of the label and the value column.
pub open spec fn pair_widths(header: int, value: int, available: int) -> (int, int) {
    let room = minus(available, 7);
    if room < 6 {
        let label = table_layout::max_of(room / 2, 1);
        (label, table_layout::max_of(minus(room, label), 1))
    } else {
        let label = table_layout::min_of(
            table_layout::max_of(table_layout::min_of(header, 20), 3),
            minus(room, 3),
        );
        (
            label,
            table_layout::max_of(
                table_layout::min_of(table_layout::max_of(value, 3), minus(room, label)),
                3,
            ),
        )
    }
}

/// Label and value columns fit the available width, unless the terminal is too narrow for
/// anything.
pub proof fn pairs_fit(header: int, value: int, available: int)
    requires
        header >= 0,
        value >= 0,
    ensures
        pair_widths(header, value, available).0 >= 1,
        pair_widths(header, value, available).1 >= 1,
        available >= 9 ==> pair_widths(header, value, available).0 + pair_widths(
            header,
            value,
            available,
        ).1 + 7 <= available,
{
}

/// The lines of a value: a dash for a blank cell, else its text with broken words.
pub open spec fn value_lines(row: Seq<CellView>, index: int, width: usize) -> Seq<Seq<SpanView>> {
    if index >= row.len() || blank_cell(row[index]) {
        seq![plain_line("—"@)]
    } else {
        wrapped_cell(row[index], width, true)
    }
}

/// One line of a pair: the label stands only in the first.
pub open spec fn pair_line(
    label: Seq<char>,
    value: Seq<SpanView>,
    label_width: usize,
    value_width: usize,
) -> Seq<SpanView> {
    plain_line("│ "@) + blank(label_width - display::display_width(label)) + plain_line(label)
        + plain_line(" │ "@) + value + blank(value_width - spans::line_width(value)) + plain_line(
        " │"@,
    )
}

/// The lines of one pair.
pub open spec fn pair_lines(
    label: Seq<char>,
    values: Seq<Seq<SpanView>>,
    label_width: usize,
    value_width: usize,
) -> Seq<Seq<SpanView>> {
    Seq::new(
        values.len(),
        |k: int|
            pair_line(
                if k == 0 {
                    label
                } else {
                    Seq::empty()
                },
                values[k],
                label_width,
                value_width,
            ),
    )
}

/// The lines of the pairs of a row in the first `n` shown columns.
pub open spec fn row_pairs(
    headers: Seq<CellView>,
    row: Seq<CellView>,
    columns: Seq<int>,
    label_width: usize,
    value_width: usize,
    n: int,
) -> Seq<Seq<SpanView>>
    decreases n,
{
    if n <= 0 {
        Seq::empty()
    } else {
        row_pairs(headers, row, columns, label_width, value_width, n - 1) + pair_lines(
            display::truncated(label_of(headers, columns[n - 1]), label_width),
            value_lines(row, columns[n - 1], value_width),
            label_width,
            value_width,
        )
    }
}

/// The lines of the pairs of the first `n` rows, with a border between rows.
pub open spec fn all_pairs(
    rows: Seq<Seq<CellView>>,
    columns: Seq<int>,
    label_width: usize,
    value_width: usize,
    n: int,
) -> Seq<Seq<SpanView>>
    decreases n,
{
    let widths = seq![label_width, value_width];
    if n <= 1 {
        seq![plain_line(border("┌"@, "┬"@, "┐"@, widths, 1))]
    } else {
        let above = all_pairs(rows, columns, label_width, value_width, n - 1);
        let divided = if n > 2 {
            above.push(plain_line(border("├"@, "┼"@, "┤"@, widths, 1)))
        } else {
            above
        };
        divided + row_pairs(
            rows[0],
            rows[n - 1],
            columns,
            label_width,
            value_width,
            columns.len() as int,
        )
    }
}

/// The lines of a table as label and value pairs.
pub open spec fn vertical_table(rows: Seq<Seq<CellView>>, available: usize) -> Seq<
    Seq<SpanView>,
> {
    if rows.len() == 0 {
        Seq::empty()
    } else {
        let columns = shown_columns(rows, rows[0].len() as int);
        if columns.len() == 0 {
            Seq::empty()
        } else {
            let header = match widest_label(rows[0], columns, columns.len() as int) {
                Some(w) => w,
                None => 4,
            };
            let value = match widest_value(rows, columns, rows.len() as int) {
                Some(w) => w,
                None => 1,
            };
            let widths = pair_widths(header, value, available as int);
            let label_width = widths.0 as usize;
            let value_width = widths.1 as usize;
            all_pairs(rows, columns, label_width, value_width, rows.len() as int).push(
                plain_line(border("└"@, "┴"@, "┘"@, seq![label_width, value_width], 1)),
            )
        }
    }
}

fn vertical_label(headers: &Vec<TableCell>, index: usize) -> (r: String)
    requires
        index < headers@.len(),
    ensures
        r@ == label_of(table_layout::row_view(headers@), index as int),
{
    assert(table_layout::row_view(headers@)[index as int] == spans::lines_view(
        headers@[index as int].lines@,
    ));
    let t = headers[index].trimmed_plain_text();
    if t.as_str().is_empty() {
        "Column".to_owned()
    } else {
        t
    }
}

fn is_column_shown(rows: &[Vec<TableCell>], index: usize) -> (r: bool)
    requires
        rows@.len() > 0,
        index < rows@[0]@.len(),
    ensures
        r == is_shown(table_layout::rows_view(rows@), index as int),
{
    let ghost v = table_layout::rows_view(rows@);
    assert(v[0] == table_layout::row_view(rows@[0]@));
    let headers = &rows[0];
    assert(v[0][index as int] == spans::lines_view(headers@[index as int].lines@));
    if index == 0 && headers.len() > 1 && is_first_header_index(rows) {
        return false;
    }
    if !headers[index].is_blank() {
        return true;
    }
    let mut k: usize = 1;
    while k < rows.len()
        invariant
            1 <= k <= rows.len(),
            v == table_layout::rows_view(rows@),
            index < v[0].len(),
            !(index == 0 && v[0].len() > 1 && table_layout::is_index_header(
                table_layout::header_key(v[0][0]),
            )),
            blank_cell(v[0][index as int]),
            forall|j: int|
                1 <= j < k && index < (#[trigger] v[j]).len() ==> blank_cell(v[j][index as int]),
        decreases rows.len() - k,
    {
        assert(v[k as int] == table_layout::row_view(rows@[k as int]@));
        if index < rows[k].len() {
            assert(v[k as int][index as int] == spans::lines_view(
                rows@[k as int]@[index as int].lines@,
            ));
            if !rows[k][index].is_blank() {
                assert(!blank_cell(v[k as int][index as int]));
                return true;
            }
        }
        k = k + 1;
    }
    false
}

fn is_first_header_index(rows: &[Vec<TableCell>]) -> (r: bool)
    requires
        rows@.len() > 0,
        rows@[0]@.len() > 0,
    ensures
        r == table_layout::is_index_header(
            table_layout::header_key(table_layout::rows_view(rows@)[0][0]),
        ),
{
    let ghost v = table_layout::rows_view(rows@);
    assert(v[0] == table_layout::row_view(rows@[0]@));
    assert(v[0][0] == spans::lines_view(rows@[0]@[0].lines@));
    let t = text::chars_of(rows[0][0].trimmed_plain_text().as_str());
    let key = text::to_ascii_lower(t.as_slice());
    table_layout::is_index_header_text(key.as_slice())
}

fn included_vertical_columns(rows: &[Vec<TableCell>]) -> (r: Vec<usize>)
    requires
        rows@.len() > 0,
    ensures
        table_layout::ints(r@) == shown_columns(
            table_layout::rows_view(rows@),
            table_layout::rows_view(rows@)[0].len() as int,
        ),
        forall|i: int| 0 <= i < r@.len() ==> #[trigger] r@[i] < rows@[0]@.len(),
{
    let ghost v = table_layout::rows_view(rows@);
    assert(v[0] == table_layout::row_view(rows@[0]@));
    let n = rows[0].len();
    let mut r: Vec<usize> = Vec::new();
    let mut i: usize = 0;
    assert(table_layout::ints(r@) =~= shown_columns(v, 0));
    while i < n
        invariant
            i <= n,
            n == rows@[0]@.len(),
            rows@.len() > 0,
            v == table_layout::rows_view(rows@),
            table_layout::ints(r@) == shown_columns(v, i as int),
            forall|k: int| 0 <= k < r@.len() ==> #[trigger] r@[k] < n,
        decreases n - i,
    {
        if is_column_shown(rows, i) {
            let ghost before = r@;
            r.push(i);
            assert(table_layout::ints(r@) =~= table_layout::ints(before).push(i as int));
        }
        i = i + 1;
    }
    r
}

fn larger(seen: Option<usize>, w: usize) -> (r: Option<usize>)
    ensures
        opt_int(r) == seen_max(opt_int(seen), w as int),
{
    match seen {
        Some(s) => if s >= w {
            Some(s)
        } else {
            Some(w)
        },
        None => Some(w),
    }
}

/// An optional width as a mathematical integer.
spec fn opt_int(x: Option<usize>) -> Option<int> {
    match x {
        Some(v) => Some(v as int),
        None => None,
    }
}

fn max_header_width(headers: &Vec<TableCell>, columns: &Vec<usize>) -> (r: Option<usize>)
    requires
        forall|i: int| 0 <= i < columns@.len() ==> #[trigger] columns@[i] < headers@.len(),
    ensures
        opt_int(r) == widest_label(
            table_layout::row_view(headers@),
            table_layout::ints(columns@),
            columns@.len() as int,
        ),
{
    let ghost v = table_layout::row_view(headers@);
    let ghost c = table_layout::ints(columns@);
    let mut seen: Option<usize> = None;
    let mut i: usize = 0;
    while i < columns.len()
        invariant
            i <= columns.len(),
            v == table_layout::row_view(headers@),
            c == table_layout::ints(columns@),
            forall|i: int| 0 <= i < columns@.len() ==> #[trigger] columns@[i] < headers@.len(),
            opt_int(seen) == widest_label(v, c, i as int),
        decreases columns.len() - i,
    {
        assert(c[i as int] == columns@[i as int]);
        let label = vertical_label(headers, columns[i]);
        seen = larger(seen, display::width_of(label.as_str()));
        i = i + 1;
    }
    seen
}

fn widest_of_cell(seen: Option<usize>, cell: &TableCell) -> (r: Option<usize>)
    ensures
        ({
            let lines = text::text_lines(table_layout::plain(spans::lines_view(cell.lines@)));
            opt_int(r) == widest_line(opt_int(seen), lines, lines.len() as int)
        }),
{
    let ghost all = text::text_lines(table_layout::plain(spans::lines_view(cell.lines@)));
    let p = text::chars_of(cell.plain_text().as_str());
    let lines = text::lines_of(p.as_slice());
    let mut best = seen;
    let mut i: usize = 0;
    while i < lines.len()
        invariant
            i <= lines.len(),
            all == text::char_views(lines@),
            opt_int(best) == widest_line(opt_int(seen), all, i as int),
        decreases lines.len() - i,
    {
        assert(all[i as int] == lines@[i as int]@);
        best = larger(best, display::width_of(text::string_of(lines[i].as_slice()).as_str()));
        i = i + 1;
    }
    best
}

fn max_value_width(rows: &[Vec<TableCell>], columns: &Vec<usize>) -> (r: Option<usize>)
    requires
        rows@.len() > 0,
    ensures
        opt_int(r) == widest_value(
            table_layout::rows_view(rows@),
            table_layout::ints(columns@),
            rows@.len() as int,
        ),
{
    let ghost v = table_layout::rows_view(rows@);
    let ghost c = table_layout::ints(columns@);
    let mut seen: Option<usize> = None;
    let mut k: usize = 1;
    while k < rows.len()
        invariant
            1 <= k <= rows.len(),
            v == table_layout::rows_view(rows@),
            c == table_layout::ints(columns@),
            opt_int(seen) == widest_value(v, c, k as int),
        decreases rows.len() - k,
    {
        let row = &rows[k];
        let ghost before = opt_int(seen);
        assert(v[k as int] == table_layout::row_view(row@));
        let mut i: usize = 0;
        while i < columns.len()
            invariant
                i <= columns.len(),
                k < rows.len(),
                v == table_layout::rows_view(rows@),
                v[k as int] == table_layout::row_view(row@),
                c == table_layout::ints(columns@),
                opt_int(seen) == widest_in_row(before, v[k as int], c, i as int),
            decreases columns.len() - i,
        {
            assert(c[i as int] == columns@[i as int]);
            let index = columns[i];
            if index < row.len() {
                assert(v[k as int][index as int] == spans::lines_view(row@[index as int].lines@));
                seen = widest_of_cell(seen, &row[index]);
            }
            i = i + 1;
        }
        k = k + 1;
    }
    seen
}

fn smaller_of(a: usize, b: usize) -> (r: usize)
    ensures
        r == table_layout::min_of(a as int, b as int),
{
    if a <= b {
        a
    } else {
        b
    }
}

fn larger_of(a: usize, b: usize) -> (r: usize)
    ensures
        r == table_layout::max_of(a as int, b as int),
{
    if a >= b {
        a
    } else {
        b
    }
}

fn less(a: usize, b: usize) -> (r: usize)
    ensures
        r == minus(a as int, b as int),
{
    if a >= b {
        a - b
    } else {
        0
    }
}

fn vertical_widths(header: usize, value: usize, available: usize) -> (r: (usize, usize))
    ensures
        (r.0 as int, r.1 as int) == pair_widths(header as int, value as int, available as int),
{
    let room = less(available, 7);
    if room < 6 {
        let label = larger_of(room / 2, 1);
        (label, larger_of(less(room, label), 1))
    } else {
        let label = smaller_of(larger_of(smaller_of(header, 20), 3), less(room, 3));
        (label, larger_of(smaller_of(larger_of(value, 3), less(room, label)), 3))
    }
}

fn push_pair(
    out: &mut Vec<Vec<Span>>,
    label: &str,
    values: &Vec<Vec<Span>>,
    label_width: usize,
    value_width: usize,
)
    ensures
        spans::lines_view(final(out)@) == spans::lines_view(old(out)@) + pair_lines(
            label@,
            spans::lines_view(values@),
            label_width,
            value_width,
        ),
{
    let ghost vs = spans::lines_view(values@);
    let ghost all = pair_lines(label@, vs, label_width, value_width);
    let ghost start = spans::lines_view(out@);
    let mut k: usize = 0;
    assert(start + all.take(0) =~= start);
    while k < values.len()
        invariant
            k <= values.len(),
            vs == spans::lines_view(values@),
            all == pair_lines(label@, vs, label_width, value_width),
            spans::lines_view(out@) == start + all.take(k as int),
        decreases values.len() - k,
    {
        let shown = if k == 0 {
            label.to_owned()
        } else {
            String::new()
        };
        assert(vs[k as int] == spans::line_view(values@[k as int]@));
        let mut line = spans::empty_line();
        push_plain(&mut line, "│ ");
        assert(spans::line_view(line@) =~= plain_line("│ "@));
        push_padding(&mut line, label_width, display::width_of(shown.as_str()));
        push_plain(&mut line, shown.as_str());
        push_plain(&mut line, " │ ");
        spans::extend_line(&mut line, &values[k]);
        push_padding(&mut line, value_width, spans::width_of_line(values[k].as_slice()));
        push_plain(&mut line, " │");
        proof {
            if k > 0 {
                assert(shown@ =~= Seq::<char>::empty());
            }
            assert(spans::line_view(line@) == all[k as int]);
        }
        let ghost before = spans::lines_view(out@);
        spans::push_line(out, line);
        proof {
            assert(spans::lines_view(out@) =~= before.push(all[k as int]));
            assert(start + all.take(k + 1) =~= (start + all.take(k as int)).push(all[k as int]));
        }
        k = k + 1;
    }
    assert(all.take(k as int) =~= all);
}

fn values_of(row: &Vec<TableCell>, index: usize, width: usize) -> (r: Vec<Vec<Span>>)
    ensures
        spans::lines_view(r@) == value_lines(
            table_layout::row_view(row@),
            index as int,
            width,
        ),
{
    if index < row.len() {
        assert(table_layout::row_view(row@)[index as int] == spans::lines_view(
            row@[index as int].lines@,
        ));
        if !row[index].is_blank() {
            return wrap_table_cell(&row[index], width, true);
        }
    }
    let mut r: Vec<Vec<Span>> = Vec::new();
    push_plain_line(&mut r, "—".to_owned());
    assert(spans::lines_view(r@) =~= seq![plain_line("—"@)]);
    r
}

/// The lines of a table as label and value pairs.
pub fn render_vertical_table(rows: &[Vec<TableCell>], available_width: usize) -> (r: Vec<Vec<Span>>)
    ensures
        spans::lines_view(r@) == vertical_table(table_layout::rows_view(rows@), available_width),
{
    let ghost v = table_layout::rows_view(rows@);
    let mut out: Vec<Vec<Span>> = Vec::new();
    assert(spans::lines_view(out@) =~= Seq::<Seq<SpanView>>::empty());
    if rows.len() == 0 {
        return out;
    }
    assert(v[0] == table_layout::row_view(rows@[0]@));
    let headers = &rows[0];
    let columns = included_vertical_columns(rows);
    let ghost c = table_layout::ints(columns@);
    if columns.len() == 0 {
        return out;
    }
    let header = match max_header_width(headers, &columns) {
        Some(w) => w,
        None => 4,
    };
    let value = match max_value_width(rows, &columns) {
        Some(w) => w,
        None => 1,
    };
    let (label_width, value_width) = vertical_widths(header, value, available_width);
    let pair: Vec<usize> = vec![label_width, value_width];
    let ghost widths = seq![label_width, value_width];
    assert(pair@ =~= widths);
    push_plain_line(&mut out, border_line("┌", "┬", "┐", pair.as_slice(), 1));
    assert(spans::lines_view(out@) =~= all_pairs(v, c, label_width, value_width, 1));
    let mut k: usize = 1;
    while k < rows.len()
        invariant
            1 <= k <= rows.len(),
            v == table_layout::rows_view(rows@),
            c == table_layout::ints(columns@),
            *headers == rows@[0],
            v[0] == table_layout::row_view(headers@),
            forall|i: int| 0 <= i < columns@.len() ==> #[trigger] columns@[i] < headers@.len(),
            pair@ == seq![label_width, value_width],
            widths == seq![label_width, value_width],
            spans::lines_view(out@) == all_pairs(v, c, label_width, value_width, k as int),
        decreases rows.len() - k,
    {
        let row = &rows[k];
        assert(v[k as int] == table_layout::row_view(row@));
        if k > 1 {
            push_plain_line(&mut out, border_line("├", "┼", "┤", pair.as_slice(), 1));
        }
        let ghost divided = spans::lines_view(out@);
        let mut i: usize = 0;
        assert(divided + row_pairs(v[0], v[k as int], c, label_width, value_width, 0) =~= divided);
        while i < columns.len()
            invariant
                i <= columns.len(),
                k < rows.len(),
                c == table_layout::ints(columns@),
                v[0] == table_layout::row_view(headers@),
                v[k as int] == table_layout::row_view(row@),
                forall|i: int| 0 <= i < columns@.len() ==> #[trigger] columns@[i] < headers@.len(),
                spans::lines_view(out@) == divided + row_pairs(
                    v[0],
                    v[k as int],
                    c,
                    label_width,
                    value_width,
                    i as int,
                ),
            decreases columns.len() - i,
        {
            let index = columns[i];
            assert(c[i as int] == index);
            let label = display::truncate_to_width(
                vertical_label(headers, index).as_str(),
                label_width,
            );
            let values = values_of(row, index, value_width);
            let ghost before = spans::lines_view(out@);
            push_pair(&mut out, label.as_str(), &values, label_width, value_width);
            proof {
                let more = pair_lines(
                    label@,
                    spans::lines_view(values@),
                    label_width,
                    value_width,
                );
                assert(before + more =~= divided + (row_pairs(
                    v[0],
                    v[k as int],
                    c,
                    label_width,
                    value_width,
                    i as int,
                ) + more));
            }
            i = i + 1;
        }
        k = k + 1;
    }
    push_plain_line(&mut out, border_line("└", "┴", "┘", pair.as_slice(), 1));
    out
}

// ---- the whole table ----

fn copy_cell(cell: &TableCell) -> (r: TableCell)
    ensures
        spans::lines_view(r.lines@) == spans::lines_view(cell.lines@),
{
    let ghost v = spans::lines_view(cell.lines@);
    let mut lines: Vec<Vec<Span>> = Vec::new();
    spans::copy_lines(&cell.lines, 0, cell.lines.len(), &mut lines);
    assert(spans::lines_view(lines@) =~= v);
    TableCell { lines }
}

fn normalize_row(row: &Vec<TableCell>, columns: usize) -> (r: Vec<TableCell>)
    requires
        row@.len() <= columns,
    ensures
        table_layout::row_view(r@) == padded_row(table_layout::row_view(row@), columns as int),
{
    let ghost v = table_layout::row_view(row@);
    let mut r: Vec<TableCell> = Vec::new();
    let mut i: usize = 0;
    while i < columns
        invariant
            i <= columns,
            row@.len() <= columns,
            v == table_layout::row_view(row@),
            r@.len() == i,
            forall|k: int|
                0 <= k < i ==> spans::lines_view((#[trigger] r@[k]).lines@) == padded_row(
                    v,
                    columns as int,
                )[k],
        decreases columns - i,
    {
        if i < row.len() {
            assert(v[i as int] == spans::lines_view(row@[i as int].lines@));
            r.push(copy_cell(&row[i]));
        } else {
            let cell = TableCell { lines: Vec::new() };
            assert(spans::lines_view(cell.lines@) =~= Seq::<Seq<SpanView>>::empty());
            r.push(cell);
        }
        i = i + 1;
    }
    assert(table_layout::row_view(r@) =~= padded_row(v, columns as int));
    r
}

fn column_count_of(rows: &[Vec<TableCell>]) -> (r: usize)
    ensures
        r == most_cells(table_layout::rows_view(rows@), rows@.len() as int),
        forall|k: int| 0 <= k < rows@.len() ==> (#[trigger] rows@[k])@.len() <= r,
{
    let ghost v = table_layout::rows_view(rows@);
    let mut best: usize = 0;
    let mut k: usize = 0;
    while k < rows.len()
        invariant
            k <= rows.len(),
            v == table_layout::rows_view(rows@),
            best == most_cells(v, k as int),
            forall|j: int| 0 <= j < k ==> (#[trigger] rows@[j])@.len() <= best,
        decreases rows.len() - k,
    {
        assert(v[k as int].len() == rows@[k as int]@.len());
        if rows[k].len() > best {
            best = rows[k].len();
        }
        k = k + 1;
    }
    best
}

fn normalize_table_rows(rows: &[Vec<TableCell>], columns: usize) -> (r: Vec<Vec<TableCell>>)
    requires
        columns == most_cells(table_layout::rows_view(rows@), rows@.len() as int),
        forall|k: int| 0 <= k < rows@.len() ==> (#[trigger] rows@[k])@.len() <= columns,
    ensures
        table_layout::rows_view(r@) == padded_rows(table_layout::rows_view(rows@)),
{
    let ghost v = table_layout::rows_view(rows@);
    let mut r: Vec<Vec<TableCell>> = Vec::new();
    let mut k: usize = 0;
    while k < rows.len()
        invariant
            k <= rows.len(),
            v == table_layout::rows_view(rows@),
            columns == most_cells(v, rows@.len() as int),
            forall|k: int| 0 <= k < rows@.len() ==> (#[trigger] rows@[k])@.len() <= columns,
            r@.len() == k,
            forall|j: int|
                0 <= j < k ==> table_layout::row_view((#[trigger] r@[j])@) == padded_rows(v)[j],
        decreases rows.len() - k,
    {
        assert(v[k as int] == table_layout::row_view(rows@[k as int]@));
        r.push(normalize_row(&rows[k], columns));
        k = k + 1;
    }
    assert(table_layout::rows_view(r@) =~= padded_rows(v));
    r
}

fn desired_column_widths(rows: &[Vec<TableCell>], columns: usize) -> (r: Vec<usize>)
    ensures
        table_layout::ints(r@) == desired_widths(table_layout::rows_view(rows@), columns as int),
        r@.len() == columns,
{
    let ghost v = table_layout::rows_view(rows@);
    let mut r: Vec<usize> = Vec::new();
    let mut i: usize = 0;
    while i < columns
        invariant
            i <= columns,
            v == table_layout::rows_view(rows@),
            r@.len() == i,
            forall|j: int|
                0 <= j < i ==> #[trigger] r@[j] == desired_width(v, j, rows@.len() as int),
        decreases columns - i,
    {
        let mut best: usize = 3;
        let mut k: usize = 0;
        while k < rows.len()
            invariant
                k <= rows.len(),
                v == table_layout::rows_view(rows@),
                best == desired_width(v, i as int, k as int),
            decreases rows.len() - k,
        {
            assert(v[k as int] == table_layout::row_view(rows@[k as int]@));
            if i < rows[k].len() {
                assert(v[k as int][i as int] == spans::lines_view(
                    rows@[k as int]@[i as int].lines@,
                ));
                let w = rows[k][i].width();
                if w > best {
                    best = w;
                }
            }
            k = k + 1;
        }
        r.push(best);
        i = i + 1;
    }
    assert(table_layout::ints(r@) =~= desired_widths(v, columns as int));
    r
}

/// The width that a table may use: a little less than the terminal has, and less still
/// where the width of its characters is in doubt.
pub open spec fn usable_width(rows: Seq<Seq<CellView>>, width: Option<usize>) -> int {
    let terminal = match width {
        Some(w) => w as int,
        None => (usize::MAX / 4) as int,
    };
    table_layout::max_of(
        minus(
            terminal,
            if table_layout::width_risk(rows) {
                2
            } else {
                1
            },
        ),
        1,
    )
}

/// Whether lines are those of a table in the available width: a box where one is readable,
/// and label and value pairs otherwise.
pub open spec fn is_table_drawing(
    lines: Seq<Seq<SpanView>>,
    rows: Seq<Seq<CellView>>,
    width: Option<usize>,
) -> bool {
    let columns = most_cells(rows, rows.len() as int);
    let v = padded_rows(rows);
    let a = usable_width(v, width);
    let d = desired_widths(v, columns);
    if rows.len() == 0 || columns == 0 {
        lines.len() == 0
    } else if no_box_with(v, d, a, 1) && no_box_with(v, d, a, 0) {
        lines == vertical_table(v, a as usize)
    } else {
        exists|c: TableLayoutCandidate|
            #![trigger is_box_with(c, v, d, a, c.padding as int)]
            is_box_with(c, v, d, a, c.padding as int) && (c.padding == 1 || c.padding == 0
                && no_box_with(v, d, a, 1)) && lines == box_table(
                v,
                c.column_widths@,
                c.padding as int,
                c.hard_wrap,
            )
    }
}

/// The lines of a table.
pub fn render_table_lines(rows: &[Vec<TableCell>], width: Option<usize>) -> (r: Vec<Vec<Span>>)
    ensures
        is_table_drawing(spans::lines_view(r@), table_layout::rows_view(rows@), width),
{
    let ghost v = table_layout::rows_view(rows@);
    let columns = column_count_of(rows);
    if rows.len() == 0 || columns == 0 {
        let r: Vec<Vec<Span>> = Vec::new();
        assert(spans::lines_view(r@).len() == 0);
        return r;
    }
    let normalized = normalize_table_rows(rows, columns);
    let ghost nv = table_layout::rows_view(normalized@);
    let terminal: usize = match width {
        Some(w) => w,
        None => usize::MAX / 4,
    };
    let safety: usize = if table_layout::has_width_risk_chars(normalized.as_slice()) {
        2
    } else {
        1
    };
    let available = larger_of(less(terminal, safety), 1);
    let widths = desired_column_widths(normalized.as_slice(), columns);
    match choose_table_layout(normalized.as_slice(), widths.as_slice(), available) {
        Some(candidate) => {
            proof {
                let d = table_layout::ints(widths@);
                let a = available as int;
                if is_box_with(candidate, nv, d, a, 1) {
                    lemma_ints_back(candidate.column_widths@);
                    assert(!no_box_with(nv, d, a, 1));
                } else {
                    lemma_ints_back(candidate.column_widths@);
                    assert(!no_box_with(nv, d, a, 0));
                }
                assert(is_box_with(candidate, nv, d, a, candidate.padding as int));
            }
            render_box_table(
                normalized.as_slice(),
                candidate.column_widths.as_slice(),
                candidate.padding,
                candidate.hard_wrap,
            )
        },
        None => render_vertical_table(normalized.as_slice(), available),
    }
}

} // verus!
