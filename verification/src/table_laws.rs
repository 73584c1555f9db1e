//! What a drawn table shows of its rows and cells.

use vstd::prelude::*;

#[allow(unused_imports)]
use crate::display;
#[allow(unused_imports)]
use crate::spans;
#[allow(unused_imports)]
use crate::spans::SpanView;
#[allow(unused_imports)]
use crate::spans::Tone;
#[allow(unused_imports)]
use crate::table_layout;
#[allow(unused_imports)]
use crate::table_layout::CellView;
#[allow(unused_imports)]
use crate::table_render;
#[allow(unused_imports)]
use crate::text;

verus! {

// ---- parts of a line ----

/// Whether each line that a cell wraps to in some way stands in a line of a drawing.
pub open spec fn shows_cell(drawn: Seq<Seq<SpanView>>, cell: CellView, width: usize, hard: bool)
    -> bool {
    forall|l: int|
        0 <= l < table_render::wrapped_cell(cell, width, hard).len() ==> shows_part(
            drawn,
            #[trigger] table_render::wrapped_cell(cell, width, hard)[l],
        )
}

/// Whether a part stands in a line of a drawing.
pub open spec fn shows_part(drawn: Seq<Seq<SpanView>>, part: Seq<SpanView>) -> bool {
    exists|p: int| 0 <= p < drawn.len() && spans::holds_part(#[trigger] drawn[p], part)
}

// ---- wrapped cells ----

/// How many lines the first `n` lines of a cell wrap to.
pub open spec fn wrapped_before(cell: CellView, width: usize, hard: bool, n: int) -> int
    decreases n,
{
    if n <= 0 {
        0
    } else {
        wrapped_before(cell, width, hard, n - 1) + table_render::segment_texts(
            cell[n - 1],
            width,
            hard,
        ).len()
    }
}

proof fn lemma_wrapped(cell: CellView, width: usize, hard: bool, n: int, i: int)
    requires
        0 <= i < n <= cell.len(),
    ensures
        ({
            let all = table_layout::texts(table_render::wrapped_segments(cell, width, hard, n));
            let own = table_render::segment_texts(cell[i], width, hard);
            let at = wrapped_before(cell, width, hard, i);
            &&& all.len() == wrapped_before(cell, width, hard, n)
            &&& 0 <= at && at + own.len() <= all.len()
            &&& all.subrange(at, at + own.len()) == own
        }),
    decreases n,
{
    let before = table_render::wrapped_segments(cell, width, hard, n - 1);
    let last = table_render::segment_lines(cell[n - 1], width, hard);
    let all = table_layout::texts(table_render::wrapped_segments(cell, width, hard, n));
    table_render::styles_keep_the_text(cell[n - 1], width, hard);
    assert(all =~= table_layout::texts(before) + table_layout::texts(last));
    assert(table_layout::texts(last).len() == last.len());
    lemma_wrapped_len(cell, width, hard, n - 1);
    lemma_wrapped_len(cell, width, hard, i);
    let own = table_render::segment_texts(cell[i], width, hard);
    let at = wrapped_before(cell, width, hard, i);
    if i < n - 1 {
        lemma_wrapped(cell, width, hard, n - 1, i);
        assert(all.subrange(at, at + own.len()) =~= table_layout::texts(before).subrange(
            at,
            at + own.len(),
        ));
    } else {
        assert(all.subrange(at, at + own.len()) =~= own);
    }
}

proof fn lemma_wrapped_len(cell: CellView, width: usize, hard: bool, n: int)
    requires
        0 <= n <= cell.len(),
    ensures
        table_render::wrapped_segments(cell, width, hard, n).len() == wrapped_before(
            cell,
            width,
            hard,
            n,
        ),
        wrapped_before(cell, width, hard, n) >= 0,
    decreases n,
{
    if n > 0 {
        lemma_wrapped_len(cell, width, hard, n - 1);
        table_render::styles_keep_the_text(cell[n - 1], width, hard);
        let last = table_render::segment_lines(cell[n - 1], width, hard);
        assert(table_layout::texts(last).len() == last.len());
    }
}

/// A wrapped cell holds what each of its lines wraps to, one behind the other: the wrapped text of
/// a line with width, and an empty line for one without.
pub proof fn wrapped_cells_hold_all_lines(cell: CellView, width: usize, hard: bool, i: int)
    requires
        0 <= i < cell.len(),
    ensures
        ({
            let all = table_layout::texts(table_render::wrapped_cell(cell, width, hard));
            let wrapped = display::wrapped_text(spans::line_text(cell[i]), width, hard);
            let own = if spans::line_width(cell[i]) == 0 || wrapped.len() == 0 {
                seq![Seq::<char>::empty()]
            } else {
                wrapped
            };
            let at = wrapped_before(cell, width, hard, i);
            &&& all.len() == wrapped_before(cell, width, hard, cell.len() as int)
            &&& wrapped_before(cell, width, hard, i + 1) == at + own.len()
            &&& 0 <= at && at + own.len() <= all.len()
            &&& all.subrange(at, at + own.len()) == own
        }),
{
    lemma_wrapped(cell, width, hard, cell.len() as int, i);
}

// ---- boxes ----

/// How many lines the first `n` rows of a table take together.
pub open spec fn heights(rows: Seq<Seq<CellView>>, widths: Seq<usize>, hard: bool, n: int) -> int
    decreases n,
{
    if n <= 0 {
        0
    } else {
        heights(rows, widths, hard, n - 1) + table_render::row_height(rows[n - 1], widths, hard)
    }
}

proof fn lemma_tallest(row: Seq<CellView>, widths: Seq<usize>, hard: bool, n: int)
    requires
        0 <= n,
    ensures
        ({
            let t = table_render::tallest(row, widths, hard, n);
            &&& t >= 0
            &&& forall|j: int|
                0 <= j < n ==> table_render::wrapped_cell(#[trigger] row[j], widths[j], hard).len()
                    <= t
            &&& n > 0 ==> t >= 1 && exists|j: int|
                0 <= j < n && table_render::wrapped_cell(#[trigger] row[j], widths[j], hard).len()
                    == t
        }),
    decreases n,
{
    if n > 0 {
        lemma_tallest(row, widths, hard, n - 1);
        table_render::cells_take_a_line(row[n - 1], widths[n - 1], hard);
        let t = table_render::tallest(row, widths, hard, n);
        let before = table_render::tallest(row, widths, hard, n - 1);
        if n > 1 && t == before {
            let j = choose|j: int|
                0 <= j < n - 1 && table_render::wrapped_cell(
                    #[trigger] row[j],
                    widths[j],
                    hard,
                ).len() == before;
            assert(table_render::wrapped_cell(row[j], widths[j], hard).len() == t);
        } else {
            assert(table_render::wrapped_cell(row[n - 1], widths[n - 1], hard).len() == t);
        }
    }
}

/// A row is as high as the highest of its cells, and a row without cells takes one line.
pub proof fn rows_are_as_high_as_their_cells(row: Seq<CellView>, widths: Seq<usize>, hard: bool)
    ensures
        ({
            let h = table_render::row_height(row, widths, hard);
            &&& h >= 1
            &&& forall|j: int|
                0 <= j < row.len() && j < widths.len() ==> table_render::wrapped_cell(
                    #[trigger] row[j],
                    widths[j],
                    hard,
                ).len() <= h
            &&& row.len() > 0 && widths.len() > 0 ==> exists|j: int|
                0 <= j < row.len() && j < widths.len() && table_render::wrapped_cell(
                    #[trigger] row[j],
                    widths[j],
                    hard,
                ).len() == h
            &&& row.len() == 0 || widths.len() == 0 ==> h == 1
        }),
{
    lemma_tallest(row, widths, hard, table_render::shared(row, widths));
}

/// What a row shows of its `j`th cell in its `k`th line: that line of the wrapped cell, if it has
/// as many.
pub open spec fn shown_part(row: Seq<CellView>, widths: Seq<usize>, hard: bool, k: int, j: int)
    -> Seq<SpanView> {
    let lines = table_render::wrapped_cell(row[j], widths[j], hard);
    if k < lines.len() {
        lines[k]
    } else {
        Seq::empty()
    }
}

/// What a row shows of its first `n` cells in its `k`th line.
pub open spec fn shown_parts(
    row: Seq<CellView>,
    widths: Seq<usize>,
    hard: bool,
    k: int,
    n: int,
) -> Seq<Seq<SpanView>> {
    Seq::new(n as nat, |j: int| shown_part(row, widths, hard, k, j))
}

proof fn lemma_parts(
    row: Seq<CellView>,
    widths: Seq<usize>,
    padding: int,
    hard: bool,
    k: int,
    n: int,
) -> (at: Seq<int>)
    requires
        0 <= n <= row.len(),
        n <= widths.len(),
        0 <= k,
    ensures
        spans::stand_in_order(
            table_render::boxed_cells(row, widths, padding, hard, k, n),
            shown_parts(row, widths, hard, k, n),
            at,
        ),
    decreases n,
{
    if n == 0 {
        Seq::empty()
    } else {
        let before = lemma_parts(row, widths, padding, hard, k, n - 1);
        let left = table_render::boxed_cells(row, widths, padding, hard, k, n - 1);
        let line = table_render::boxed_cells(row, widths, padding, hard, k, n);
        let part = shown_part(row, widths, hard, k, n - 1);
        let pad = table_render::blank(padding);
        let p = (left.len() + pad.len()) as int;
        let at = before.push(p);
        let parts = shown_parts(row, widths, hard, k, n);
        let earlier = shown_parts(row, widths, hard, k, n - 1);
        assert(line.subrange(p, p + part.len()) =~= part);
        assert forall|j: int| 0 <= j < parts.len() implies 0 <= #[trigger] at[j] && at[j]
            + parts[j].len() <= line.len() && line.subrange(at[j], at[j] + parts[j].len())
            == parts[j] by {
            if j < n - 1 {
                assert(at[j] == before[j]);
                assert(parts[j] == earlier[j]);
                assert(line.subrange(at[j], at[j] + parts[j].len()) =~= left.subrange(
                    before[j],
                    before[j] + earlier[j].len(),
                ));
            }
        }
        assert forall|i: int, j: int| 0 <= i < j < parts.len() implies #[trigger] at[i]
            + parts[i].len() <= #[trigger] at[j] by {
            assert(at[i] == before[i]);
            assert(parts[i] == earlier[i]);
            if j < n - 1 {
                assert(at[j] == before[j]);
            }
        }
        at
    }
}

/// Each line of a row shows, one behind the other, what its cells have for that line.
pub proof fn rows_show_their_cells_in_order(
    row: Seq<CellView>,
    widths: Seq<usize>,
    padding: int,
    hard: bool,
    k: int,
)
    requires
        row.len() == widths.len(),
        0 <= k < table_render::row_height(row, widths, hard),
    ensures
        table_render::row_lines(row, widths, padding, hard).len() == table_render::row_height(
            row,
            widths,
            hard,
        ),
        exists|at: Seq<int>| #[trigger]
            spans::stand_in_order(
                table_render::row_lines(row, widths, padding, hard)[k],
                shown_parts(row, widths, hard, k, row.len() as int),
                at,
            ),
{
    rows_are_as_high_as_their_cells(row, widths, hard);
    let at = lemma_parts(row, widths, padding, hard, k, row.len() as int);
    let line = table_render::row_lines(row, widths, padding, hard)[k];
    assert(line == table_render::boxed_cells(row, widths, padding, hard, k, row.len() as int));
    assert(spans::stand_in_order(line, shown_parts(row, widths, hard, k, row.len() as int), at));
}

/// A line of a cell that fits its column is filled up to the width of the column, between padding,
/// and a border follows.
pub proof fn cells_fill_their_columns(
    lines: Seq<Seq<SpanView>>,
    k: int,
    width: usize,
    padding: int,
)
    requires
        0 <= k < lines.len(),
        padding > 0,
        spans::line_width(lines[k]) < width,
    ensures
        ({
            let c = table_render::cell_box(lines, k, width, padding);
            let n = lines[k].len() as int;
            &&& c.len() == n + 4
            &&& c[0].0 == text::repeat_char(' ', padding as nat)
            &&& c.subrange(1, 1 + n) == lines[k]
            &&& c[n + 1].0.len() + spans::line_width(lines[k]) == width
            &&& forall|i: int| 0 <= i < c[n + 1].0.len() ==> #[trigger] c[n + 1].0[i] == ' '
            &&& c[n + 2].0 == text::repeat_char(' ', padding as nat)
            &&& c[n + 3].0 == "│"@
        }),
{
    let c = table_render::cell_box(lines, k, width, padding);
    assert(c.subrange(1, 1 + lines[k].len() as int) =~= lines[k]);
}

proof fn lemma_box_lines(
    rows: Seq<Seq<CellView>>,
    widths: Seq<usize>,
    padding: int,
    hard: bool,
    n: int,
)
    requires
        0 <= n <= rows.len(),
    ensures
        table_render::box_lines(rows, widths, padding, hard, n).len() == 1 + heights(
            rows,
            widths,
            hard,
            n,
        ) + (if n > 0 {
            1int
        } else {
            0
        }),
        heights(rows, widths, hard, n) >= n,
    decreases n,
{
    if n > 0 {
        lemma_box_lines(rows, widths, padding, hard, n - 1);
        rows_are_as_high_as_their_cells(rows[n - 1], widths, hard);
    }
}

proof fn lemma_row_in_box(
    rows: Seq<Seq<CellView>>,
    widths: Seq<usize>,
    padding: int,
    hard: bool,
    n: int,
    i: int,
    k: int,
)
    requires
        0 <= i < n <= rows.len(),
        0 <= k < table_render::row_height(rows[i], widths, hard),
    ensures
        ({
            let at = 1 + heights(rows, widths, hard, i) + k + (if i > 0 {
                1int
            } else {
                0
            });
            let drawn = table_render::box_lines(rows, widths, padding, hard, n);
            &&& 0 < at < drawn.len()
            &&& drawn[at] == table_render::row_lines(rows[i], widths, padding, hard)[k]
        }),
    decreases n,
{
    lemma_box_lines(rows, widths, padding, hard, n);
    lemma_box_lines(rows, widths, padding, hard, n - 1);
    lemma_box_lines(rows, widths, padding, hard, i);
    if i < n - 1 {
        lemma_row_in_box(rows, widths, padding, hard, n - 1, i, k);
    }
}

/// A drawn box shows every row of the table once and in order: below its upper border stand the
/// lines of the first row, then a border, then those of all other rows one behind the other, and
/// then the lower border. Nothing else is drawn.
pub proof fn boxes_show_every_row(
    rows: Seq<Seq<CellView>>,
    widths: Seq<usize>,
    padding: int,
    hard: bool,
    i: int,
    k: int,
)
    requires
        0 <= i < rows.len(),
        0 <= k < table_render::row_height(rows[i], widths, hard),
    ensures
        ({
            let drawn = table_render::box_table(rows, widths, padding, hard);
            let at = 1 + heights(rows, widths, hard, i) + k + (if i > 0 {
                1int
            } else {
                0
            });
            &&& drawn.len() == 3 + heights(rows, widths, hard, rows.len() as int)
            &&& 0 < at < drawn.len() - 1
            &&& drawn[at] == table_render::row_lines(rows[i], widths, padding, hard)[k]
            &&& drawn[0].len() == 1 && drawn[0][0].0 == table_render::border(
                "┌"@,
                "┬"@,
                "┐"@,
                widths,
                padding,
            )
            &&& drawn[1 + table_render::row_height(rows[0], widths, hard)].len() == 1
            &&& drawn[1 + table_render::row_height(rows[0], widths, hard)][0].0
                == table_render::border("├"@, "┼"@, "┤"@, widths, padding)
            &&& drawn.last().len() == 1 && drawn.last()[0].0 == table_render::border(
                "└"@,
                "┴"@,
                "┘"@,
                widths,
                padding,
            )
        }),
{
    let n = rows.len() as int;
    lemma_box_lines(rows, widths, padding, hard, n);
    lemma_row_in_box(rows, widths, padding, hard, n, i, k);
    lemma_borders(rows, widths, padding, hard, n);
}

proof fn lemma_borders(
    rows: Seq<Seq<CellView>>,
    widths: Seq<usize>,
    padding: int,
    hard: bool,
    n: int,
)
    requires
        0 < n <= rows.len(),
    ensures
        ({
            let drawn = table_render::box_lines(rows, widths, padding, hard, n);
            let at = 1 + table_render::row_height(rows[0], widths, hard);
            &&& 1 < at < drawn.len()
            &&& drawn[0].len() == 1 && drawn[0][0].0 == table_render::border(
                "┌"@,
                "┬"@,
                "┐"@,
                widths,
                padding,
            )
            &&& drawn[at].len() == 1 && drawn[at][0].0 == table_render::border(
                "├"@,
                "┼"@,
                "┤"@,
                widths,
                padding,
            )
        }),
    decreases n,
{
    rows_are_as_high_as_their_cells(rows[0], widths, hard);
    lemma_box_lines(rows, widths, padding, hard, n);
    lemma_box_lines(rows, widths, padding, hard, n - 1);
    if n > 1 {
        lemma_borders(rows, widths, padding, hard, n - 1);
    } else {
        let above = table_render::box_lines(rows, widths, padding, hard, 0);
        assert(above.len() == 1);
    }
}

/// Each cell of a table is shown in its box: every line that it wraps to stands in a line of the
/// drawing.
pub proof fn boxes_show_every_cell(
    rows: Seq<Seq<CellView>>,
    widths: Seq<usize>,
    padding: int,
    hard: bool,
    i: int,
    j: int,
)
    requires
        0 <= i < rows.len(),
        0 <= j < rows[i].len(),
        rows[i].len() == widths.len(),
    ensures
        shows_cell(
            table_render::box_table(rows, widths, padding, hard),
            rows[i][j],
            widths[j],
            hard,
        ),
{
    let row = rows[i];
    let drawn = table_render::box_table(rows, widths, padding, hard);
    let wrapped = table_render::wrapped_cell(row[j], widths[j], hard);
    assert forall|l: int| 0 <= l < wrapped.len() implies shows_part(
        drawn,
        #[trigger] wrapped[l],
    ) by {
        rows_are_as_high_as_their_cells(row, widths, hard);
        boxes_show_every_row(rows, widths, padding, hard, i, l);
        rows_show_their_cells_in_order(row, widths, padding, hard, l);
        let at = 1 + heights(rows, widths, hard, i) + l + (if i > 0 {
            1int
        } else {
            0
        });
        let line = table_render::row_lines(row, widths, padding, hard)[l];
        let parts = shown_parts(row, widths, hard, l, row.len() as int);
        let places = choose|places: Seq<int>| #[trigger] spans::stand_in_order(line, parts, places);
        let p = places[j];
        assert(parts[j] == wrapped[l]);
        assert(line.subrange(p, p + wrapped[l].len()) == wrapped[l]);
        assert(spans::holds_part(drawn[at], wrapped[l]));
    }
}

// ---- borders ----

/// The dashes of the first `n` columns.
spec fn dashes(widths: Seq<usize>, padding: int, n: int) -> int
    decreases n,
{
    if n <= 0 {
        0
    } else {
        dashes(widths, padding, n - 1) + widths[n - 1] + 2 * padding
    }
}

proof fn lemma_join_runs(widths: Seq<usize>, padding: int, sep: Seq<char>, n: int)
    requires
        0 < n <= widths.len(),
        sep.len() == 1,
        padding >= 0,
    ensures
        ({
            let s = text::join(table_render::border_runs(widths, padding).take(n), sep);
            &&& s.len() == dashes(widths, padding, n) + n - 1
            &&& forall|i: int| 0 <= i < s.len() ==> #[trigger] s[i] == '─' || s[i] == sep[0]
        }),
    decreases n,
{
    let runs = table_render::border_runs(widths, padding);
    let s = text::join(runs.take(n), sep);
    if n == 1 {
        assert(runs.take(1)[0] == runs[0]);
        assert(dashes(widths, padding, 0) == 0);
    } else {
        lemma_join_runs(widths, padding, sep, n - 1);
        assert(runs.take(n).drop_last() =~= runs.take(n - 1));
        assert(runs.take(n).last() == runs[n - 1]);
        let before = text::join(runs.take(n - 1), sep);
        assert(s == before + sep + runs[n - 1]);
        assert forall|i: int| 0 <= i < s.len() implies #[trigger] s[i] == '─' || s[i] == sep[0] by {
            if i < before.len() {
                assert(s[i] == before[i]);
            } else if i == before.len() {
                assert(s[i] == sep[0]);
            } else {
                assert(s[i] == runs[n - 1][i - before.len() - 1]);
            }
        }
    }
}

proof fn lemma_dashes(widths: Seq<usize>, padding: int, n: int)
    requires
        0 <= n <= widths.len(),
    ensures
        dashes(widths, padding, n) == table_layout::sum_of(table_layout::ints(widths), n) + padding
            * 2 * n,
    decreases n,
{
    if n > 0 {
        lemma_dashes(widths, padding, n - 1);
        assert(padding * 2 * n == padding * 2 * (n - 1) + padding * 2) by (nonlinear_arith);
    } else {
        assert(padding * 2 * 0 == 0) by (nonlinear_arith);
    }
}

/// A border is as long as the box is wide, begins and ends with its corners, and is a dash or a
/// crossing everywhere between them.
pub proof fn borders_span_the_box(
    left: char,
    separator: char,
    right: char,
    widths: Seq<usize>,
    padding: int,
)
    requires
        widths.len() > 0,
        padding >= 0,
    ensures
        ({
            let s = table_render::border(
                seq![left],
                seq![separator],
                seq![right],
                widths,
                padding,
            );
            &&& s.len() == table_layout::total_width(table_layout::ints(widths), padding)
            &&& s[0] == left && s.last() == right
            &&& forall|i: int| 0 < i < s.len() - 1 ==> #[trigger] s[i] == '─' || s[i] == separator
        }),
{
    let n = widths.len() as int;
    let runs = table_render::border_runs(widths, padding);
    lemma_join_runs(widths, padding, seq![separator], n);
    lemma_dashes(widths, padding, n);
    assert(runs.take(n) =~= runs);
    let middle = text::join(runs, seq![separator]);
    let s = table_render::border(seq![left], seq![separator], seq![right], widths, padding);
    assert(s == seq![left] + middle + seq![right]);
    assert forall|i: int| 0 < i < s.len() - 1 implies #[trigger] s[i] == '─' || s[i]
        == separator by {
        assert(s[i] == middle[i - 1]);
    }
}

// ---- rows of all the same length ----

proof fn lemma_most_cells(rows: Seq<Seq<CellView>>, n: int)
    requires
        0 <= n <= rows.len(),
    ensures
        table_render::most_cells(rows, n) >= 0,
        forall|i: int| 0 <= i < n ==> (#[trigger] rows[i]).len() <= table_render::most_cells(
            rows,
            n,
        ),
        table_render::most_cells(rows, n) > 0 ==> exists|i: int|
            0 <= i < n && (#[trigger] rows[i]).len() == table_render::most_cells(rows, n),
    decreases n,
{
    if n > 0 {
        lemma_most_cells(rows, n - 1);
        let m = table_render::most_cells(rows, n);
        if m > rows[n - 1].len() {
            let i = choose|i: int|
                0 <= i < n - 1 && (#[trigger] rows[i]).len() == table_render::most_cells(
                    rows,
                    n - 1,
                );
            assert(rows[i].len() == m);
        } else {
            assert(rows[n - 1].len() == m);
        }
    }
}

/// Before it is drawn a table keeps every row and cell where it is; rows that are shorter than the
/// longest are filled up with empty cells.
pub proof fn shorter_rows_are_filled_up(rows: Seq<Seq<CellView>>, i: int, j: int)
    requires
        0 <= i < rows.len(),
    ensures
        ({
            let padded = table_render::padded_rows(rows);
            &&& padded.len() == rows.len()
            &&& forall|k: int|
                0 <= k < rows.len() ==> (#[trigger] padded[k]).len() == padded[i].len()
                    && padded[k].len() >= rows[k].len()
            &&& 0 <= j < rows[i].len() ==> padded[i][j] == rows[i][j]
            &&& rows[i].len() <= j < padded[i].len() ==> padded[i][j].len() == 0
            &&& padded[i].len() > 0 ==> exists|k: int|
                0 <= k < rows.len() && (#[trigger] rows[k]).len() == padded[i].len()
        }),
{
    lemma_most_cells(rows, rows.len() as int);
}

proof fn lemma_desired(rows: Seq<Seq<CellView>>, j: int, n: int)
    requires
        0 <= n <= rows.len(),
    ensures
        table_render::desired_width(rows, j, n) >= 3,
        forall|i: int|
            0 <= i < n && j < (#[trigger] rows[i]).len() ==> table_layout::cell_width(rows[i][j])
                <= table_render::desired_width(rows, j, n),
        table_render::desired_width(rows, j, n) > 3 ==> exists|i: int|
            0 <= i < n && j < (#[trigger] rows[i]).len() && table_layout::cell_width(rows[i][j])
                == table_render::desired_width(rows, j, n),
    decreases n,
{
    if n > 0 {
        lemma_desired(rows, j, n - 1);
        let d = table_render::desired_width(rows, j, n);
        let before = table_render::desired_width(rows, j, n - 1);
        if d > 3 {
            if d == before {
                let i = choose|i: int|
                    0 <= i < n - 1 && j < (#[trigger] rows[i]).len() && table_layout::cell_width(
                        rows[i][j],
                    ) == before;
                assert(j < rows[i].len());
            } else {
                assert(j < rows[n - 1].len() && table_layout::cell_width(rows[n - 1][j]) == d);
            }
        }
    }
}

/// A column would be as wide as its widest cell, and at least three columns.
pub proof fn columns_want_their_widest_cell(rows: Seq<Seq<CellView>>, j: int)
    ensures
        ({
            let d = table_render::desired_width(rows, j, rows.len() as int);
            &&& d >= 3
            &&& forall|i: int|
                0 <= i < rows.len() && j < (#[trigger] rows[i]).len() ==> table_layout::cell_width(
                    rows[i][j],
                ) <= d
            &&& d > 3 ==> exists|i: int|
                0 <= i < rows.len() && j < (#[trigger] rows[i]).len() && table_layout::cell_width(
                    rows[i][j],
                ) == d
        }),
{
    lemma_desired(rows, j, rows.len() as int);
}

proof fn lemma_widest(lines: Seq<Seq<SpanView>>, n: int)
    requires
        0 <= n <= lines.len(),
    ensures
        table_layout::widest(lines, n) >= 0,
        forall|k: int| 0 <= k < n ==> spans::line_width(#[trigger] lines[k]) <= table_layout::widest(
            lines,
            n,
        ),
        table_layout::widest(lines, n) > 0 ==> exists|k: int|
            0 <= k < n && spans::line_width(#[trigger] lines[k]) == table_layout::widest(lines, n),
    decreases n,
{
    if n > 0 {
        lemma_widest(lines, n - 1);
        let w = table_layout::widest(lines, n);
        if w > spans::line_width(lines[n - 1]) {
            let k = choose|k: int|
                0 <= k < n - 1 && spans::line_width(#[trigger] lines[k]) == table_layout::widest(
                    lines,
                    n - 1,
                );
            assert(spans::line_width(lines[k]) == w);
        } else if w > 0 {
            assert(spans::line_width(lines[n - 1]) == w);
        }
    }
}

/// A cell is as wide as its widest line.
pub proof fn cells_are_as_wide_as_their_lines(cell: CellView)
    ensures
        forall|k: int|
            0 <= k < cell.len() ==> spans::line_width(#[trigger] cell[k])
                <= table_layout::cell_width(cell),
        table_layout::cell_width(cell) > 0 ==> exists|k: int|
            0 <= k < cell.len() && spans::line_width(#[trigger] cell[k])
                == table_layout::cell_width(cell),
{
    lemma_widest(cell, cell.len() as int);
}

/// Where the columns of a box can have all the room that they want, they have it.
pub proof fn columns_get_what_they_want_where_it_fits(
    rows: Seq<Seq<CellView>>,
    desired: Seq<int>,
    available: int,
    padding: int,
)
    requires
        forall|i: int| 0 <= i < desired.len() ==> #[trigger] desired[i] >= 3,
        table_layout::total_width(desired, padding) <= available,
    ensures
        table_layout::allocated(rows, desired, available, padding) == Some(desired),
{
    let columns = desired.len() as int;
    let room = table_layout::content_room(available, columns, padding);
    let start = Seq::new(desired.len(), |i: int| 3int);
    let basic = Seq::new(
        desired.len(),
        |i: int| table_layout::basic_target(rows, desired[i], i),
    );
    lemma_at_least_threes(desired, columns);
    table_layout::growing_is_fair(start, room - 3 * columns, basic);
    let first = table_layout::grown(start, room - 3 * columns, basic);
    let content = Seq::new(
        desired.len(),
        |i: int| table_layout::content_target(rows, desired[i], first.0[i], i),
    );
    table_layout::growing_is_fair(first.0, first.1, content);
    let second = table_layout::grown(first.0, first.1, content);
    table_layout::growing_is_fair(second.0, second.1, desired);
    let third = table_layout::grown(second.0, second.1, desired);
    assert forall|i: int| 0 <= i < columns implies #[trigger] third.0[i] <= desired[i] by {
        assert(start[i] <= first.0[i] && first.0[i] <= second.0[i] && second.0[i] <= third.0[i]);
        assert(basic[i] <= desired[i]);
        assert(first.0[i] <= desired[i]);
        assert(content[i] <= desired[i]);
        assert(second.0[i] <= desired[i]);
    }
    lemma_same_sum(third.0, desired, columns);
    lemma_start_sum(start, columns);
    if third.1 > 0 {
        assert(third.0 =~= desired);
    } else {
        assert(table_layout::sum_of(third.0, columns) >= table_layout::sum_of(desired, columns));
        lemma_equal_sums(third.0, desired, columns);
        assert(third.0 =~= desired);
    }
}

proof fn lemma_start_sum(w: Seq<int>, n: int)
    requires
        0 <= n <= w.len(),
        forall|i: int| 0 <= i < w.len() ==> #[trigger] w[i] == 3,
    ensures
        table_layout::sum_of(w, n) == 3 * n,
    decreases n,
{
    if n > 0 {
        lemma_start_sum(w, n - 1);
    }
}

proof fn lemma_at_least_threes(w: Seq<int>, n: int)
    requires
        0 <= n <= w.len(),
        forall|i: int| 0 <= i < w.len() ==> #[trigger] w[i] >= 3,
    ensures
        table_layout::sum_of(w, n) >= 3 * n,
    decreases n,
{
    if n > 0 {
        lemma_at_least_threes(w, n - 1);
        assert(w[n - 1] >= 3);
    }
}

proof fn lemma_same_sum(a: Seq<int>, b: Seq<int>, n: int)
    requires
        0 <= n <= a.len() == b.len(),
        forall|i: int| 0 <= i < a.len() ==> #[trigger] a[i] <= b[i],
    ensures
        table_layout::sum_of(a, n) <= table_layout::sum_of(b, n),
    decreases n,
{
    if n > 0 {
        lemma_same_sum(a, b, n - 1);
        assert(a[n - 1] <= b[n - 1]);
    }
}

proof fn lemma_equal_sums(a: Seq<int>, b: Seq<int>, n: int)
    requires
        0 <= n <= a.len() == b.len(),
        forall|i: int| 0 <= i < a.len() ==> #[trigger] a[i] <= b[i],
        table_layout::sum_of(a, n) >= table_layout::sum_of(b, n),
    ensures
        forall|i: int| 0 <= i < n ==> #[trigger] a[i] == b[i],
    decreases n,
{
    if n > 0 {
        lemma_same_sum(a, b, n - 1);
        assert(a[n - 1] <= b[n - 1]);
        lemma_equal_sums(a, b, n - 1);
    }
}

// ---- pairs ----

proof fn lemma_columns(rows: Seq<Seq<CellView>>, n: int, c: int)
    requires
        0 <= n,
    ensures
        ({
            let shown = table_render::shown_columns(rows, n);
            &&& shown.contains(c) <==> 0 <= c < n && table_render::is_shown(rows, c)
            &&& forall|i: int| 0 <= i < shown.len() ==> 0 <= #[trigger] shown[i] < n
            &&& forall|i: int, j: int|
                0 <= i < j < shown.len() ==> #[trigger] shown[i] < #[trigger] shown[j]
        }),
    decreases n,
{
    if n > 0 {
        lemma_columns(rows, n - 1, c);
        let before = table_render::shown_columns(rows, n - 1);
        let after = table_render::shown_columns(rows, n);
        if before.contains(c) {
            assert(after[before.index_of(c)] == c);
        }
        if after.len() > before.len() {
            assert(after[before.len() as int] == n - 1);
            if after.contains(c) && c != n - 1 {
                assert(before[after.index_of(c)] == c);
            }
        }
    }
}

/// Of a table as pairs each column is shown, in order, that has a header or something below it,
/// but for a first column that only numbers the rows.
pub proof fn columns_with_content_are_shown(rows: Seq<Seq<CellView>>, c: int)
    requires
        rows.len() > 0,
        0 <= c < rows[0].len(),
    ensures
        ({
            let shown = table_render::shown_columns(rows, rows[0].len() as int);
            let key = text::ascii_lower(
                text::trim(text::join(table_layout::texts(rows[0][0]), "\n"@)),
            );
            let numbers = rows[0].len() > 1 && (key == "#"@ || key == "id"@ || key == "idx"@ || key
                == "index"@ || key == "row"@);
            let filled = !table_render::blank_cell(rows[0][c]) || exists|k: int|
                1 <= k < rows.len() && c < (#[trigger] rows[k]).len() && !table_render::blank_cell(
                    rows[k][c],
                );
            &&& shown.contains(c) <==> filled && !(c == 0 && numbers)
            &&& forall|i: int, j: int|
                0 <= i < j < shown.len() ==> #[trigger] shown[i] < #[trigger] shown[j]
        }),
{
    lemma_columns(rows, rows[0].len() as int, c);
}

/// A pair shows its label, right aligned, and its value, left aligned, each filled up to the width
/// of its column, between borders.
pub proof fn pairs_show_label_and_value(
    label: Seq<char>,
    value: Seq<SpanView>,
    label_width: usize,
    value_width: usize,
)
    ensures
        ({
            let line = table_render::pair_line(label, value, label_width, value_width);
            &&& line[0].0 == "│ "@ && line.last().0 == " │"@
            &&& spans::holds_part(line, value)
            &&& spans::holds_part(line, seq![(label, Tone::Plain), (" │ "@, Tone::Plain)])
            &&& display::display_width(label) < label_width ==> line[1].0 == text::repeat_char(
                ' ',
                (label_width - display::display_width(label)) as nat,
            ) && line[2].0 == label
            &&& display::display_width(label) >= label_width ==> line[1].0 == label
            &&& spans::line_width(value) < value_width ==> line[line.len() - 2].0
                == text::repeat_char(' ', (value_width - spans::line_width(value)) as nat)
        }),
{
    let line = table_render::pair_line(label, value, label_width, value_width);
    let left = table_render::blank(label_width - display::display_width(label));
    let p = (left.len() + 1) as int;
    assert(line.subrange(p, p + 2) =~= seq![(label, Tone::Plain), (" │ "@, Tone::Plain)]);
    let q = p + 2;
    assert(line.subrange(q, q + value.len()) =~= value);
}

/// How many lines the pairs of a row take in the first `n` shown columns.
pub open spec fn pair_heights(
    row: Seq<CellView>,
    columns: Seq<int>,
    value_width: usize,
    n: int,
) -> int
    decreases n,
{
    if n <= 0 {
        0
    } else {
        pair_heights(row, columns, value_width, n - 1) + table_render::value_lines(
            row,
            columns[n - 1],
            value_width,
        ).len()
    }
}

proof fn lemma_row_pairs_len(
    headers: Seq<CellView>,
    row: Seq<CellView>,
    columns: Seq<int>,
    label_width: usize,
    value_width: usize,
    n: int,
)
    requires
        0 <= n <= columns.len(),
    ensures
        table_render::row_pairs(headers, row, columns, label_width, value_width, n).len()
            == pair_heights(row, columns, value_width, n),
        pair_heights(row, columns, value_width, n) >= 0,
    decreases n,
{
    if n > 0 {
        lemma_row_pairs_len(headers, row, columns, label_width, value_width, n - 1);
    }
}

/// The pairs of a row stand one below the other, in the order of the shown columns: each with its
/// label in its first line and, line by line, its value.
pub proof fn rows_show_their_pairs(
    headers: Seq<CellView>,
    row: Seq<CellView>,
    columns: Seq<int>,
    label_width: usize,
    value_width: usize,
    n: int,
    i: int,
    v: int,
)
    requires
        0 <= i < n <= columns.len(),
        0 <= v < table_render::value_lines(row, columns[i], value_width).len(),
    ensures
        ({
            let lines = table_render::row_pairs(
                headers,
                row,
                columns,
                label_width,
                value_width,
                n,
            );
            let at = pair_heights(row, columns, value_width, i) + v;
            &&& 0 <= at < lines.len()
            &&& lines.len() == pair_heights(row, columns, value_width, n)
            &&& lines[at] == table_render::pair_line(
                if v == 0 {
                    display::truncated(
                        table_render::label_of(headers, columns[i]),
                        label_width,
                    )
                } else {
                    Seq::empty()
                },
                table_render::value_lines(row, columns[i], value_width)[v],
                label_width,
                value_width,
            )
        }),
    decreases n,
{
    lemma_row_pairs_len(headers, row, columns, label_width, value_width, n);
    lemma_row_pairs_len(headers, row, columns, label_width, value_width, n - 1);
    lemma_row_pairs_len(headers, row, columns, label_width, value_width, i);
    if i < n - 1 {
        rows_show_their_pairs(headers, row, columns, label_width, value_width, n - 1, i, v);
    }
}

/// A column is labelled by its header without white space around it, and by a stand-in where the
/// header is blank.
pub proof fn columns_are_labelled_by_their_headers(headers: Seq<CellView>, c: int)
    requires
        0 <= c < headers.len(),
    ensures
        table_render::blank_cell(headers[c]) ==> table_render::label_of(headers, c) == "Column"@,
        !table_render::blank_cell(headers[c]) ==> table_render::label_of(headers, c) == text::trim(
            text::join(table_layout::texts(headers[c]), "\n"@),
        ),
{
}

/// How many lines the rows below the header take as pairs, up to the `n`th row.
pub open spec fn pairs_before(
    rows: Seq<Seq<CellView>>,
    columns: Seq<int>,
    value_width: usize,
    n: int,
) -> int
    decreases n,
{
    if n <= 1 {
        0
    } else {
        pairs_before(rows, columns, value_width, n - 1) + pair_heights(
            rows[n - 1],
            columns,
            value_width,
            columns.len() as int,
        ) + (if n > 2 {
            1int
        } else {
            0
        })
    }
}

proof fn lemma_all_pairs_len(
    rows: Seq<Seq<CellView>>,
    columns: Seq<int>,
    label_width: usize,
    value_width: usize,
    n: int,
)
    requires
        1 <= n <= rows.len(),
    ensures
        table_render::all_pairs(rows, columns, label_width, value_width, n).len() == 1
            + pairs_before(rows, columns, value_width, n),
        pairs_before(rows, columns, value_width, n) >= 0,
    decreases n,
{
    if n > 1 {
        lemma_all_pairs_len(rows, columns, label_width, value_width, n - 1);
        lemma_row_pairs_len(
            rows[0],
            rows[n - 1],
            columns,
            label_width,
            value_width,
            columns.len() as int,
        );
    }
}

proof fn lemma_pair_in_all(
    rows: Seq<Seq<CellView>>,
    columns: Seq<int>,
    label_width: usize,
    value_width: usize,
    n: int,
    k: int,
    l: int,
)
    requires
        1 <= k < n <= rows.len(),
        0 <= l < pair_heights(rows[k], columns, value_width, columns.len() as int),
    ensures
        ({
            let at = 1 + pairs_before(rows, columns, value_width, k) + l + (if k > 1 {
                1int
            } else {
                0
            });
            let all = table_render::all_pairs(rows, columns, label_width, value_width, n);
            &&& 0 < at < all.len()
            &&& all[at] == table_render::row_pairs(
                rows[0],
                rows[k],
                columns,
                label_width,
                value_width,
                columns.len() as int,
            )[l]
        }),
    decreases n,
{
    lemma_all_pairs_len(rows, columns, label_width, value_width, n);
    lemma_all_pairs_len(rows, columns, label_width, value_width, n - 1);
    lemma_all_pairs_len(rows, columns, label_width, value_width, k);
    lemma_row_pairs_len(
        rows[0],
        rows[k],
        columns,
        label_width,
        value_width,
        columns.len() as int,
    );
    if k < n - 1 {
        lemma_pair_in_all(rows, columns, label_width, value_width, n - 1, k, l);
    }
}

/// The widths of the label and the value column of a table as pairs.
pub open spec fn widths_of_pairs(rows: Seq<Seq<CellView>>, available: usize) -> (usize, usize) {
    let columns = table_render::shown_columns(rows, rows[0].len() as int);
    let header = match table_render::widest_label(rows[0], columns, columns.len() as int) {
        Some(w) => w,
        None => 4,
    };
    let value = match table_render::widest_value(rows, columns, rows.len() as int) {
        Some(w) => w,
        None => 1,
    };
    let widths = table_render::pair_widths(header, value, available as int);
    (widths.0 as usize, widths.1 as usize)
}

/// A table as pairs shows every row below the header once and in order, with a border between each
/// two, and nothing else.
pub proof fn pairs_show_every_row(rows: Seq<Seq<CellView>>, available: usize, k: int, i: int, v: int)
    requires
        1 <= k < rows.len(),
        0 <= i < table_render::shown_columns(rows, rows[0].len() as int).len(),
        ({
            let columns = table_render::shown_columns(rows, rows[0].len() as int);
            0 <= v < table_render::value_lines(
                rows[k],
                columns[i],
                widths_of_pairs(rows, available).1,
            ).len()
        }),
    ensures
        ({
            let columns = table_render::shown_columns(rows, rows[0].len() as int);
            let (label_width, value_width) = widths_of_pairs(rows, available);
            let drawn = table_render::vertical_table(rows, available);
            let at = 1 + pairs_before(rows, columns, value_width, k) + pair_heights(
                rows[k],
                columns,
                value_width,
                i,
            ) + v + (if k > 1 {
                1int
            } else {
                0
            });
            &&& drawn.len() == 2 + pairs_before(rows, columns, value_width, rows.len() as int)
            &&& 0 < at < drawn.len() - 1
            &&& drawn[at] == table_render::pair_line(
                if v == 0 {
                    display::truncated(
                        table_render::label_of(rows[0], columns[i]),
                        label_width,
                    )
                } else {
                    Seq::empty()
                },
                table_render::value_lines(rows[k], columns[i], value_width)[v],
                label_width,
                value_width,
            )
        }),
{
    let columns = table_render::shown_columns(rows, rows[0].len() as int);
    let (label_width, value_width) = widths_of_pairs(rows, available);
    let n = columns.len() as int;
    let l = pair_heights(rows[k], columns, value_width, i) + v;
    rows_show_their_pairs(rows[0], rows[k], columns, label_width, value_width, n, i, v);
    lemma_row_pairs_len(rows[0], rows[k], columns, label_width, value_width, i);
    lemma_all_pairs_len(rows, columns, label_width, value_width, rows.len() as int);
    lemma_pair_in_all(rows, columns, label_width, value_width, rows.len() as int, k, l);
}

/// Each cell below the header of a shown column is shown in a table as pairs: every line that it
/// wraps to, or a dash where it is blank.
pub proof fn pairs_show_every_cell(rows: Seq<Seq<CellView>>, available: usize, k: int, c: int)
    requires
        1 <= k < rows.len(),
        0 <= c < rows[k].len(),
        0 <= c < rows[0].len(),
        table_render::shown_columns(rows, rows[0].len() as int).contains(c),
    ensures
        !table_render::blank_cell(rows[k][c]) ==> shows_cell(
            table_render::vertical_table(rows, available),
            rows[k][c],
            widths_of_pairs(rows, available).1,
            true,
        ),
        table_render::blank_cell(rows[k][c]) ==> shows_part(
            table_render::vertical_table(rows, available),
            seq![("—"@, Tone::Plain)],
        ),
{
    let columns = table_render::shown_columns(rows, rows[0].len() as int);
    let (label_width, value_width) = widths_of_pairs(rows, available);
    let drawn = table_render::vertical_table(rows, available);
    let i = columns.index_of(c);
    let values = table_render::value_lines(rows[k], c, value_width);
    assert forall|v: int| 0 <= v < values.len() implies shows_part(drawn, #[trigger] values[v]) by {
        pairs_show_every_row(rows, available, k, i, v);
        let at = 1 + pairs_before(rows, columns, value_width, k) + pair_heights(
            rows[k],
            columns,
            value_width,
            i,
        ) + v + (if k > 1 {
            1int
        } else {
            0
        });
        let label = if v == 0 {
            display::truncated(table_render::label_of(rows[0], columns[i]), label_width)
        } else {
            Seq::empty()
        };
        pairs_show_label_and_value(label, values[v], label_width, value_width);
        assert(spans::holds_part(drawn[at], values[v]));
    }
    if table_render::blank_cell(rows[k][c]) {
        assert(values[0] == seq![("—"@, Tone::Plain)]);
    } else {
        let wrapped = table_render::wrapped_cell(rows[k][c], value_width, true);
        assert(values == wrapped);
        assert forall|l: int| 0 <= l < wrapped.len() implies shows_part(
            drawn,
            #[trigger] wrapped[l],
        ) by {
            assert(values[l] == wrapped[l]);
        }
    }
}

// ---- whole tables ----

/// However a table is drawn, what a cell below the header holds is shown, unless it stands in a
/// first column that only numbers the rows.
pub proof fn drawings_show_every_cell(
    drawn: Seq<Seq<SpanView>>,
    rows: Seq<Seq<CellView>>,
    width: Option<usize>,
    i: int,
    j: int,
)
    requires
        table_render::is_table_drawing(drawn, rows, width),
        1 <= i < rows.len(),
        0 < j < rows[i].len(),
        !table_render::blank_cell(rows[i][j]),
    ensures
        exists|w: usize, hard: bool| #[trigger] shows_cell(drawn, rows[i][j], w, hard),
{
    let v = table_render::padded_rows(rows);
    let columns = table_render::most_cells(rows, rows.len() as int);
    let a = table_render::usable_width(v, width);
    let d = table_render::desired_widths(v, columns);
    shorter_rows_are_filled_up(rows, i, j);
    lemma_most_cells(rows, rows.len() as int);
    assert(columns > 0) by {
        assert(rows[i].len() <= columns);
    }
    assert(v[0].len() == v[i].len());
    if table_render::no_box_with(v, d, a, 1) && table_render::no_box_with(v, d, a, 0) {
        assert(!table_render::blank_cell(v[i][j]));
        assert(j < v[i].len());
        columns_with_content_are_shown(v, j);
        pairs_show_every_cell(v, a as usize, i, j);
        assert(shows_cell(drawn, rows[i][j], widths_of_pairs(v, a as usize).1, true));
    } else {
        let c = choose|c: table_render::TableLayoutCandidate|
            #![trigger table_render::is_box_with(c, v, d, a, c.padding as int)]
            table_render::is_box_with(c, v, d, a, c.padding as int) && (c.padding == 1 || c.padding
                == 0 && table_render::no_box_with(v, d, a, 1)) && drawn == table_render::box_table(
                v,
                c.column_widths@,
                c.padding as int,
                c.hard_wrap,
            );
        table_layout::allocation_fits(v, d, a, c.padding as int);
        assert(table_layout::ints(c.column_widths@).len() == d.len());
        assert(c.column_widths@.len() == columns);
        boxes_show_every_cell(v, c.column_widths@, c.padding as int, c.hard_wrap, i, j);
        assert(shows_cell(drawn, rows[i][j], c.column_widths@[j], c.hard_wrap));
    }
}

// ---- looks ----

proof fn lemma_first_place(s: Seq<char>, line: Seq<char>, from: int)
    requires
        0 <= from,
    ensures
        match table_render::first_place(s, line, from) {
            Some(p) => from <= p && text::stands_at(s, line, p) && forall|j: int|
                from <= j < p ==> !#[trigger] text::stands_at(s, line, j),
            None => forall|j: int| from <= j ==> !#[trigger] text::stands_at(s, line, j),
        },
    decreases s.len() - from + 1,
{
    if from <= s.len() && !text::stands_at(s, line, from) {
        lemma_first_place(s, line, from + 1);
    }
}

/// A wrapped line looks, character by character, as the text does that it was wrapped from: at the
/// first place behind the line before it where it stands. Only a line that stands nowhere is plain.
pub proof fn wrapped_lines_keep_their_look(
    segment: Seq<SpanView>,
    lines: Seq<Seq<char>>,
    from: int,
)
    requires
        0 <= from,
        lines.len() > 0,
    ensures
        ({
            let styled = table_render::styled_lines(segment, lines, from);
            let s = spans::line_text(segment);
            let n = lines[0].len() as int;
            &&& styled.len() > 0
            &&& match table_render::first_place(s, lines[0], from) {
                Some(p) => from <= p && text::stands_at(s, lines[0], p) && (forall|j: int|
                    from <= j < p ==> !#[trigger] text::stands_at(s, lines[0], j))
                    && spans::line_text(styled[0]) == lines[0] && spans::line_tones(styled[0])
                    == spans::line_tones(segment).subrange(p, p + n) && styled.skip(1)
                    == table_render::styled_lines(segment, lines.skip(1), p + n),
                None => (forall|j: int| from <= j ==> !#[trigger] text::stands_at(s, lines[0], j))
                    && styled[0] == seq![(lines[0], Tone::Plain)] && styled.skip(1)
                    == table_render::styled_lines(segment, lines.skip(1), from),
            }
        }),
{
    let s = spans::line_text(segment);
    let styled = table_render::styled_lines(segment, lines, from);
    lemma_first_place(s, lines[0], from);
    match table_render::first_place(s, lines[0], from) {
        Some(p) => {
            let end = p + lines[0].len();
            spans::cutting_keeps_the_text(segment, p, end);
            spans::cutting_keeps_the_look(segment, p, end);
            assert(styled.skip(1) =~= table_render::styled_lines(segment, lines.skip(1), end));
        },
        None => {
            assert(styled.skip(1) =~= table_render::styled_lines(segment, lines.skip(1), from));
        },
    }
}

// ---- layout ----

/// A box is laid out wherever each of its columns has three columns of room, and nowhere else.
pub proof fn boxes_need_three_columns_each(
    rows: Seq<Seq<CellView>>,
    desired: Seq<int>,
    available: int,
    padding: int,
)
    ensures
        table_layout::allocated(rows, desired, available, padding) is Some
            <==> table_layout::total_width(Seq::new(desired.len(), |i: int| 3int), padding)
            <= available,
{
    let start = Seq::new(desired.len(), |i: int| 3int);
    lemma_start_sum(start, desired.len() as int);
}

/// A box uses its room: no column is wider than it wants, or than three columns, and where one is
/// narrower than it wants, no room is left.
pub proof fn boxes_use_their_room(
    rows: Seq<Seq<CellView>>,
    desired: Seq<int>,
    available: int,
    padding: int,
)
    requires
        table_layout::allocated(rows, desired, available, padding) is Some,
        forall|i: int| 0 <= i < desired.len() ==> #[trigger] desired[i] >= 3,
    ensures
        ({
            let w = table_layout::allocated(rows, desired, available, padding)->0;
            &&& w.len() == desired.len()
            &&& forall|i: int| 0 <= i < w.len() ==> 3 <= #[trigger] w[i] <= desired[i]
            &&& (exists|i: int| 0 <= i < w.len() && #[trigger] w[i] < desired[i])
                ==> table_layout::total_width(w, padding) == available
        }),
{
    let columns = desired.len() as int;
    let room = table_layout::content_room(available, columns, padding);
    let start = Seq::new(desired.len(), |i: int| 3int);
    let basic = Seq::new(
        desired.len(),
        |i: int| table_layout::basic_target(rows, desired[i], i),
    );
    table_layout::growing_is_fair(start, room - 3 * columns, basic);
    let first = table_layout::grown(start, room - 3 * columns, basic);
    let content = Seq::new(
        desired.len(),
        |i: int| table_layout::content_target(rows, desired[i], first.0[i], i),
    );
    table_layout::growing_is_fair(first.0, first.1, content);
    let second = table_layout::grown(first.0, first.1, content);
    table_layout::growing_is_fair(second.0, second.1, desired);
    let third = table_layout::grown(second.0, second.1, desired);
    lemma_start_sum(start, columns);
    assert forall|i: int| 0 <= i < columns implies 3 <= #[trigger] third.0[i] <= desired[i] by {
        assert(start[i] <= first.0[i] && first.0[i] <= second.0[i] && second.0[i] <= third.0[i]);
        assert(basic[i] <= desired[i]);
        assert(first.0[i] <= desired[i]);
        assert(content[i] <= desired[i]);
        assert(second.0[i] <= desired[i]);
    }
    if exists|i: int| 0 <= i < columns && #[trigger] third.0[i] < desired[i] {
        assert(third.1 == 0);
    }
}

/// Before a column gets all that it wants it gets what it needs at the least: three columns, or up
/// to four if it only numbers the rows and up to six if it does not.
pub proof fn columns_need_three_to_six(rows: Seq<Seq<CellView>>, desired: int, index: int)
    ensures
        ({
            let need = table_layout::basic_target(rows, desired, index);
            &&& 3 <= need <= 6
            &&& table_layout::index_column(rows, index) ==> need <= 4
            &&& desired >= 3 ==> need <= desired
            &&& 3 <= desired <= 4 ==> need == desired
        }),
{
}

proof fn lemma_tallest_body(rows: Seq<Seq<CellView>>, widths: Seq<usize>, hard: bool, n: int)
    requires
        0 <= n <= rows.len(),
    ensures
        ({
            let t = table_render::tallest_body(rows, widths, hard, n);
            &&& t >= 0
            &&& forall|i: int|
                1 <= i < n ==> table_render::row_height(#[trigger] rows[i], widths, hard) <= t
            &&& t > 0 ==> exists|i: int|
                1 <= i < n && table_render::row_height(#[trigger] rows[i], widths, hard) == t
        }),
    decreases n,
{
    if n > 1 {
        lemma_tallest_body(rows, widths, hard, n - 1);
        let t = table_render::tallest_body(rows, widths, hard, n);
        if t > table_render::row_height(rows[n - 1], widths, hard) {
            let i = choose|i: int|
                1 <= i < n - 1 && table_render::row_height(#[trigger] rows[i], widths, hard)
                    == table_render::tallest_body(rows, widths, hard, n - 1);
            assert(table_render::row_height(rows[i], widths, hard) == t);
        } else {
            assert(table_render::row_height(rows[n - 1], widths, hard) == t);
        }
    }
}

/// Words are broken in a box only where one is wider than its column or a row would take more than
/// twelve lines otherwise.
pub proof fn words_are_broken_where_they_must(rows: Seq<Seq<CellView>>, widths: Seq<usize>)
    ensures
        table_render::breaks_words(rows, widths) <==> table_render::any_too_wide(rows, widths)
            || exists|i: int|
            1 <= i < rows.len() && table_render::row_height(#[trigger] rows[i], widths, false) > 12,
{
    lemma_tallest_body(rows, widths, false, rows.len() as int);
}

/// No row below the header of a drawn box takes more than twenty-four lines.
pub proof fn drawn_rows_are_not_too_high(
    rows: Seq<Seq<CellView>>,
    widths: Seq<usize>,
    available: int,
    padding: int,
    i: int,
)
    requires
        table_render::box_candidate(rows, widths, available, padding) is Some,
        1 <= i < rows.len(),
    ensures
        table_render::row_height(
            rows[i],
            widths,
            table_render::box_candidate(rows, widths, available, padding)->0,
        ) <= 24,
        table_render::box_candidate(rows, widths, available, padding)->0
            == table_render::breaks_words(rows, widths),
{
    let hard = table_render::breaks_words(rows, widths);
    lemma_tallest_body(rows, widths, hard, rows.len() as int);
}

/// The height of a table is that of its header and of the rows below it.
pub proof fn heights_are_header_and_body(
    rows: Seq<Seq<CellView>>,
    widths: Seq<usize>,
    hard: bool,
    n: int,
)
    requires
        1 <= n <= rows.len(),
    ensures
        heights(rows, widths, hard, n) == table_render::row_height(rows[0], widths, hard)
            + table_render::body_height(rows, widths, hard, n),
    decreases n,
{
    if n > 1 {
        heights_are_header_and_body(rows, widths, hard, n - 1);
    } else {
        assert(heights(rows, widths, hard, 0) == 0);
    }
}

/// Labels and values get the columns that they want where those fit and are not too many: up to
/// twenty for the labels.
pub proof fn pairs_get_what_they_want_where_it_fits(header: int, value: int, available: int)
    requires
        3 <= header <= 20,
        3 <= value,
        header + value + 7 <= available,
    ensures
        table_render::pair_widths(header, value, available) == (header, value),
{
}

/// Where they do not, the labels get at most twenty columns and the values all that is left.
pub proof fn values_get_what_labels_leave(header: int, value: int, available: int)
    requires
        header >= 0,
        value >= 0,
        available >= 13,
        table_render::pair_widths(header, value, available).1 < value,
    ensures
        ({
            let (label, rest) = table_render::pair_widths(header, value, available);
            &&& 3 <= label <= 20
            &&& rest >= 3
            &&& label + rest + 7 == available
        }),
{
}

proof fn lemma_widest_label(headers: Seq<CellView>, columns: Seq<int>, n: int)
    requires
        0 <= n <= columns.len(),
    ensures
        match table_render::widest_label(headers, columns, n) {
            None => n == 0,
            Some(w) => (forall|i: int|
                0 <= i < n ==> display::display_width(
                    table_render::label_of(headers, #[trigger] columns[i]),
                ) <= w) && exists|i: int|
                0 <= i < n && display::display_width(
                    table_render::label_of(headers, #[trigger] columns[i]),
                ) == w,
        },
    decreases n,
{
    if n > 0 {
        lemma_widest_label(headers, columns, n - 1);
        let w = table_render::widest_label(headers, columns, n)->0;
        let own = display::display_width(table_render::label_of(headers, columns[n - 1]));
        if n > 1 && w > own {
            let i = choose|i: int|
                0 <= i < n - 1 && display::display_width(
                    table_render::label_of(headers, #[trigger] columns[i]),
                ) == table_render::widest_label(headers, columns, n - 1)->0;
            assert(display::display_width(table_render::label_of(headers, columns[i])) == w);
        } else {
            assert(display::display_width(table_render::label_of(headers, columns[n - 1])) == w);
        }
    }
}

/// The labels want the width of the widest of them.
pub proof fn labels_want_their_widest(headers: Seq<CellView>, columns: Seq<int>)
    requires
        columns.len() > 0,
    ensures
        ({
            let w = table_render::widest_label(headers, columns, columns.len() as int);
            &&& w is Some
            &&& forall|i: int|
                0 <= i < columns.len() ==> display::display_width(
                    table_render::label_of(headers, #[trigger] columns[i]),
                ) <= w->0
            &&& exists|i: int|
                0 <= i < columns.len() && display::display_width(
                    table_render::label_of(headers, #[trigger] columns[i]),
                ) == w->0
        }),
{
    lemma_widest_label(headers, columns, columns.len() as int);
}

proof fn lemma_widest_line(seen: Option<int>, lines: Seq<Seq<char>>, n: int, i: int)
    requires
        0 <= n <= lines.len(),
    ensures
        ({
            let w = table_render::widest_line(seen, lines, n);
            &&& seen is Some || n > 0 ==> w is Some
            &&& seen is Some ==> seen->0 <= w->0
            &&& 0 <= i < n ==> display::display_width(lines[i]) <= w->0
        }),
    decreases n,
{
    if n > 0 {
        lemma_widest_line(seen, lines, n - 1, i);
    }
}

proof fn lemma_widest_in_row(
    seen: Option<int>,
    row: Seq<CellView>,
    columns: Seq<int>,
    n: int,
    c: int,
    i: int,
)
    requires
        0 <= n <= columns.len(),
    ensures
        ({
            let w = table_render::widest_in_row(seen, row, columns, n);
            let lines = text::text_lines(table_layout::plain(row[columns[c]]));
            &&& seen is Some ==> w is Some && seen->0 <= w->0
            &&& 0 <= c < n && columns[c] < row.len() && 0 <= i < lines.len() ==> w is Some
                && display::display_width(lines[i]) <= w->0
        }),
    decreases n,
{
    if n > 0 {
        lemma_widest_in_row(seen, row, columns, n - 1, c, i);
        if columns[n - 1] < row.len() {
            let lines = text::text_lines(table_layout::plain(row[columns[n - 1]]));
            let before = table_render::widest_in_row(seen, row, columns, n - 1);
            lemma_widest_line(before, lines, lines.len() as int, i);
        }
    }
}

proof fn lemma_widest_value(
    rows: Seq<Seq<CellView>>,
    columns: Seq<int>,
    n: int,
    k: int,
    c: int,
    i: int,
)
    requires
        1 <= k < n <= rows.len(),
        0 <= c < columns.len(),
        columns[c] < rows[k].len(),
        0 <= i < text::text_lines(table_layout::plain(rows[k][columns[c]])).len(),
    ensures
        ({
            let w = table_render::widest_value(rows, columns, n);
            let lines = text::text_lines(table_layout::plain(rows[k][columns[c]]));
            w is Some && display::display_width(lines[i]) <= w->0
        }),
    decreases n,
{
    let before = table_render::widest_value(rows, columns, n - 1);
    lemma_widest_in_row(before, rows[n - 1], columns, columns.len() as int, c, i);
    if k < n - 1 {
        lemma_widest_value(rows, columns, n - 1, k, c, i);
    }
}

/// The values want at least the width of every line of every shown cell below the header.
pub proof fn values_want_their_widest(
    rows: Seq<Seq<CellView>>,
    columns: Seq<int>,
    k: int,
    c: int,
    i: int,
)
    requires
        1 <= k < rows.len(),
        0 <= c < columns.len(),
        columns[c] < rows[k].len(),
        0 <= i < text::text_lines(table_layout::plain(rows[k][columns[c]])).len(),
    ensures
        ({
            let w = table_render::widest_value(rows, columns, rows.len() as int);
            let lines = text::text_lines(table_layout::plain(rows[k][columns[c]]));
            w is Some && display::display_width(lines[i]) <= w->0
        }),
{
    lemma_widest_value(rows, columns, rows.len() as int, k, c, i);
}

/// A table is laid out for a column less than the terminal has, or two if it may measure some of the
/// characters otherwise, but never for none.
pub proof fn tables_leave_a_column_free(rows: Seq<Seq<CellView>>, width: usize)
    ensures
        ({
            let a = table_render::usable_width(rows, Some(width));
            &&& a >= 1
            &&& width >= 2 && !table_layout::width_risk(rows) ==> a == width - 1
            &&& width >= 3 && table_layout::width_risk(rows) ==> a == width - 2
        }),
{
}

/// A drawn box is no wider than the room that it was laid out for.
pub proof fn boxes_stay_within_the_room(
    c: table_render::TableLayoutCandidate,
    rows: Seq<Seq<CellView>>,
    desired: Seq<int>,
    available: int,
    corner: char,
)
    requires
        table_render::is_box_with(c, rows, desired, available, c.padding as int),
        desired.len() > 0,
    ensures
        c.column_widths@.len() == desired.len(),
        table_render::border(
            seq![corner],
            seq![corner],
            seq![corner],
            c.column_widths@,
            c.padding as int,
        ).len() <= available,
{
    table_layout::allocation_fits(rows, desired, available, c.padding as int);
    assert(table_layout::ints(c.column_widths@).len() == c.column_widths@.len());
    borders_span_the_box(corner, corner, corner, c.column_widths@, c.padding as int);
}

/// A column numbers the rows if its header says so, or if all of its cells below the header are
/// numbers.
pub proof fn columns_of_numbers_number_the_rows(rows: Seq<Seq<CellView>>, index: int, k: int, i: int)
    requires
        rows.len() > 0,
        0 <= index < rows[0].len(),
    ensures
        ({
            let key = text::ascii_lower(
                text::trim(text::join(table_layout::texts(rows[0][index]), "\n"@)),
            );
            let named = key == "#"@ || key == "id"@ || key == "idx"@ || key == "index"@ || key
                == "row"@;
            let cell = text::trim(text::join(table_layout::texts(rows[k][index]), "\n"@));
            &&& named ==> table_layout::index_column(rows, index)
            &&& !named && 1 <= k < rows.len() && index < rows[k].len() && 0 <= i < cell.len()
                && !('0' <= cell[i] <= '9') ==> !table_layout::index_column(rows, index)
            &&& (forall|r: int|
                1 <= r < rows.len() && index < (#[trigger] rows[r]).len()
                    ==> table_layout::is_number_cell(rows[r][index])) ==> table_layout::index_column(
                rows,
                index,
            )
        }),
{
    let cell = text::trim(table_layout::plain(rows[k][index]));
    if 1 <= k < rows.len() && index < rows[k].len() && 0 <= i < cell.len() && !('0' <= cell[i]
        <= '9') {
        assert(!text::is_ascii_digit(cell[i]));
        assert(!table_layout::is_number_cell(rows[k][index]));
    }
}

/// A column is heavy if a cell of it below the header is wider than twenty-four columns.
pub proof fn wide_cells_make_a_column_heavy(rows: Seq<Seq<CellView>>, index: int, k: int)
    requires
        1 <= k < rows.len(),
        0 <= index < rows[k].len(),
    ensures
        table_layout::cell_width(rows[k][index]) > 24 ==> table_layout::content_column(rows, index),
        text::has_sub(table_layout::plain(rows[k][index]), "://"@) ==> table_layout::content_column(
            rows,
            index,
        ),
{
    if table_layout::cell_width(rows[k][index]) > 24 || text::has_sub(
        table_layout::plain(rows[k][index]),
        "://"@,
    ) {
        assert(index < rows[k].len());
    }
}

proof fn lemma_body_height(rows: Seq<Seq<CellView>>, widths: Seq<usize>, hard: bool, n: int)
    requires
        1 <= n <= rows.len(),
        forall|i: int|
            1 <= i < rows.len() ==> table_render::row_height(#[trigger] rows[i], widths, hard) == 1,
    ensures
        table_render::body_height(rows, widths, hard, n) == n - 1,
        table_render::tallest_body(rows, widths, hard, n) <= 1,
    decreases n,
{
    if n > 1 {
        lemma_body_height(rows, widths, hard, n - 1);
        assert(table_render::row_height(rows[n - 1], widths, hard) == 1);
    }
}

/// A table whose rows all take a single line is drawn as a box, unless its columns are starved or the
/// terminal may measure it otherwise: no such table is too high.
pub proof fn low_tables_are_drawn_as_boxes(
    rows: Seq<Seq<CellView>>,
    widths: Seq<usize>,
    available: int,
    padding: int,
)
    requires
        rows.len() > 0,
        forall|i: int, hard: bool|
            1 <= i < rows.len() ==> #[trigger] table_render::row_height(rows[i], widths, hard) == 1,
        widths.len() < 4 || rows.len() <= 12 || !table_render::all_starved(rows, widths),
        !table_layout::width_risk(rows) || available > 24,
    ensures
        table_render::box_candidate(rows, widths, available, padding) is Some,
{
    let hard = table_render::breaks_words(rows, widths);
    assert forall|i: int| 1 <= i < rows.len() implies table_render::row_height(
        #[trigger] rows[i],
        widths,
        hard,
    ) == 1 by {}
    lemma_body_height(rows, widths, hard, rows.len() as int);
}

/// A table whose rows are high is not drawn as a box: one row of more than twenty-four lines is
/// enough, ten rows that take more than six lines each on average, and twenty-four that take more
/// than four.
pub proof fn high_tables_are_drawn_as_pairs(
    rows: Seq<Seq<CellView>>,
    widths: Seq<usize>,
    available: int,
    padding: int,
    i: int,
)
    requires
        rows.len() > 0,
    ensures
        ({
            let hard = table_render::breaks_words(rows, widths);
            let body = rows.len() - 1;
            let height = heights(rows, widths, hard, rows.len() as int) - table_render::row_height(
                rows[0],
                widths,
                hard,
            );
            let none = table_render::box_candidate(rows, widths, available, padding) is None;
            &&& 1 <= i < rows.len() && table_render::row_height(rows[i], widths, hard) > 24 ==> none
            &&& body >= 10 && height > 6 * body ==> none
            &&& body >= 24 && height > 4 * body ==> none
        }),
{
    let hard = table_render::breaks_words(rows, widths);
    lemma_tallest_body(rows, widths, hard, rows.len() as int);
    heights_are_header_and_body(rows, widths, hard, rows.len() as int);
}

/// A column that numbers the rows, or holds icons, is given four columns before others are given six,
/// if it wants them; and a heavy one up to twenty-four before any is given all that it wants.
pub proof fn columns_are_given_room_by_kind(
    rows: Seq<Seq<CellView>>,
    desired: int,
    width: int,
    index: int,
)
    requires
        rows.len() > 0,
        0 <= index < rows[0].len(),
        desired >= 6,
    ensures
        ({
            let key = text::ascii_lower(
                text::trim(text::join(table_layout::texts(rows[0][index]), "\n"@)),
            );
            let small = table_layout::index_column(rows, index) || key == "icon"@ || key
                == "emoji"@;
            let need = table_layout::basic_target(rows, desired, index);
            let more = table_layout::content_target(rows, desired, width, index);
            &&& small ==> need == 4
            &&& !small ==> need == 6
            &&& !table_layout::content_column(rows, index) ==> more == width
            &&& table_layout::content_column(rows, index) && width <= desired <= 24 ==> more
                == desired
            &&& table_layout::content_column(rows, index) && width <= 24 <= desired ==> more == 24
            &&& more >= width
        }),
{
}

} // verus!
