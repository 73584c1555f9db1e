//! Laying out a table for a terminal: as a box with one column per table column
//! where that is readable, and otherwise as label and value pairs, row by row.

use vstd::prelude::*;

use crate::spans;
use crate::spans::Span;
#[allow(unused_imports)]
use crate::spans::SpanView;
use crate::text;

verus! {

/// One table cell: its lines of styled text.
#[derive(Debug)]
pub struct TableCell {
    pub lines: Vec<Vec<Span>>,
}

/// A cell by the pieces of its lines.
pub type CellView = Seq<Seq<SpanView>>;

/// The texts of lines.
pub open spec fn texts(lines: Seq<Seq<SpanView>>) -> Seq<Seq<char>> {
    lines.map_values(|l: Seq<SpanView>| spans::line_text(l))
}

/// The views of the cells of a row.
pub open spec fn row_view(row: Seq<TableCell>) -> Seq<CellView> {
    row.map_values(|c: TableCell| spans::lines_view(c.lines@))
}

/// The views of the rows of a table. A cell is viewed as its lines.
pub open spec fn rows_view(rows: Seq<Vec<TableCell>>) -> Seq<Seq<CellView>> {
    rows.map_values(|r: Vec<TableCell>| row_view(r@))
}

/// The lines of a cell as one text.
pub open spec fn plain(cell: CellView) -> Seq<char> {
    text::join(texts(cell), "\n"@)
}

/// The widest of the first `n` lines.
pub open spec fn widest(lines: Seq<Seq<SpanView>>, n: int) -> int
    decreases n,
{
    if n <= 0 {
        0
    } else {
        let w = spans::line_width(lines[n - 1]) as int;
        if w > widest(lines, n - 1) {
            w
        } else {
            widest(lines, n - 1)
        }
    }
}

/// The width of a cell: that of its widest line.
pub open spec fn cell_width(cell: CellView) -> int {
    widest(cell, cell.len() as int)
}

/// The trimmed text of a cell in ASCII lower case.
pub open spec fn header_key(cell: CellView) -> Seq<char> {
    text::ascii_lower(text::trim(plain(cell)))
}

impl TableCell {
    fn line_texts(&self) -> (r: Vec<String>)
        ensures
            text::string_views(r@) == texts(spans::lines_view(self.lines@)),
    {
        let ghost all = texts(spans::lines_view(self.lines@));
        let mut r: Vec<String> = Vec::new();
        let mut i: usize = 0;
        while i < self.lines.len()
            invariant
                i <= self.lines.len(),
                all == texts(spans::lines_view(self.lines@)),
                r@.len() == i,
                forall|k: int| 0 <= k < i ==> (#[trigger] r@[k])@ == all[k],
            decreases self.lines.len() - i,
        {
            r.push(spans::text_of_line(self.lines[i].as_slice()));
            i = i + 1;
        }
        assert(text::string_views(r@) =~= all);
        r
    }

    /// The lines of the cell, with line breaks between them.
    pub fn plain_text(&self) -> (r: String)
        ensures
            r@ == plain(spans::lines_view(self.lines@)),
    {
        let parts = self.line_texts();
        text::join_strings(parts.as_slice(), "\n")
    }

    /// The text of the cell without surrounding white space.
    pub fn trimmed_plain_text(&self) -> (r: String)
        ensures
            r@ == text::trim(plain(spans::lines_view(self.lines@))),
    {
        let p = self.plain_text();
        text::trim_str(p.as_str())
    }

    /// Whether the cell holds nothing but white space.
    pub fn is_blank(&self) -> (r: bool)
        ensures
            r == (text::trim(plain(spans::lines_view(self.lines@))).len() == 0),
    {
        let p = text::chars_of(self.plain_text().as_str());
        text::is_blank(p.as_slice())
    }

    /// The width of the widest line.
    pub fn width(&self) -> (r: usize)
        ensures
            r == cell_width(spans::lines_view(self.lines@)),
    {
        let mut best: usize = 0;
        let mut i: usize = 0;
        while i < self.lines.len()
            invariant
                i <= self.lines.len(),
                best == widest(spans::lines_view(self.lines@), i as int),
            decreases self.lines.len() - i,
        {
            let w = spans::width_of_line(self.lines[i].as_slice());
            assert(spans::lines_view(self.lines@)[i as int] == spans::line_view(
                self.lines@[i as int]@,
            ));
            if w > best {
                best = w;
            }
            i = i + 1;
        }
        best
    }
}

fn normalized_header(cell: &TableCell) -> (r: Vec<char>)
    ensures
        r@ == header_key(spans::lines_view(cell.lines@)),
{
    let t = text::chars_of(cell.trimmed_plain_text().as_str());
    text::to_ascii_lower(t.as_slice())
}

// ---- what kind of column it is ----

/// The header text of column `index`, empty where the table has no such header.
pub open spec fn header_of(rows: Seq<Seq<CellView>>, index: int) -> Seq<char> {
    if rows.len() > 0 && index < rows[0].len() {
        header_key(rows[0][index])
    } else {
        Seq::empty()
    }
}

/// The headers that mark a column of row numbers.
pub open spec fn is_index_header(h: Seq<char>) -> bool {
    h == "#"@ || h == "id"@ || h == "idx"@ || h == "index"@ || h == "row"@
}

/// Whether a cell is empty or holds digits only.
pub open spec fn is_number_cell(cell: CellView) -> bool {
    let t = text::trim(plain(cell));
    forall|i: int| 0 <= i < t.len() ==> text::is_ascii_digit(#[trigger] t[i])
}

/// Whether column `index` numbers the rows: by its header, or because each body cell
/// that is not empty holds digits only.
pub open spec fn index_column(rows: Seq<Seq<CellView>>, index: int) -> bool {
    is_index_header(header_of(rows, index)) || forall|k: int|
        1 <= k < rows.len() && index < (#[trigger] rows[k]).len() ==> is_number_cell(
            rows[k][index],
        )
}

/// Whether a header names content that needs room.
pub open spec fn is_content_header(h: Seq<char>) -> bool {
    text::has_sub(h, "link"@) || text::has_sub(h, "url"@) || text::has_sub(h, "code"@)
        || text::has_sub(h, "sample"@) || text::has_sub(h, "content"@) || text::has_sub(
        h,
        "description"@,
    ) || text::has_sub(h, "summary"@) || text::has_sub(h, "expectation"@) || text::has_sub(
        h,
        "notes"@,
    )
}

/// Whether a text looks like a link or like code.
pub open spec fn is_code_like(t: Seq<char>) -> bool {
    text::has_sub(t, "://"@) || text::has_sub(t, "::"@) || text::has_sub(t, "=>"@)
        || text::has_sub(t, "->"@) || t.contains('`') || t.contains('{') || t.contains('}')
        || t.contains('(') || t.contains(')')
}

/// Whether column `index` holds content that needs room: by its header, or because a
/// body cell looks like a link or code or is wide.
pub open spec fn content_column(rows: Seq<Seq<CellView>>, index: int) -> bool {
    is_content_header(header_of(rows, index)) || exists|k: int|
        1 <= k < rows.len() && index < (#[trigger] rows[k]).len() && (is_code_like(
            plain(rows[k][index]),
        ) || cell_width(rows[k][index]) > 24)
}

/// Characters whose width terminals disagree on.
pub open spec fn is_risky(c: char) -> bool {
    c == '\u{fe0f}' || c == '\u{200d}' || '\u{1f300}' <= c <= '\u{1faff}'
}

/// Whether a text holds a character whose width terminals disagree on.
pub open spec fn has_risky(t: Seq<char>) -> bool {
    exists|i: int| 0 <= i < t.len() && is_risky(#[trigger] t[i])
}

/// Whether a row holds a risky cell.
pub open spec fn risky_row(row: Seq<CellView>) -> bool {
    exists|j: int| 0 <= j < row.len() && has_risky(plain(#[trigger] row[j]))
}

/// Whether some cell of the table holds a risky character.
pub open spec fn width_risk(rows: Seq<Seq<CellView>>) -> bool {
    exists|k: int| 0 <= k < rows.len() && risky_row(#[trigger] rows[k])
}

fn header_chars(rows: &[Vec<TableCell>], index: usize) -> (r: Vec<char>)
    ensures
        r@ == header_of(rows_view(rows@), index as int),
{
    if rows.len() > 0 && index < rows[0].len() {
        assert(rows_view(rows@)[0] == row_view(rows@[0]@));
        assert(row_view(rows@[0]@)[index as int] == spans::lines_view(
            rows@[0]@[index as int].lines@,
        ));
        normalized_header(&rows[0][index])
    } else {
        proof {
            if rows.len() > 0 {
                assert(rows_view(rows@)[0].len() == rows@[0]@.len());
            }
        }
        let r: Vec<char> = Vec::new();
        assert(r@ =~= Seq::<char>::empty());
        r
    }
}

/// Decides `is_index_header`.
pub fn is_index_header_text(h: &[char]) -> (r: bool)
    ensures
        r == is_index_header(h@),
{
    text::eq_str(h, "#") || text::eq_str(h, "id") || text::eq_str(h, "idx") || text::eq_str(
        h,
        "index",
    ) || text::eq_str(h, "row")
}

fn is_number_text(t: &[char]) -> (r: bool)
    ensures
        r == (forall|i: int| 0 <= i < t@.len() ==> text::is_ascii_digit(#[trigger] t@[i])),
{
    let mut i: usize = 0;
    while i < t.len()
        invariant
            i <= t.len(),
            forall|j: int| 0 <= j < i ==> text::is_ascii_digit(#[trigger] t@[j]),
        decreases t.len() - i,
    {
        if !('0' <= t[i] && t[i] <= '9') {
            assert(!text::is_ascii_digit(t@[i as int]));
            return false;
        }
        i = i + 1;
    }
    true
}

/// Whether column `index` numbers the rows.
pub fn is_index_column(rows: &[Vec<TableCell>], index: usize) -> (r: bool)
    ensures
        r == index_column(rows_view(rows@), index as int),
{
    let ghost v = rows_view(rows@);
    let header = header_chars(rows, index);
    if is_index_header_text(header.as_slice()) {
        return true;
    }
    if rows.len() == 0 {
        return true;
    }
    let mut k: usize = 1;
    while k < rows.len()
        invariant
            1 <= k <= rows.len(),
            v == rows_view(rows@),
            !is_index_header(header_of(v, index as int)),
            forall|j: int|
                1 <= j < k && index < (#[trigger] v[j]).len() ==> is_number_cell(
                    v[j][index as int],
                ),
        decreases rows.len() - k,
    {
        assert(v[k as int] == row_view(rows@[k as int]@));
        if index < rows[k].len() {
            assert(v[k as int][index as int] == spans::lines_view(
                rows@[k as int]@[index as int].lines@,
            ));
            let t = text::chars_of(rows[k][index].trimmed_plain_text().as_str());
            if !is_number_text(t.as_slice()) {
                assert(!is_number_cell(v[k as int][index as int]));
                return false;
            }
        }
        k = k + 1;
    }
    true
}

fn is_content_header_text(h: &[char]) -> (r: bool)
    ensures
        r == is_content_header(h@),
{
    text::contains_str(h, "link") || text::contains_str(h, "url") || text::contains_str(h, "code")
        || text::contains_str(h, "sample") || text::contains_str(h, "content")
        || text::contains_str(h, "description") || text::contains_str(h, "summary")
        || text::contains_str(h, "expectation") || text::contains_str(h, "notes")
}

fn is_url_or_code_like(cell: &TableCell) -> (r: bool)
    ensures
        r == is_code_like(plain(spans::lines_view(cell.lines@))),
{
    let p = text::chars_of(cell.plain_text().as_str());
    let t = p.as_slice();
    text::contains_str(t, "://") || text::contains_str(t, "::") || text::contains_str(t, "=>")
        || text::contains_str(t, "->") || text::contains_char(t, '`') || text::contains_char(t, '{')
        || text::contains_char(t, '}') || text::contains_char(t, '(') || text::contains_char(
        t,
        ')',
    )
}

/// Whether column `index` holds content that needs room.
pub fn is_content_heavy_column(rows: &[Vec<TableCell>], index: usize) -> (r: bool)
    ensures
        r == content_column(rows_view(rows@), index as int),
{
    let ghost v = rows_view(rows@);
    let header = header_chars(rows, index);
    if is_content_header_text(header.as_slice()) {
        return true;
    }
    if rows.len() == 0 {
        return false;
    }
    let mut k: usize = 1;
    while k < rows.len()
        invariant
            1 <= k <= rows.len(),
            v == rows_view(rows@),
            !is_content_header(header_of(v, index as int)),
            forall|j: int|
                1 <= j < k && index < (#[trigger] v[j]).len() ==> !(is_code_like(
                    plain(v[j][index as int]),
                ) || cell_width(v[j][index as int]) > 24),
        decreases rows.len() - k,
    {
        assert(v[k as int] == row_view(rows@[k as int]@));
        if index < rows[k].len() {
            assert(v[k as int][index as int] == spans::lines_view(
                rows@[k as int]@[index as int].lines@,
            ));
            if is_url_or_code_like(&rows[k][index]) || rows[k][index].width() > 24 {
                return true;
            }
        }
        k = k + 1;
    }
    false
}

fn has_risky_char(t: &[char]) -> (r: bool)
    ensures
        r == has_risky(t@),
{
    let mut i: usize = 0;
    while i < t.len()
        invariant
            i <= t.len(),
            forall|j: int| 0 <= j < i ==> !is_risky(#[trigger] t@[j]),
        decreases t.len() - i,
    {
        let c = t[i];
        if c == '\u{fe0f}' || c == '\u{200d}' || ('\u{1f300}' <= c && c <= '\u{1faff}') {
            assert(is_risky(t@[i as int]));
            return true;
        }
        i = i + 1;
    }
    false
}

/// Whether some cell holds a character whose width terminals disagree on.
pub fn has_width_risk_chars(rows: &[Vec<TableCell>]) -> (r: bool)
    ensures
        r == width_risk(rows_view(rows@)),
{
    let ghost v = rows_view(rows@);
    let mut k: usize = 0;
    while k < rows.len()
        invariant
            k <= rows.len(),
            v == rows_view(rows@),
            forall|j: int| 0 <= j < k ==> !risky_row(#[trigger] v[j]),
        decreases rows.len() - k,
    {
        assert(v[k as int] == row_view(rows@[k as int]@));
        let row = &rows[k];
        let mut j: usize = 0;
        while j < row.len()
            invariant
                j <= row.len(),
                k < rows.len(),
                *row == rows@[k as int],
                v == rows_view(rows@),
                v[k as int] == row_view(row@),
                forall|i: int| 0 <= i < j ==> !has_risky(plain(#[trigger] v[k as int][i])),
            decreases row.len() - j,
        {
            assert(v[k as int][j as int] == spans::lines_view(row@[j as int].lines@));
            let t = text::chars_of(row[j].plain_text().as_str());
            if has_risky_char(t.as_slice()) {
                assert(risky_row(v[k as int]));
                return true;
            }
            j = j + 1;
        }
        k = k + 1;
    }
    false
}

// ---- column widths ----

/// One column grows by one where it is below its target and something is left.
pub open spec fn grow_one(w: Seq<int>, left: int, targets: Seq<int>, i: int) -> (Seq<int>, int) {
    if left > 0 && w[i] < targets[i] {
        (w.update(i, w[i] + 1), left - 1)
    } else {
        (w, left)
    }
}

/// The columns from `i` on, each grown once, from left to right.
pub open spec fn grow_round(w: Seq<int>, left: int, targets: Seq<int>, i: int) -> (Seq<int>, int)
    decreases w.len() - i,
{
    if i < 0 || i >= w.len() {
        (w, left)
    } else {
        let next = grow_one(w, left, targets, i);
        grow_round(next.0, next.1, targets, i + 1)
    }
}

/// Growing the columns round by round until nothing is left or every target is met.
pub open spec fn grown(w: Seq<int>, left: int, targets: Seq<int>) -> (Seq<int>, int)
    decreases left,
    via grown_decreases
{
    if left <= 0 {
        (w, left)
    } else {
        let next = grow_round(w, left, targets, 0);
        if next.1 == left {
            (w, left)
        } else {
            grown(next.0, next.1, targets)
        }
    }
}

/// The sum of the first `n` widths.
pub open spec fn sum_of(w: Seq<int>, n: int) -> int
    decreases n,
{
    if n <= 0 {
        0
    } else {
        sum_of(w, n - 1) + w[n - 1]
    }
}

proof fn lemma_sum_update(w: Seq<int>, i: int, x: int, n: int)
    requires
        0 <= i < w.len(),
        n <= w.len(),
    ensures
        sum_of(w.update(i, x), n) == sum_of(w, n) + if i < n {
            x - w[i]
        } else {
            0
        },
    decreases n,
{
    if n > 0 {
        lemma_sum_update(w, i, x, n - 1);
    }
}

proof fn lemma_grow_round(w: Seq<int>, left: int, targets: Seq<int>, i: int)
    requires
        0 <= i <= w.len(),
        targets.len() >= w.len(),
        left >= 0,
    ensures
        ({
            let r = grow_round(w, left, targets, i);
            &&& r.0.len() == w.len()
            &&& 0 <= r.1 <= left
            &&& sum_of(r.0, w.len() as int) + r.1 == sum_of(w, w.len() as int) + left
            &&& forall|k: int|
                0 <= k < w.len() ==> w[k] <= #[trigger] r.0[k] && (r.0[k] == w[k] || r.0[k]
                    <= targets[k])
            &&& r.1 == left ==> r.0 == w && (left > 0 ==> forall|k: int|
                i <= k < w.len() ==> w[k] >= targets[k])
        }),
    decreases w.len() - i,
{
    if i < w.len() {
        let next = grow_one(w, left, targets, i);
        lemma_grow_round(next.0, next.1, targets, i + 1);
        if left > 0 && w[i] < targets[i] {
            lemma_sum_update(w, i, w[i] + 1, w.len() as int);
        }
        let r = grow_round(w, left, targets, i);
        assert forall|k: int| 0 <= k < w.len() implies w[k] <= #[trigger] r.0[k] && (r.0[k] == w[k]
            || r.0[k] <= targets[k]) by {
            assert(next.0[k] <= r.0[k]);
        }
    }
}

#[via_fn]
proof fn grown_decreases(w: Seq<int>, left: int, targets: Seq<int>) {
    if left > 0 {
        lemma_round_left(w, left, targets, 0);
    }
}

proof fn lemma_round_left(w: Seq<int>, left: int, targets: Seq<int>, i: int)
    requires
        left >= 0,
    ensures
        0 <= grow_round(w, left, targets, i).1 <= left,
    decreases w.len() - i,
{
    if 0 <= i < w.len() {
        let next = grow_one(w, left, targets, i);
        lemma_round_left(next.0, next.1, targets, i + 1);
    }
}

proof fn lemma_round_is_fair(w: Seq<int>, left: int, targets: Seq<int>, i: int)
    requires
        0 <= i <= w.len(),
        targets.len() >= w.len(),
        left >= 0,
    ensures
        ({
            let r = grow_round(w, left, targets, i);
            &&& r.0.len() == w.len()
            &&& r.1 >= 0
            &&& forall|k: int| 0 <= k < i ==> #[trigger] r.0[k] == w[k]
            &&& forall|k: int|
                i <= k < w.len() ==> w[k] <= #[trigger] r.0[k] <= w[k] + 1 && (left == 0 ==> r.0[k]
                    == w[k]) && (r.1 > 0 && w[k] < targets[k] ==> r.0[k] == w[k] + 1)
            &&& forall|a: int, b: int|
                i <= a < b < w.len() && w[a] < targets[a] && w[b] < targets[b] ==> #[trigger] r.0[a]
                    - w[a] >= #[trigger] r.0[b] - w[b]
        }),
    decreases w.len() - i,
{
    if i < w.len() {
        let next = grow_one(w, left, targets, i);
        lemma_round_is_fair(next.0, next.1, targets, i + 1);
        let r = grow_round(w, left, targets, i);
        assert(r.0[i] == next.0[i]);
        assert forall|k: int| i <= k < w.len() implies w[k] <= #[trigger] r.0[k] <= w[k] + 1 && (left
            == 0 ==> r.0[k] == w[k]) && (r.1 > 0 && w[k] < targets[k] ==> r.0[k] == w[k] + 1) by {
            if k == i {
                if r.1 > 0 && left == 0 {
                    lemma_round_left(next.0, next.1, targets, i + 1);
                }
            } else {
                assert(next.0[k] == w[k]);
            }
        }
        assert forall|a: int, b: int|
            i <= a < b < w.len() && w[a] < targets[a] && w[b] < targets[b] implies #[trigger] r.0[a]
            - w[a] >= #[trigger] r.0[b] - w[b] by {
            assert(next.0[b] == w[b]);
            if a > i {
                assert(next.0[a] == w[a]);
            }
        }
        if r.1 > 0 {
            lemma_round_left(next.0, next.1, targets, i + 1);
        }
    }
}

/// Whether two columns that are both still below their targets were grown alike: by the same
/// amount, or the left one by one more.
pub open spec fn grown_alike(before: Seq<int>, after: Seq<int>, targets: Seq<int>, i: int, j: int)
    -> bool {
    after[i] < targets[i] && after[j] < targets[j] ==> after[i] - before[i] == after[j] - before[j]
        || after[i] - before[i] == after[j] - before[j] + 1
}

/// Growing spends exactly what it hands out, never shrinks a column, never grows one past its
/// target, leaves something over only where every target is met, and grows any two columns that
/// stay below their targets alike.
pub proof fn growing_is_fair(w: Seq<int>, left: int, targets: Seq<int>)
    requires
        targets.len() >= w.len(),
        left >= 0,
    ensures
        ({
            let r = grown(w, left, targets);
            &&& r.0.len() == w.len()
            &&& 0 <= r.1 <= left
            &&& sum_of(r.0, w.len() as int) + r.1 == sum_of(w, w.len() as int) + left
            &&& forall|k: int|
                0 <= k < w.len() ==> w[k] <= #[trigger] r.0[k] && (r.0[k] == w[k] || r.0[k]
                    <= targets[k])
            &&& r.1 > 0 ==> forall|k: int| 0 <= k < w.len() ==> #[trigger] r.0[k] >= targets[k]
            &&& forall|i: int, j: int|
                0 <= i < j < w.len() ==> #[trigger] grown_alike(w, r.0, targets, i, j)
        }),
    decreases left,
{
    if left > 0 {
        let next = grow_round(w, left, targets, 0);
        lemma_grow_round(w, left, targets, 0);
        lemma_round_is_fair(w, left, targets, 0);
        if next.1 != left {
            growing_is_fair(next.0, next.1, targets);
            let r = grown(w, left, targets);
            assert forall|i: int, j: int| 0 <= i < j < w.len() implies #[trigger] grown_alike(
                w,
                r.0,
                targets,
                i,
                j,
            ) by {
                assert(grown_alike(next.0, r.0, targets, i, j));
                assert(w[i] <= next.0[i] <= r.0[i] && w[j] <= next.0[j] <= r.0[j]);
                assert(w[i] < targets[i] && w[j] < targets[j] ==> next.0[i] - w[i] >= next.0[j]
                    - w[j]);
            }
            assert forall|k: int| 0 <= k < w.len() implies w[k] <= #[trigger] r.0[k] && (r.0[k]
                == w[k] || r.0[k] <= targets[k]) by {
                assert(next.0[k] <= r.0[k]);
            }
        }
    }
}

/// Column widths as mathematical integers.
pub open spec fn ints(w: Seq<usize>) -> Seq<int> {
    w.map_values(|x: usize| x as int)
}

/// Grows the columns round by round towards their targets while something remains.
pub fn grow_columns_to_targets(widths: &mut Vec<usize>, remaining: &mut usize, targets: &[usize])
    requires
        old(widths)@.len() <= targets@.len(),
    ensures
        (ints(final(widths)@), *final(remaining) as int) == grown(
            ints(old(widths)@),
            *old(remaining) as int,
            ints(targets@),
        ),
        final(widths)@.len() == old(widths)@.len(),
{
    let ghost t = ints(targets@);
    let ghost n = widths@.len();
    let mut going = true;
    while going && *remaining > 0
        invariant
            widths@.len() == n,
            targets@.len() >= n,
            t == ints(targets@),
            going ==> grown(ints(old(widths)@), *old(remaining) as int, t) == grown(
                ints(widths@),
                *remaining as int,
                t,
            ),
            !going ==> grown(ints(old(widths)@), *old(remaining) as int, t) == (
                ints(widths@),
                *remaining as int,
            ),
        decreases *remaining, (if going { 1int } else { 0int }),
    {
        let ghost w0 = ints(widths@);
        let before: usize = *remaining;
        proof {
            lemma_round_left(w0, before as int, t, 0);
        }
        let mut i: usize = 0;
        while i < widths.len()
            invariant
                i <= widths.len(),
                widths@.len() == n,
                targets@.len() >= n,
                t == ints(targets@),
                *remaining <= before,
                grow_round(w0, before as int, t, 0) == grow_round(
                    ints(widths@),
                    *remaining as int,
                    t,
                    i as int,
                ),
            decreases widths.len() - i,
        {
            let ghost w1 = ints(widths@);
            assert(w1[i as int] == widths@[i as int]);
            assert(t[i as int] == targets@[i as int]);
            if *remaining > 0 && widths[i] < targets[i] {
                let grown_width = widths[i] + 1;
                widths.set(i, grown_width);
                assert(ints(widths@) =~= w1.update(i as int, w1[i as int] + 1));
                *remaining = *remaining - 1;
            }
            i = i + 1;
        }
        if *remaining == before {
            proof {
                lemma_round_is_idle(w0, before as int, t, 0);
            }
            going = false;
        }
    }
}

/// A round that hands nothing out changes nothing.
proof fn lemma_round_is_idle(w: Seq<int>, left: int, targets: Seq<int>, i: int)
    requires
        left > 0,
        grow_round(w, left, targets, i).1 == left,
    ensures
        grow_round(w, left, targets, i).0 == w,
    decreases w.len() - i,
{
    if 0 <= i < w.len() {
        let next = grow_one(w, left, targets, i);
        lemma_round_left(next.0, next.1, targets, i + 1);
        if next.1 == left {
            lemma_round_is_idle(w, left, targets, i + 1);
        }
    }
}

/// The smaller of two integers.
pub open spec fn min_of(a: int, b: int) -> int {
    if a <= b {
        a
    } else {
        b
    }
}

/// The larger of two integers.
pub open spec fn max_of(a: int, b: int) -> int {
    if a >= b {
        a
    } else {
        b
    }
}

/// The first target of a column: its desired width up to a compact limit.
pub open spec fn basic_target(rows: Seq<Seq<CellView>>, desired: int, index: int) -> int {
    let h = header_of(rows, index);
    let compact = if index_column(rows, index) || h == "icon"@ || h == "emoji"@ {
        4int
    } else {
        6int
    };
    max_of(min_of(desired, compact), 3)
}

/// The second target of a column: more room for content that needs it.
pub open spec fn content_target(
    rows: Seq<Seq<CellView>>,
    desired: int,
    width: int,
    index: int,
) -> int {
    if content_column(rows, index) {
        max_of(min_of(desired, 24), width)
    } else {
        width
    }
}

/// What is left of the available width for cell contents, and may be negative.
pub open spec fn content_room(available: int, columns: int, padding: int) -> int {
    available - (columns + 1) - padding * 2 * columns
}

/// The column widths of a box table: three columns each, then grown to the basic
/// targets, to the content targets and to the desired widths, as far as the room goes.
pub open spec fn allocated(
    rows: Seq<Seq<CellView>>,
    desired: Seq<int>,
    available: int,
    padding: int,
) -> Option<Seq<int>> {
    let columns = desired.len() as int;
    let room = content_room(available, columns, padding);
    if room < 3 * columns {
        None
    } else {
        let start = Seq::new(desired.len(), |i: int| 3int);
        let basic = Seq::new(desired.len(), |i: int| basic_target(rows, desired[i], i));
        let first = grown(start, room - 3 * columns, basic);
        let content = Seq::new(
            desired.len(),
            |i: int| content_target(rows, desired[i], first.0[i], i),
        );
        let second = grown(first.0, first.1, content);
        Some(grown(second.0, second.1, desired).0)
    }
}

/// A box table never needs more than the available width, and gives each column at
/// least three columns.
pub proof fn allocation_fits(
    rows: Seq<Seq<CellView>>,
    desired: Seq<int>,
    available: int,
    padding: int,
)
    requires
        allocated(rows, desired, available, padding) is Some,
    ensures
        ({
            let w = allocated(rows, desired, available, padding)->0;
            &&& w.len() == desired.len()
            &&& total_width(w, padding) <= available
            &&& forall|i: int| 0 <= i < w.len() ==> #[trigger] w[i] >= 3
        }),
{
    let columns = desired.len() as int;
    let room = content_room(available, columns, padding);
    let start = Seq::new(desired.len(), |i: int| 3int);
    let basic = Seq::new(desired.len(), |i: int| basic_target(rows, desired[i], i));
    let first = grown(start, room - 3 * columns, basic);
    let content = Seq::new(
        desired.len(),
        |i: int| content_target(rows, desired[i], first.0[i], i),
    );
    let second = grown(first.0, first.1, content);
    let third = grown(second.0, second.1, desired);
    growing_is_fair(start, room - 3 * columns, basic);
    growing_is_fair(first.0, first.1, content);
    growing_is_fair(second.0, second.1, desired);
    lemma_sum_threes(start, columns);
    assert forall|i: int| 0 <= i < third.0.len() implies #[trigger] third.0[i] >= 3 by {
        assert(start[i] <= first.0[i]);
        assert(first.0[i] <= second.0[i]);
        assert(second.0[i] <= third.0[i]);
    }
}

proof fn lemma_sum_threes(w: Seq<int>, n: int)
    requires
        0 <= n <= w.len(),
        forall|i: int| 0 <= i < w.len() ==> w[i] == 3,
    ensures
        sum_of(w, n) == 3 * n,
    decreases n,
{
    if n > 0 {
        lemma_sum_threes(w, n - 1);
    }
}

/// The width of a box table with its borders and padding.
pub open spec fn total_width(w: Seq<int>, padding: int) -> int {
    sum_of(w, w.len() as int) + w.len() + 1 + padding * 2 * w.len()
}

/// The product of two numbers.
pub(crate) fn product(a: usize, b: usize) -> (r: u128)
    ensures
        r == a * b,
        r * 2 == a * 2 * b,
{
    proof {
        assert(0 <= a * b <= 0xffff_ffff_ffff_ffff * 0xffff_ffff_ffff_ffff) by (nonlinear_arith)
            requires
                0 <= a <= 0xffff_ffff_ffff_ffff,
                0 <= b <= 0xffff_ffff_ffff_ffff,
        ;
        assert(a * 2 * b == (a * b) * 2) by (nonlinear_arith);
    }
    (a as u128) * (b as u128)
}

/// The widths of the columns of a box table, or nothing where it cannot fit.
pub fn allocate_table_widths(
    rows: &[Vec<TableCell>],
    desired_widths: &[usize],
    available_width: usize,
    padding: usize,
) -> (r: Option<Vec<usize>>)
    ensures
        match r {
            Some(w) => allocated(
                rows_view(rows@),
                ints(desired_widths@),
                available_width as int,
                padding as int,
            ) == Some(ints(w@)) && w@.len() == desired_widths@.len(),
            None => allocated(
                rows_view(rows@),
                ints(desired_widths@),
                available_width as int,
                padding as int,
            ) is None,
        },
{
    let ghost v = rows_view(rows@);
    let ghost d = ints(desired_widths@);
    let count = desired_widths.len();
    let pads: u128 = product(padding, count);
    if pads > (available_width as u128) {
        return None;
    }
    let needed: u128 = (count as u128) + 1 + 2 * pads + 3 * (count as u128);
    proof {
        assert(content_room(available_width as int, count as int, padding as int) - 3 * count
            == available_width - needed);
    }
    if (available_width as u128) < needed {
        return None;
    }
    let mut remaining: usize = ((available_width as u128) - needed) as usize;
    let ghost room_left = remaining as int;
    let mut widths: Vec<usize> = Vec::new();
    let mut basic: Vec<usize> = Vec::new();
    let mut i: usize = 0;
    while i < count
        invariant
            i <= count,
            count == desired_widths@.len(),
            v == rows_view(rows@),
            d == ints(desired_widths@),
            widths@.len() == i,
            basic@.len() == i,
            forall|k: int| 0 <= k < i ==> widths@[k] == 3,
            forall|k: int| 0 <= k < i ==> basic@[k] == basic_target(v, d[k], k),
        decreases count - i,
    {
        let desired = desired_widths[i];
        let header = header_chars(rows, i);
        let compact: usize = if is_index_column(rows, i) || text::eq_str(header.as_slice(), "icon")
            || text::eq_str(header.as_slice(), "emoji") {
            4
        } else {
            6
        };
        let capped: usize = if desired <= compact {
            desired
        } else {
            compact
        };
        basic.push(
            if capped >= 3 {
                capped
            } else {
                3
            },
        );
        widths.push(3);
        i = i + 1;
    }
    proof {
        assert(ints(widths@) =~= Seq::new(d.len(), |i: int| 3int));
        assert(ints(basic@) =~= Seq::new(d.len(), |i: int| basic_target(v, d[i], i)));
    }
    grow_columns_to_targets(&mut widths, &mut remaining, basic.as_slice());
    let ghost first = ints(widths@);
    let mut content: Vec<usize> = Vec::new();
    let mut i: usize = 0;
    while i < count
        invariant
            i <= count,
            count == desired_widths@.len(),
            widths@.len() == count,
            v == rows_view(rows@),
            d == ints(desired_widths@),
            first == ints(widths@),
            content@.len() == i,
            forall|k: int| 0 <= k < i ==> content@[k] == content_target(v, d[k], first[k], k),
        decreases count - i,
    {
        let desired = desired_widths[i];
        let width = widths[i];
        if is_content_heavy_column(rows, i) {
            let capped: usize = if desired <= 24 {
                desired
            } else {
                24
            };
            content.push(
                if capped >= width {
                    capped
                } else {
                    width
                },
            );
        } else {
            content.push(width);
        }
        i = i + 1;
    }
    assert(ints(content@) =~= Seq::new(d.len(), |i: int| content_target(v, d[i], first[i], i)));
    grow_columns_to_targets(&mut widths, &mut remaining, content.as_slice());
    grow_columns_to_targets(&mut widths, &mut remaining, desired_widths);
    Some(widths)
}

} // verus!
