//! Markdown table source: finding the rows of pipe tables in a text, splitting
//! them into cells, and rewriting them so that a table ends where its rows end
//! and a pipe inside inline code does not split a cell.

use vstd::prelude::*;

use crate::text;

verus! {

/// The length of the run of `c` that starts at `i`.
pub open spec fn run_len(s: Seq<char>, i: int, c: char) -> int
    decreases s.len() - i,
{
    if 0 <= i < s.len() && s[i] == c {
        1 + run_len(s, i + 1, c)
    } else {
        0
    }
}

pub proof fn lemma_run_len(s: Seq<char>, i: int, c: char)
    requires
        0 <= i <= s.len(),
    ensures
        0 <= run_len(s, i, c) <= s.len() - i,
        forall|j: int| i <= j < i + run_len(s, i, c) ==> s[j] == c,
        i + run_len(s, i, c) < s.len() ==> s[i + run_len(s, i, c)] != c,
    decreases s.len() - i,
{
    if i < s.len() && s[i] == c {
        lemma_run_len(s, i + 1, c);
    }
}

/// Whether a run of backticks starts at `j`, looking no further left than `from`.
pub open spec fn starts_run(s: Seq<char>, from: int, j: int) -> bool {
    s[j] == '`' && (j == from || s[j - 1] != '`')
}

/// The first position from `j` on at which a run of exactly `n` backticks starts.
pub open spec fn closing_run(s: Seq<char>, from: int, j: int, n: int) -> Option<int>
    decreases s.len() - j,
{
    if j < 0 || j >= s.len() {
        None
    } else if starts_run(s, from, j) && run_len(s, j, '`') == n {
        Some(j)
    } else {
        closing_run(s, from, j + 1, n)
    }
}

pub proof fn lemma_closing_run(s: Seq<char>, from: int, j: int, n: int)
    requires
        0 <= from <= j,
        n >= 1,
    ensures
        match closing_run(s, from, j, n) {
            Some(k) => j <= k && k + n <= s.len() && run_len(s, k, '`') == n,
            None => true,
        },
    decreases s.len() - j,
{
    if j < s.len() {
        if starts_run(s, from, j) && run_len(s, j, '`') == n {
            lemma_run_len(s, j, '`');
        } else {
            lemma_closing_run(s, from, j + 1, n);
        }
    }
}

/// Inside a run nothing starts, so the search may go on behind it.
proof fn lemma_closing_skips_run(s: Seq<char>, from: int, j: int, k: int, n: int)
    requires
        0 <= from < j <= k <= s.len(),
        forall|i: int| j - 1 <= i < k ==> s[i] == '`',
    ensures
        closing_run(s, from, j, n) == closing_run(s, from, k, n),
    decreases k - j,
{
    if j < k {
        assert(s[j - 1] == '`');
        lemma_closing_skips_run(s, from, j + 1, k, n);
    }
}

/// The inline code spans of `s` from `i` on, as half-open position ranges with
/// their backtick delimiters. A backslash outside a span hides the next character;
/// a run of backticks with no closing run of the same length is plain text.
pub open spec fn code_spans(s: Seq<char>, i: int) -> Seq<(int, int)>
    decreases s.len() - i,
    via code_spans_decreases
{
    if i < 0 || i >= s.len() {
        Seq::empty()
    } else if s[i] == '\\' {
        code_spans(
            s,
            if i + 1 < s.len() {
                i + 2
            } else {
                s.len() as int
            },
        )
    } else if s[i] == '`' {
        let n = run_len(s, i, '`');
        match closing_run(s, i + n, i + n, n) {
            Some(k) => seq![(i, k + n)] + code_spans(s, k + n),
            None => code_spans(s, i + n),
        }
    } else {
        code_spans(s, i + 1)
    }
}

#[via_fn]
proof fn code_spans_decreases(s: Seq<char>, i: int) {
    if 0 <= i < s.len() && s[i] == '`' {
        lemma_run_len(s, i, '`');
        let n = run_len(s, i, '`');
        lemma_closing_run(s, i + n, i + n, n);
    }
}

/// Whether position `i` lies in one of the half-open ranges.
pub open spec fn in_ranges(i: int, ranges: Seq<(int, int)>) -> bool {
    exists|k: int| 0 <= k < ranges.len() && ranges[k].0 <= i < (#[trigger] ranges[k]).1
}

/// Whether position `i` of `s` lies in an inline code span.
pub open spec fn in_code(s: Seq<char>, i: int) -> bool {
    in_ranges(i, code_spans(s, 0))
}

/// Whether an odd number of backslashes stands directly before position `i`.
pub open spec fn escaped(s: Seq<char>, i: int) -> bool
    decreases i,
{
    0 < i <= s.len() && s[i - 1] == '\\' && !escaped(s, i - 1)
}

/// Whether the character at `i` is a pipe that ends a cell.
pub open spec fn is_cell_pipe(s: Seq<char>, i: int) -> bool {
    s[i] == '|' && !in_code(s, i) && !escaped(s, i)
}

/// Whether the character at `i` is a pipe inside inline code that is not escaped yet.
pub open spec fn is_raw_code_pipe(s: Seq<char>, i: int) -> bool {
    s[i] == '|' && in_code(s, i) && !escaped(s, i)
}

/// The cells of `s` when the current cell began at `start` and `i` is looked at next.
pub open spec fn cells_from(s: Seq<char>, start: int, i: int) -> Seq<Seq<char>>
    decreases s.len() - i,
{
    if i >= s.len() {
        seq![s.subrange(start, s.len() as int)]
    } else if is_cell_pipe(s, i) {
        seq![s.subrange(start, i)] + cells_from(s, i + 1, i + 1)
    } else {
        cells_from(s, start, i + 1)
    }
}

/// The pieces of `s` between the pipes that end cells.
pub open spec fn cells(s: Seq<char>) -> Seq<Seq<char>> {
    cells_from(s, 0, 0)
}

/// The characters of `s` from `i` on, with a backslash before each raw code pipe.
pub open spec fn escape_from(s: Seq<char>, i: int) -> Seq<char>
    decreases s.len() - i,
{
    if i >= s.len() {
        Seq::empty()
    } else if is_raw_code_pipe(s, i) {
        seq!['\\', s[i]] + escape_from(s, i + 1)
    } else {
        seq![s[i]] + escape_from(s, i + 1)
    }
}

/// A table row in which each pipe inside inline code is escaped.
pub open spec fn escaped_row(s: Seq<char>) -> Seq<char> {
    escape_from(s, 0)
}

/// The line without up to three leading spaces; a line with more has no fence.
pub open spec fn fence_text(s: Seq<char>) -> Option<Seq<char>> {
    if run_len(s, 0, ' ') <= 3 {
        Some(s.skip(run_len(s, 0, ' ')))
    } else {
        None
    }
}

/// The fence that a line opens: its marker and how often the marker stands there.
pub open spec fn opening_fence(s: Seq<char>) -> Option<(char, int)> {
    match fence_text(s) {
        None => None,
        Some(t) => if t.len() > 0 && (t[0] == '`' || t[0] == '~') && run_len(t, 0, t[0]) >= 3 {
            Some((t[0], run_len(t, 0, t[0])))
        } else {
            None
        },
    }
}

/// Whether a line closes the fence that `marker`, `count` times, opened.
pub open spec fn closes_fence(s: Seq<char>, marker: char, count: int) -> bool {
    match fence_text(s) {
        None => false,
        Some(t) => run_len(t, 0, marker) >= count && text::trim(
            t.skip(run_len(t, 0, marker)),
        ).len() == 0,
    }
}

/// Whether a line is indented code.
pub open spec fn is_indented_code(s: Seq<char>) -> bool {
    text::has_prefix(s, "    "@) || text::has_prefix(s, "\t"@)
}

/// Whether a line has the form of a table row: at least two cells.
pub open spec fn is_row(s: Seq<char>) -> bool {
    cells(text::trim(s)).len() > 1
}

/// `parts` without a blank first part and then without a blank last part.
pub open spec fn without_blank_ends(parts: Seq<Seq<char>>) -> Seq<Seq<char>> {
    let a = if parts.len() > 0 && text::trim(parts.first()).len() == 0 {
        parts.drop_first()
    } else {
        parts
    };
    if a.len() > 0 && text::trim(a.last()).len() == 0 {
        a.drop_last()
    } else {
        a
    }
}

/// How often `c` stands in `s`.
pub open spec fn count_char(s: Seq<char>, c: char) -> int
    decreases s.len(),
{
    if s.len() == 0 {
        0
    } else {
        count_char(s.drop_last(), c) + if s.last() == c {
            1int
        } else {
            0
        }
    }
}

/// Whether a cell consists of at least three dashes, with colons and spaces.
pub open spec fn is_delimiter_cell(cell: Seq<char>) -> bool {
    let t = text::trim(cell);
    count_char(t, '-') >= 3 && forall|i: int|
        0 <= i < t.len() ==> (#[trigger] t[i] == '-' || t[i] == ':' || t[i] == ' ')
}

/// Whether a line is the delimiter row of a table.
pub open spec fn is_delimiter_row(s: Seq<char>) -> bool {
    let parts = without_blank_ends(cells(text::trim(s)));
    parts.len() > 0 && forall|i: int| 0 <= i < parts.len() ==> is_delimiter_cell(#[trigger] parts[i])
}

/// The first index from `i` on that is no table row, or the number of lines.
pub open spec fn rows_end(lines: Seq<Seq<char>>, i: int) -> int
    decreases lines.len() - i,
{
    if 0 <= i < lines.len() && is_row(lines[i]) {
        rows_end(lines, i + 1)
    } else {
        i
    }
}

proof fn lemma_rows_end(lines: Seq<Seq<char>>, i: int)
    requires
        0 <= i <= lines.len(),
    ensures
        i <= rows_end(lines, i) <= lines.len(),
    decreases lines.len() - i,
{
    if i < lines.len() && is_row(lines[i]) {
        lemma_rows_end(lines, i + 1);
    }
}

/// The rewritten rows from `i` up to `end`.
pub open spec fn escaped_rows(lines: Seq<Seq<char>>, i: int, end: int) -> Seq<char>
    decreases end - i,
{
    if i >= end {
        Seq::empty()
    } else {
        escaped_rows(lines, i, end - 1) + escaped_row(lines[end - 1])
    }
}

/// What is put between a table that ends before line `end` and that line: a line
/// break where the line is not blank.
pub open spec fn table_gap(lines: Seq<Seq<char>>, end: int) -> Seq<char> {
    if end < lines.len() && text::trim(lines[end]).len() > 0 {
        seq!['\n']
    } else {
        Seq::empty()
    }
}

/// The rewritten text of the table whose header is line `i`.
pub open spec fn table_text(lines: Seq<Seq<char>>, i: int) -> Seq<char> {
    let end = rows_end(lines, i + 2);
    escaped_row(lines[i]) + lines[i + 1] + escaped_rows(lines, i + 2, end) + table_gap(lines, end)
}

/// The rewritten text of the lines from `i` on, inside the fence `fence` if there is one.
pub open spec fn normalized(lines: Seq<Seq<char>>, i: int, fence: Option<(char, int)>) -> Seq<char>
    decreases lines.len() - i,
    via normalized_decreases
{
    if i < 0 || i >= lines.len() {
        Seq::empty()
    } else {
        match fence {
            Some((marker, count)) => lines[i] + normalized(
                lines,
                i + 1,
                if closes_fence(lines[i], marker, count) {
                    None
                } else {
                    fence
                },
            ),
            None => if opening_fence(lines[i]) is Some {
                lines[i] + normalized(lines, i + 1, opening_fence(lines[i]))
            } else if is_indented_code(lines[i]) {
                lines[i] + normalized(lines, i + 1, None)
            } else if i + 1 < lines.len() && is_row(lines[i]) && is_delimiter_row(lines[i + 1]) {
                table_text(lines, i) + normalized(lines, rows_end(lines, i + 2), None)
            } else {
                lines[i] + normalized(lines, i + 1, None)
            },
        }
    }
}

#[via_fn]
proof fn normalized_decreases(lines: Seq<Seq<char>>, i: int, fence: Option<(char, int)>) {
    if 0 <= i && i + 1 < lines.len() {
        lemma_rows_end(lines, i + 2);
    }
}

fn repeated_len(s: &[char], start: usize, needle: char) -> (r: usize)
    requires
        start <= s@.len(),
    ensures
        r == run_len(s@, start as int, needle),
        r <= s@.len() - start,
{
    let mut i: usize = start;
    while i < s.len() && s[i] == needle
        invariant
            start <= i <= s.len(),
            run_len(s@, start as int, needle) == (i - start) + run_len(s@, i as int, needle),
        decreases s.len() - i,
    {
        i = i + 1;
    }
    i - start
}

/// The first position from `start` on at which a run of exactly `delimiter_len`
/// backticks starts.
fn find_closing_backtick_run(s: &[char], start: usize, delimiter_len: usize) -> (r: Option<usize>)
    requires
        start <= s@.len(),
        delimiter_len >= 1,
    ensures
        match r {
            Some(k) => closing_run(s@, start as int, start as int, delimiter_len as int) == Some(
                k as int,
            ) && start <= k && k + delimiter_len <= s@.len(),
            None => closing_run(s@, start as int, start as int, delimiter_len as int) is None,
        },
{
    let mut i: usize = start;
    while i < s.len()
        invariant
            start <= i <= s@.len(),
            i == start || i == s@.len() || s@[i as int] != '`' || s@[i - 1] != '`',
            closing_run(s@, start as int, start as int, delimiter_len as int) == closing_run(
                s@,
                start as int,
                i as int,
                delimiter_len as int,
            ),
        decreases s.len() - i,
    {
        if s[i] == '`' {
            let n = repeated_len(s, i, '`');
            proof {
                lemma_run_len(s@, i as int, '`');
            }
            if n == delimiter_len {
                return Some(i);
            }
            proof {
                lemma_closing_skips_run(s@, start as int, i + 1, i + n, delimiter_len as int);
            }
            i = i + n;
        } else {
            i = i + 1;
        }
    }
    None
}

/// The inline code spans of `s`.
fn inline_code_span_ranges(s: &[char]) -> (r: Vec<(usize, usize)>)
    ensures
        r@.map_values(|p: (usize, usize)| (p.0 as int, p.1 as int)) == code_spans(s@, 0),
{
    let mut ranges: Vec<(usize, usize)> = Vec::new();
    let ghost f = |p: (usize, usize)| (p.0 as int, p.1 as int);
    let mut i: usize = 0;
    assert(ranges@.map_values(f) + code_spans(s@, 0) =~= code_spans(s@, 0));
    while i < s.len()
        invariant
            i <= s.len(),
            f == (|p: (usize, usize)| (p.0 as int, p.1 as int)),
            ranges@.map_values(f) + code_spans(s@, i as int) == code_spans(s@, 0),
        decreases s.len() - i,
    {
        if s[i] == '\\' {
            if i + 1 < s.len() {
                i = i + 2;
            } else {
                i = s.len();
            }
        } else if s[i] == '`' {
            let n = repeated_len(s, i, '`');
            proof {
                lemma_run_len(s@, i as int, '`');
            }
            match find_closing_backtick_run(s, i + n, n) {
                Some(k) => {
                    let ghost before = ranges@;
                    ranges.push((i, k + n));
                    proof {
                        assert(ranges@.map_values(f) =~= before.map_values(f).push(
                            (i as int, k + n),
                        ));
                        assert(ranges@.map_values(f) + code_spans(s@, k + n) =~= before.map_values(
                            f,
                        ) + (seq![(i as int, k + n)] + code_spans(s@, k + n)));
                    }
                    i = k + n;
                },
                None => {
                    i = i + n;
                },
            }
        } else {
            i = i + 1;
        }
    }
    assert(ranges@.map_values(f) =~= code_spans(s@, 0));
    ranges
}

fn is_index_in_ranges(index: usize, ranges: &[(usize, usize)]) -> (r: bool)
    ensures
        r == in_ranges(
            index as int,
            ranges@.map_values(|p: (usize, usize)| (p.0 as int, p.1 as int)),
        ),
{
    let ghost f = |p: (usize, usize)| (p.0 as int, p.1 as int);
    let mut k: usize = 0;
    while k < ranges.len()
        invariant
            k <= ranges.len(),
            f == (|p: (usize, usize)| (p.0 as int, p.1 as int)),
            forall|j: int|
                0 <= j < k ==> !(ranges@.map_values(f)[j].0 <= index < (
                #[trigger] ranges@.map_values(f)[j]).1),
        decreases ranges.len() - k,
    {
        if ranges[k].0 <= index && index < ranges[k].1 {
            assert(ranges@.map_values(f)[k as int].0 <= index);
            return true;
        }
        k = k + 1;
    }
    false
}

fn is_backslash_escaped(s: &[char], index: usize) -> (r: bool)
    requires
        index <= s@.len(),
    ensures
        r == escaped(s@, index as int),
{
    let mut odd = false;
    let mut cursor: usize = index;
    while cursor > 0 && s[cursor - 1] == '\\'
        invariant
            cursor <= index <= s@.len(),
            escaped(s@, index as int) == (escaped(s@, cursor as int) != odd),
        decreases cursor,
    {
        odd = !odd;
        cursor = cursor - 1;
    }
    odd
}

/// The cells of a table row.
fn cell_sources(line: &[char]) -> (r: Vec<Vec<char>>)
    ensures
        text::char_views(r@) == cells(line@),
{
    let ranges = inline_code_span_ranges(line);
    let mut r: Vec<Vec<char>> = Vec::new();
    let mut start: usize = 0;
    let mut i: usize = 0;
    assert(text::char_views(r@) + cells_from(line@, 0, 0) =~= cells(line@));
    while i < line.len()
        invariant
            start <= i <= line.len(),
            ranges@.map_values(|p: (usize, usize)| (p.0 as int, p.1 as int)) == code_spans(
                line@,
                0,
            ),
            text::char_views(r@) + cells_from(line@, start as int, i as int) == cells(line@),
        decreases line.len() - i,
    {
        if line[i] == '|' && !is_index_in_ranges(i, ranges.as_slice()) && !is_backslash_escaped(
            line,
            i,
        ) {
            let ghost before = r@;
            r.push(text::sub_vec(line, start, i));
            proof {
                let cell = line@.subrange(start as int, i as int);
                assert(text::char_views(r@) =~= text::char_views(before).push(cell));
                assert(text::char_views(r@) + cells_from(line@, i + 1, i + 1)
                    =~= text::char_views(before) + (seq![cell] + cells_from(
                    line@,
                    i + 1,
                    i + 1,
                )));
            }
            start = i + 1;
        }
        i = i + 1;
    }
    let ghost before = r@;
    r.push(text::sub_vec(line, start, line.len()));
    assert(text::char_views(r@) =~= text::char_views(before).push(
        line@.subrange(start as int, line@.len() as int),
    ));
    assert(text::char_views(r@) =~= cells(line@));
    r
}

/// The cells of a table row: the pieces between its pipes, where a pipe that is
/// escaped or inside inline code belongs to its cell.
pub fn table_cell_sources(line: &str) -> (r: Vec<String>)
    ensures
        text::string_views(r@) == cells(line@),
{
    let chars = text::chars_of(line);
    let parts = cell_sources(chars.as_slice());
    let mut r: Vec<String> = Vec::new();
    let mut i: usize = 0;
    while i < parts.len()
        invariant
            i <= parts.len(),
            text::char_views(parts@) == cells(line@),
            text::string_views(r@) == cells(line@).take(i as int),
        decreases parts.len() - i,
    {
        let ghost before = r@;
        r.push(text::string_of(parts[i].as_slice()));
        proof {
            assert(text::char_views(parts@)[i as int] == parts@[i as int]@);
            assert(text::string_views(r@) =~= text::string_views(before).push(
                cells(line@)[i as int],
            ));
        }
        i = i + 1;
        assert(text::string_views(r@) =~= cells(line@).take(i as int));
    }
    assert(cells(line@).take(i as int) =~= cells(line@));
    r
}

fn escape_row(line: &[char]) -> (r: Vec<char>)
    ensures
        r@ == escaped_row(line@),
{
    let ranges = inline_code_span_ranges(line);
    let mut r: Vec<char> = Vec::new();
    let mut i: usize = 0;
    assert(r@ + escape_from(line@, 0) =~= escaped_row(line@));
    while i < line.len()
        invariant
            i <= line.len(),
            ranges@.map_values(|p: (usize, usize)| (p.0 as int, p.1 as int)) == code_spans(
                line@,
                0,
            ),
            r@ + escape_from(line@, i as int) == escaped_row(line@),
        decreases line.len() - i,
    {
        let ghost before = r@;
        if line[i] == '|' && is_index_in_ranges(i, ranges.as_slice()) && !is_backslash_escaped(
            line,
            i,
        ) {
            r.push('\\');
            r.push(line[i]);
            assert(r@ + escape_from(line@, i + 1) =~= before + (seq!['\\', line@[i as int]]
                + escape_from(line@, i + 1)));
        } else {
            r.push(line[i]);
            assert(r@ + escape_from(line@, i + 1) =~= before + (seq![line@[i as int]]
                + escape_from(line@, i + 1)));
        }
        i = i + 1;
    }
    assert(r@ =~= escaped_row(line@));
    r
}

/// A table row with a backslash before each pipe that stands unescaped in inline code.
pub fn escape_inline_code_pipes_in_table_row(line: &str) -> (r: String)
    ensures
        r@ == escaped_row(line@),
{
    let chars = text::chars_of(line);
    let row = escape_row(chars.as_slice());
    text::string_of(row.as_slice())
}

fn strip_fence_indent(line: &[char]) -> (r: Option<Vec<char>>)
    ensures
        match r {
            Some(t) => fence_text(line@) == Some(t@),
            None => fence_text(line@) is None,
        },
{
    let spaces = repeated_len(line, 0, ' ');
    if spaces <= 3 {
        let t = text::sub_vec(line, spaces, line.len());
        assert(t@ =~= line@.skip(spaces as int));
        Some(t)
    } else {
        None
    }
}

fn opening_code_fence(line: &[char]) -> (r: Option<(char, usize)>)
    ensures
        match r {
            Some((marker, count)) => opening_fence(line@) == Some((marker, count as int)),
            None => opening_fence(line@) is None,
        },
{
    match strip_fence_indent(line) {
        None => None,
        Some(t) => {
            if t.len() == 0 {
                return None;
            }
            let marker = t[0];
            if marker != '`' && marker != '~' {
                return None;
            }
            let count = repeated_len(t.as_slice(), 0, marker);
            if count >= 3 {
                Some((marker, count))
            } else {
                None
            }
        },
    }
}

fn is_closing_code_fence(line: &[char], marker: char, opening_count: usize) -> (r: bool)
    ensures
        r == closes_fence(line@, marker, opening_count as int),
{
    match strip_fence_indent(line) {
        None => false,
        Some(t) => {
            let count = repeated_len(t.as_slice(), 0, marker);
            let rest = text::sub_vec(t.as_slice(), count, t.len());
            assert(rest@ =~= t@.skip(count as int));
            count >= opening_count && text::is_blank(rest.as_slice())
        },
    }
}

fn is_indented_code_line(line: &[char]) -> (r: bool)
    ensures
        r == is_indented_code(line@),
{
    text::starts_with(line, "    ") || text::starts_with(line, "\t")
}

fn is_table_row_source(line: &[char]) -> (r: bool)
    ensures
        r == is_row(line@),
{
    let t = text::trimmed(line);
    let parts = cell_sources(t.as_slice());
    assert(text::char_views(parts@).len() == parts@.len());
    parts.len() > 1
}

fn is_delimiter_cell_source(cell: &[char]) -> (r: bool)
    ensures
        r == is_delimiter_cell(cell@),
{
    let t = text::trimmed(cell);
    let mut dashes: usize = 0;
    let mut i: usize = 0;
    while i < t.len()
        invariant
            i <= t.len(),
            t@ == text::trim(cell@),
            dashes <= i,
            dashes == count_char(t@.take(i as int), '-'),
            forall|j: int| 0 <= j < i ==> (#[trigger] t@[j] == '-' || t@[j] == ':' || t@[j] == ' '),
        decreases t.len() - i,
    {
        let c = t[i];
        if c != '-' && c != ':' && c != ' ' {
            assert(t@[i as int] == c);
            return false;
        }
        assert(t@.take(i + 1).drop_last() =~= t@.take(i as int));
        if c == '-' {
            dashes = dashes + 1;
        }
        i = i + 1;
    }
    assert(t@.take(i as int) =~= t@);
    dashes >= 3
}

fn is_table_delimiter_source(line: &[char]) -> (r: bool)
    ensures
        r == is_delimiter_row(line@),
{
    let t = text::trimmed(line);
    let parts = cell_sources(t.as_slice());
    let ghost all = text::char_views(parts@);
    let mut from: usize = 0;
    let mut to: usize = parts.len();
    if parts.len() > 0 && text::is_blank(parts[0].as_slice()) {
        assert(all.first() == parts@[0]@);
        from = 1;
    }
    proof {
        if parts.len() > 0 {
            assert(all.first() == parts@[0]@);
            assert(all.last() == parts@[parts.len() - 1]@);
        }
        assert(from == 1 ==> all.drop_first() =~= all.subrange(1, all.len() as int));
        assert(all.subrange(0, all.len() as int) =~= all);
    }
    if to > from && text::is_blank(parts[to - 1].as_slice()) {
        to = to - 1;
    }
    proof {
        let a = all.subrange(from as int, all.len() as int);
        assert(a.len() > 0 ==> a.last() == all.last());
        assert(to < all.len() ==> a.drop_last() =~= all.subrange(from as int, to as int));
        assert(without_blank_ends(all) =~= all.subrange(from as int, to as int));
    }
    if from == to {
        return false;
    }
    let ghost kept = all.subrange(from as int, to as int);
    let mut i: usize = from;
    while i < to
        invariant
            from <= i <= to <= parts.len(),
            all == text::char_views(parts@),
            kept == all.subrange(from as int, to as int),
            kept == without_blank_ends(cells(text::trim(line@))),
            forall|j: int| 0 <= j < i - from ==> is_delimiter_cell(#[trigger] kept[j]),
        decreases to - i,
    {
        assert(kept[i - from] == parts@[i as int]@);
        if !is_delimiter_cell_source(parts[i].as_slice()) {
            return false;
        }
        i = i + 1;
    }
    true
}

/// Appends the rewritten table whose header is line `i`; returns the line behind it.
fn push_table(out: &mut Vec<char>, lines: &Vec<Vec<char>>, i: usize) -> (r: usize)
    requires
        i + 1 < lines.len(),
    ensures
        final(out)@ == old(out)@ + table_text(text::char_views(lines@), i as int),
        r == rows_end(text::char_views(lines@), i + 2),
        i + 2 <= r <= lines@.len(),
{
    let ghost all = text::char_views(lines@);
    let ghost before = out@;
    let ghost start = i as int;
    assert(all[start] == lines@[start]@);
    assert(all[start + 1] == lines@[start + 1]@);
    let header = escape_row(lines[i].as_slice());
    text::extend(out, header.as_slice());
    text::extend(out, lines[i + 1].as_slice());
    let ghost head = escaped_row(all[start]) + all[start + 1];
    assert(out@ =~= before + head + escaped_rows(all, start + 2, start + 2));
    let mut end: usize = i + 2;
    while end < lines.len() && is_table_row_source(lines[end].as_slice())
        invariant
            start + 2 <= end <= lines.len(),
            all == text::char_views(lines@),
            rows_end(all, start + 2) == rows_end(all, end as int),
            out@ == before + head + escaped_rows(all, start + 2, end as int),
        decreases lines.len() - end,
    {
        assert(all[end as int] == lines@[end as int]@);
        let row = escape_row(lines[end].as_slice());
        text::extend(out, row.as_slice());
        end = end + 1;
        assert(out@ =~= before + head + escaped_rows(all, start + 2, end as int));
    }
    proof {
        if end < lines.len() {
            assert(all[end as int] == lines@[end as int]@);
        }
    }
    if end < lines.len() && !text::is_blank(lines[end].as_slice()) {
        out.push('\n');
    }
    assert(out@ =~= before + (head + escaped_rows(all, start + 2, end as int) + table_gap(
        all,
        end as int,
    )));
    end
}

/// Rewrites the pipe tables of a Markdown text: pipes inside inline code of a table
/// row are escaped, and a table that is followed by a line that is neither a row nor
/// blank is set apart from it by a line break. Fenced and indented code is unchanged.
pub fn normalize_table_boundaries(input: &str) -> (r: String)
    ensures
        r@ == normalized(text::lines_inclusive(input@), 0, None),
{
    let chars = text::chars_of(input);
    let lines = text::split_lines_inclusive(chars.as_slice());
    let ghost all = text::char_views(lines@);
    let mut out: Vec<char> = Vec::new();
    let mut i: usize = 0;
    let mut fence: Option<(char, usize)> = None;
    assert(out@ + normalized(all, 0, None) =~= normalized(all, 0, None));
    while i < lines.len()
        invariant
            i <= lines.len(),
            all == text::char_views(lines@),
            all == text::lines_inclusive(input@),
            out@ + normalized(all, i as int, fence_view(fence)) == normalized(all, 0, None),
        decreases lines.len() - i,
    {
        let line = &lines[i];
        let ghost before = out@;
        assert(all[i as int] == line@);
        if let Some((marker, count)) = fence {
            text::extend(&mut out, line.as_slice());
            if is_closing_code_fence(line.as_slice(), marker, count) {
                fence = None;
            }
            i = i + 1;
            assert(out@ + normalized(all, i as int, fence_view(fence)) =~= before + (line@
                + normalized(all, i as int, fence_view(fence))));
        } else {
            let opened = opening_code_fence(line.as_slice());
            if opened.is_some() {
                fence = opened;
                text::extend(&mut out, line.as_slice());
                i = i + 1;
                assert(out@ + normalized(all, i as int, fence_view(fence)) =~= before + (line@
                    + normalized(all, i as int, fence_view(fence))));
            } else if is_indented_code_line(line.as_slice()) {
                text::extend(&mut out, line.as_slice());
                i = i + 1;
                assert(out@ + normalized(all, i as int, None) =~= before + (line@ + normalized(
                    all,
                    i as int,
                    None,
                )));
            } else if i + 1 < lines.len() && is_table_row_source(line.as_slice())
                && is_table_delimiter_source(lines[i + 1].as_slice()) {
                let ghost start = i as int;
                assert(all[start + 1] == lines@[start + 1]@);
                i = push_table(&mut out, &lines, i);
                assert(out@ + normalized(all, i as int, None) =~= before + (table_text(all, start)
                    + normalized(all, i as int, None)));
            } else {
                proof {
                    if i + 1 < lines.len() {
                        assert(all[i + 1] == lines@[i + 1]@);
                    }
                }
                text::extend(&mut out, line.as_slice());
                i = i + 1;
                assert(out@ + normalized(all, i as int, None) =~= before + (line@ + normalized(
                    all,
                    i as int,
                    None,
                )));
            }
        }
    }
    assert(normalized(all, i as int, fence_view(fence)) =~= Seq::<char>::empty());
    assert(out@ =~= normalized(all, 0, None));
    text::string_of(out.as_slice())
}

/// A fence with its count as a mathematical integer.
spec fn fence_view(fence: Option<(char, usize)>) -> Option<(char, int)> {
    match fence {
        Some((marker, count)) => Some((marker, count as int)),
        None => None,
    }
}

// ---- what is kept ----

proof fn lemma_cells_join(s: Seq<char>, start: int, i: int)
    requires
        0 <= start <= i <= s.len(),
    ensures
        cells_from(s, start, i).len() > 0,
        text::join(cells_from(s, start, i), seq!['|']) == s.skip(start),
    decreases s.len() - i,
{
    if i < s.len() {
        if is_cell_pipe(s, i) {
            lemma_cells_join(s, i + 1, i + 1);
            let rest = cells_from(s, i + 1, i + 1);
            text::lemma_join_first(s.subrange(start, i), rest, seq!['|']);
            assert(s.skip(start) =~= s.subrange(start, i) + seq!['|'] + s.skip(i + 1));
        } else {
            lemma_cells_join(s, start, i + 1);
        }
    } else {
        assert(s.subrange(start, s.len() as int) =~= s.skip(start));
    }
}

/// The cells of a row make it up: with a pipe between each two they are the row again.
pub proof fn cells_make_up_the_row(s: Seq<char>)
    ensures
        cells(s).len() > 0,
        text::join(cells(s), seq!['|']) == s,
{
    lemma_cells_join(s, 0, 0);
    assert(s.skip(0) =~= s);
}

/// How many pipes of a row, from a place on, divide it.
pub open spec fn dividing_pipes(s: Seq<char>, i: int) -> int
    decreases s.len() - i,
{
    if i < 0 || i >= s.len() {
        0
    } else {
        dividing_pipes(s, i + 1) + (if s[i] == '|' && !in_code(s, i) && !escaped(s, i) {
            1int
        } else {
            0
        })
    }
}

proof fn lemma_cell_count(s: Seq<char>, start: int, i: int)
    requires
        0 <= start <= i <= s.len(),
    ensures
        cells_from(s, start, i).len() == 1 + dividing_pipes(s, i),
    decreases s.len() - i,
{
    if i < s.len() {
        if is_cell_pipe(s, i) {
            lemma_cell_count(s, i + 1, i + 1);
        } else {
            lemma_cell_count(s, start, i + 1);
        }
    }
}

/// A row has one cell more than it has pipes that are neither in code nor escaped; so a line is a
/// row exactly if it has such a pipe.
pub proof fn rows_are_divided_by_pipes(s: Seq<char>)
    ensures
        cells(s).len() == 1 + dividing_pipes(s, 0),
        is_row(s) <==> dividing_pipes(text::trim(s), 0) >= 1,
{
    lemma_cell_count(s, 0, 0);
    lemma_cell_count(text::trim(s), 0, 0);
}

/// A character behind a backslash is escaped, unless that backslash is.
pub proof fn backslashes_escape_what_follows(s: Seq<char>, i: int)
    requires
        0 < i <= s.len(),
    ensures
        s[i - 1] != '\\' ==> !escaped(s, i),
        s[i - 1] == '\\' ==> escaped(s, i) == !escaped(s, i - 1),
        !escaped(s, 0),
{
}

proof fn lemma_escape_len(s: Seq<char>, i: int)
    requires
        0 <= i <= s.len(),
    ensures
        s.len() - i <= escape_from(s, i).len() <= 2 * (s.len() - i),
        without_backslashes(escape_from(s, i)) == without_backslashes(s.skip(i)),
    decreases s.len() - i,
{
    if i < s.len() {
        lemma_escape_len(s, i + 1);
        let rest = escape_from(s, i + 1);
        let here = seq![s[i]];
        assert(s.skip(i) =~= here + s.skip(i + 1));
        lemma_backslashes_first(s[i], s.skip(i + 1));
        lemma_backslashes_first(s[i], rest);
        if is_raw_code_pipe(s, i) {
            lemma_backslashes_first('\\', seq![s[i]] + rest);
            assert(escape_from(s, i) =~= seq!['\\'] + (seq![s[i]] + rest));
        } else {
            assert(escape_from(s, i) =~= seq![s[i]] + rest);
        }
    } else {
        assert(s.skip(i) =~= Seq::<char>::empty());
    }
}

/// A text without its backslashes.
pub open spec fn without_backslashes(s: Seq<char>) -> Seq<char>
    decreases s.len(),
{
    if s.len() == 0 {
        Seq::empty()
    } else if s[0] == '\\' {
        without_backslashes(s.drop_first())
    } else {
        seq![s[0]] + without_backslashes(s.drop_first())
    }
}

proof fn lemma_backslashes_first(c: char, rest: Seq<char>)
    ensures
        without_backslashes(seq![c] + rest) == (if c == '\\' {
            Seq::empty()
        } else {
            seq![c]
        }) + without_backslashes(rest),
{
    let whole = seq![c] + rest;
    assert(whole.drop_first() =~= rest);
    if c == '\\' {
        assert(Seq::<char>::empty() + without_backslashes(rest) =~= without_backslashes(rest));
    }
}

/// To escape a row adds nothing to it but backslashes, and takes nothing away.
pub proof fn escaping_adds_backslashes_only(s: Seq<char>)
    ensures
        without_backslashes(escaped_row(s)) == without_backslashes(s),
        escaped_row(s).len() >= s.len(),
{
    lemma_escape_len(s, 0);
    assert(s.skip(0) =~= s);
}

/// A fence stays open until it is closed: all lines up to there are kept as they are, whatever they
/// hold.
pub proof fn fenced_lines_are_kept(lines: Seq<Seq<char>>, i: int, k: int, marker: char, count: int)
    requires
        0 <= i <= k <= lines.len(),
        forall|j: int| i <= j < k ==> !closes_fence(#[trigger] lines[j], marker, count),
    ensures
        normalized(lines, i, Some((marker, count))) == text::concat(lines.subrange(i, k))
            + normalized(lines, k, Some((marker, count))),
    decreases k - i,
{
    let fence = Some((marker, count));
    if i < k {
        fenced_lines_are_kept(lines, i + 1, k, marker, count);
        assert(!closes_fence(lines[i], marker, count));
        text::lemma_concat_first(lines[i], lines.subrange(i + 1, k));
        assert(lines.subrange(i, k) =~= seq![lines[i]] + lines.subrange(i + 1, k));
        assert(normalized(lines, i, fence) =~= text::concat(lines.subrange(i, k)) + normalized(
            lines,
            k,
            fence,
        ));
    } else {
        assert(lines.subrange(i, k) =~= Seq::<Seq<char>>::empty());
        assert(text::concat(Seq::<Seq<char>>::empty()) + normalized(lines, k, fence)
            =~= normalized(lines, k, fence));
    }
}

proof fn lemma_rows_are_rows(lines: Seq<Seq<char>>, i: int)
    requires
        0 <= i <= lines.len(),
    ensures
        ({
            let end = rows_end(lines, i);
            &&& i <= end <= lines.len()
            &&& forall|k: int| i <= k < end ==> is_row(#[trigger] lines[k])
            &&& end < lines.len() ==> !is_row(lines[end])
        }),
    decreases lines.len() - i,
{
    if i < lines.len() && is_row(lines[i]) {
        lemma_rows_are_rows(lines, i + 1);
    }
}

proof fn lemma_rows_escaped(lines: Seq<Seq<char>>, i: int, end: int)
    requires
        0 <= i <= end <= lines.len(),
    ensures
        without_backslashes(escaped_rows(lines, i, end)) == without_backslashes(
            text::concat(lines.subrange(i, end)),
        ),
    decreases end - i,
{
    if i < end {
        lemma_rows_escaped(lines, i, end - 1);
        let before = escaped_rows(lines, i, end - 1);
        let last = lines[end - 1];
        escaping_adds_backslashes_only(last);
        lemma_backslashes_parts(before, escaped_row(last));
        let all = lines.subrange(i, end);
        assert(all.drop_last() =~= lines.subrange(i, end - 1));
        assert(all.last() == last);
        lemma_backslashes_parts(text::concat(all.drop_last()), last);
    } else {
        assert(lines.subrange(i, end) =~= Seq::<Seq<char>>::empty());
    }
}

proof fn lemma_backslashes_parts(a: Seq<char>, b: Seq<char>)
    ensures
        without_backslashes(a + b) == without_backslashes(a) + without_backslashes(b),
    decreases a.len(),
{
    if a.len() == 0 {
        assert(a + b =~= b);
        assert(without_backslashes(a) + without_backslashes(b) =~= without_backslashes(b));
    } else {
        lemma_backslashes_parts(a.drop_first(), b);
        lemma_backslashes_first(a[0], a.drop_first());
        lemma_backslashes_first(a[0], a.drop_first() + b);
        assert(a =~= seq![a[0]] + a.drop_first());
        assert(a + b =~= seq![a[0]] + (a.drop_first() + b));
        assert(without_backslashes(a + b) =~= without_backslashes(a) + without_backslashes(b));
    }
}

/// A table is a row, a delimiter row and all rows that follow it. Its lines are kept but for
/// backslashes before pipes in code, and a line of text right behind it is set apart by an empty one.
pub proof fn tables_are_kept_and_set_apart(lines: Seq<Seq<char>>, i: int)
    requires
        0 <= i,
        i + 1 < lines.len(),
        opening_fence(lines[i]) is None,
        !is_indented_code(lines[i]),
        is_row(lines[i]),
        is_delimiter_row(lines[i + 1]),
    ensures
        ({
            let end = rows_end(lines, i + 2);
            let text = normalized(lines, i, None);
            let rest = normalized(lines, end, None);
            let apart = end < lines.len() && text::trim(lines[end]).len() > 0;
            &&& i + 2 <= end <= lines.len()
            &&& forall|k: int| i + 2 <= k < end ==> is_row(#[trigger] lines[k])
            &&& end < lines.len() ==> !is_row(lines[end])
            &&& exists|table: Seq<char>|
                #![trigger without_backslashes(table)]
                without_backslashes(table) == without_backslashes(
                    text::concat(lines.subrange(i, end)),
                ) && text == table + (if apart {
                    seq!['\n']
                } else {
                    Seq::empty()
                }) + rest
        }),
{
    lemma_rows_are_rows(lines, i + 2);
    let end = rows_end(lines, i + 2);
    let table = escaped_row(lines[i]) + lines[i + 1] + escaped_rows(lines, i + 2, end);
    escaping_adds_backslashes_only(lines[i]);
    lemma_rows_escaped(lines, i + 2, end);
    lemma_backslashes_parts(escaped_row(lines[i]), lines[i + 1]);
    lemma_backslashes_parts(
        escaped_row(lines[i]) + lines[i + 1],
        escaped_rows(lines, i + 2, end),
    );
    let below = text::concat(lines.subrange(i + 2, end));
    text::lemma_concat_first(lines[i + 1], lines.subrange(i + 2, end));
    assert(lines.subrange(i + 1, end) =~= seq![lines[i + 1]] + lines.subrange(i + 2, end));
    text::lemma_concat_first(lines[i], lines.subrange(i + 1, end));
    assert(lines.subrange(i, end) =~= seq![lines[i]] + lines.subrange(i + 1, end));
    lemma_backslashes_parts(lines[i + 1], below);
    lemma_backslashes_parts(lines[i], lines[i + 1] + below);
    assert(without_backslashes(table) =~= without_backslashes(
        text::concat(lines.subrange(i, end)),
    ));
    assert(normalized(lines, i, None) =~= table + table_gap(lines, end) + normalized(
        lines,
        end,
        None,
    ));
}

proof fn lemma_count_run(s: Seq<char>, c: char)
    requires
        forall|i: int| 0 <= i < s.len() ==> #[trigger] s[i] == c,
    ensures
        count_char(s, c) == s.len(),
    decreases s.len(),
{
    if s.len() > 0 {
        lemma_count_run(s.drop_last(), c);
    }
}

proof fn lemma_count_at_most(s: Seq<char>, c: char)
    ensures
        0 <= count_char(s, c) <= s.len(),
        count_char(s, c) > 0 ==> s.contains(c),
    decreases s.len(),
{
    if s.len() > 0 {
        lemma_count_at_most(s.drop_last(), c);
        if s.last() == c {
            assert(s[s.len() - 1] == c);
        } else if s.drop_last().contains(c) {
            let i = s.drop_last().index_of(c);
            assert(s[i] == c);
        }
    }
}

/// Three dashes or more delimit a column; fewer, or anything but dashes, colons and spaces, do not.
pub proof fn three_dashes_delimit(n: nat, cell: Seq<char>, i: int)
    ensures
        n >= 3 ==> is_delimiter_cell(text::repeat_char('-', n)),
        n < 3 ==> !is_delimiter_cell(text::repeat_char('-', n)),
        is_delimiter_cell(cell) ==> text::trim(cell).len() >= 3 && text::trim(cell).contains('-'),
        is_delimiter_cell(cell) && 0 <= i < text::trim(cell).len() ==> text::trim(cell)[i] == '-'
            || text::trim(cell)[i] == ':' || text::trim(cell)[i] == ' ',
{
    let dashes = text::repeat_char('-', n);
    lemma_count_run(dashes, '-');
    assert(text::trim(dashes) == dashes) by {
        if n > 0 {
            assert(dashes[0] == '-' && dashes.last() == '-');
        }
    }
    lemma_count_at_most(text::trim(cell), '-');
}

/// A fence is three marks or more, at most three columns in, and is closed by as many of them or
/// more with nothing behind.
pub proof fn fences_are_closed_by_their_marks(marker: char, n: nat, m: nat)
    requires
        marker == '`' || marker == '~',
        n >= 3,
    ensures
        opening_fence(text::repeat_char(marker, n)) == Some((marker, n as int)),
        m >= n <==> closes_fence(text::repeat_char(marker, m), marker, n as int),
{
    let open = text::repeat_char(marker, n);
    let close = text::repeat_char(marker, m);
    lemma_full_run(open, marker, 0);
    lemma_full_run(close, marker, 0);
    assert(run_len(open, 0, ' ') == 0);
    assert(run_len(close, 0, ' ') == 0);
    assert(open.skip(0) =~= open);
    assert(close.skip(0) =~= close);
    assert(close.skip(m as int) =~= Seq::<char>::empty());
}

proof fn lemma_full_run(s: Seq<char>, c: char, i: int)
    requires
        0 <= i <= s.len(),
        forall|k: int| 0 <= k < s.len() ==> #[trigger] s[k] == c,
    ensures
        run_len(s, i, c) == s.len() - i,
    decreases s.len() - i,
{
    if i < s.len() {
        lemma_full_run(s, c, i + 1);
    }
}

/// Blank cells at both ends of a row do not count, and no other is left out.
pub proof fn only_blank_ends_are_left_out(parts: Seq<Seq<char>>, first: Seq<char>, last: Seq<char>)
    requires
        parts.len() > 0,
        text::trim(parts[0]).len() > 0,
        text::trim(parts.last()).len() > 0,
        text::trim(first).len() == 0,
        text::trim(last).len() == 0,
    ensures
        without_blank_ends(parts) == parts,
        without_blank_ends(seq![first] + parts) == parts,
        without_blank_ends(parts.push(last)) == parts,
        without_blank_ends(seq![first] + parts.push(last)) == parts,
{
    assert((seq![first] + parts).drop_first() =~= parts);
    assert(parts.push(last).drop_last() =~= parts);
    assert((seq![first] + parts.push(last)).drop_first() =~= parts.push(last));
    assert(parts.push(last)[0] == parts[0]);
}

} // verus!
