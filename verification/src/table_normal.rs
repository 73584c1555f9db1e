//! What rewriting the tables of a Markdown text keeps: a text without pipes, and the text itself
//! when it is rewritten again.

use vstd::prelude::*;

#[allow(unused_imports)]
use crate::table_escape;
#[allow(unused_imports)]
use crate::table_source;
#[allow(unused_imports)]
use crate::text;

verus! {

// ---- white space around a row ----

proof fn lemma_front_run(w: char, m: Seq<char>, i: int, c: char)
    requires
        0 <= i <= m.len(),
    ensures
        table_source::run_len(seq![w] + m, i + 1, c) == table_source::run_len(m, i, c),
    decreases m.len() - i,
{
    if i < m.len() && m[i] == c {
        lemma_front_run(w, m, i + 1, c);
    }
}

proof fn lemma_front_closing(w: char, m: Seq<char>, from: int, j: int, n: int)
    requires
        0 <= from <= j <= m.len(),
    ensures
        table_source::closing_run(seq![w] + m, from + 1, j + 1, n) == (
        match table_source::closing_run(m, from, j, n) {
            Some(k) => Some(k + 1),
            None => None,
        }),
    decreases m.len() - j,
{
    if j < m.len() {
        lemma_front_run(w, m, j, '`');
        lemma_front_closing(w, m, from, j + 1, n);
        if j > from {
            assert((seq![w] + m)[j] == m[j - 1]);
        }
    }
}

spec fn later(ranges: Seq<(int, int)>) -> Seq<(int, int)> {
    Seq::new(ranges.len(), |k: int| (ranges[k].0 + 1, ranges[k].1 + 1))
}

proof fn lemma_front_spans(w: char, m: Seq<char>, i: int)
    requires
        0 <= i,
    ensures
        table_source::code_spans(seq![w] + m, i + 1) == later(table_source::code_spans(m, i)),
    decreases m.len() - i,
{
    let t = seq![w] + m;
    if i < m.len() {
        assert(t[i + 1] == m[i]);
        if m[i] == '\\' {
            let next = if i + 1 < m.len() {
                i + 2
            } else {
                m.len() as int
            };
            lemma_front_spans(w, m, next);
        } else if m[i] == '`' {
            let n = table_source::run_len(m, i, '`');
            table_source::lemma_run_len(m, i, '`');
            table_source::lemma_closing_run(m, i + n, i + n, n);
            lemma_front_run(w, m, i, '`');
            lemma_front_closing(w, m, i + n, i + n, n);
            match table_source::closing_run(m, i + n, i + n, n) {
                Some(k) => {
                    lemma_front_spans(w, m, k + n);
                    let rest = table_source::code_spans(m, k + n);
                    assert(later(seq![(i, k + n)] + rest) =~= seq![(i + 1, k + n + 1)] + later(
                        rest,
                    ));
                },
                None => {
                    lemma_front_spans(w, m, i + n);
                },
            }
        } else {
            lemma_front_spans(w, m, i + 1);
        }
    }
    assert(table_source::code_spans(t, i + 1) =~= later(table_source::code_spans(m, i)));
}

proof fn lemma_front_in(ranges: Seq<(int, int)>, i: int)
    ensures
        table_source::in_ranges(i + 1, later(ranges)) == table_source::in_ranges(i, ranges),
{
    let l = later(ranges);
    if table_source::in_ranges(i, ranges) {
        let k = choose|k: int| 0 <= k < ranges.len() && ranges[k].0 <= i < (#[trigger] ranges[k]).1;
        assert(l[k].0 <= i + 1 < l[k].1);
    }
    if table_source::in_ranges(i + 1, l) {
        let k = choose|k: int| 0 <= k < l.len() && l[k].0 <= i + 1 < (#[trigger] l[k]).1;
        assert(ranges[k].0 <= i < ranges[k].1);
    }
}

proof fn lemma_front_escaped(w: char, m: Seq<char>, i: int)
    requires
        w != '\\',
        0 <= i <= m.len(),
    ensures
        table_source::escaped(seq![w] + m, i + 1) == table_source::escaped(m, i),
    decreases i,
{
    assert((seq![w] + m)[i] == if i == 0 {
        w
    } else {
        m[i - 1]
    });
    if i > 0 {
        lemma_front_escaped(w, m, i - 1);
    }
}

proof fn lemma_front_cells(w: char, m: Seq<char>, a: int, b: int, i: int)
    requires
        w != '\\' && w != '`' && w != '|',
        0 <= i <= m.len(),
    ensures
        table_source::cells_from(seq![w] + m, a, i + 1).len() == table_source::cells_from(
            m,
            b,
            i,
        ).len(),
    decreases m.len() - i,
{
    let t = seq![w] + m;
    if i < m.len() {
        assert(t[i + 1] == m[i]);
        assert(t[0] == w);
        assert(table_source::code_spans(t, 0) == table_source::code_spans(t, 1));
        lemma_front_spans(w, m, 0);
        lemma_front_in(table_source::code_spans(m, 0), i);
        lemma_front_escaped(w, m, i);
        assert(table_source::is_cell_pipe(t, i + 1) == table_source::is_cell_pipe(m, i));
        if table_source::is_cell_pipe(m, i) {
            lemma_front_cells(w, m, i + 2, i + 1, i + 1);
        } else {
            lemma_front_cells(w, m, a, b, i + 1);
        }
    }
}

proof fn lemma_trim_start_cells(s: Seq<char>)
    ensures
        table_source::cells(text::trim_start(s)).len() == table_source::cells(s).len(),
    decreases s.len(),
{
    if s.len() > 0 && text::is_white_space(s[0]) {
        let m = s.drop_first();
        lemma_trim_start_cells(m);
        assert(s =~= seq![s[0]] + m);
        lemma_front_cells(s[0], m, 0, 0, 0);
        assert(!table_source::is_cell_pipe(s, 0));
        assert(table_source::cells_from(s, 0, 0) == table_source::cells_from(s, 0, 1));
    }
}

proof fn lemma_back_run(m: Seq<char>, w: char, i: int, c: char)
    requires
        0 <= i <= m.len(),
        c != w,
    ensures
        table_source::run_len(m.push(w), i, c) == table_source::run_len(m, i, c),
    decreases m.len() - i,
{
    if i < m.len() && m[i] == c {
        lemma_back_run(m, w, i + 1, c);
    }
}

proof fn lemma_back_closing(m: Seq<char>, w: char, from: int, j: int, n: int)
    requires
        0 <= from <= j <= m.len(),
        w != '`',
    ensures
        table_source::closing_run(m.push(w), from, j, n) == table_source::closing_run(
            m,
            from,
            j,
            n,
        ),
    decreases m.len() - j,
{
    let t = m.push(w);
    if j < m.len() {
        lemma_back_run(m, w, j, '`');
        lemma_back_closing(m, w, from, j + 1, n);
        if j > from {
            assert(t[j - 1] == m[j - 1]);
        }
    } else {
        assert(t[j] == w);
        assert(table_source::closing_run(t, from, j + 1, n) is None);
    }
}

proof fn lemma_back_spans(m: Seq<char>, w: char, i: int)
    requires
        0 <= i <= m.len(),
        w != '`' && w != '\\',
    ensures
        table_source::code_spans(m.push(w), i) == table_source::code_spans(m, i),
    decreases m.len() - i,
{
    let t = m.push(w);
    if i == m.len() {
        assert(t[i] == w);
        assert(table_source::code_spans(t, i + 1) =~= Seq::empty());
        assert(table_source::code_spans(m, i) =~= Seq::empty());
    } else {
        assert(t[i] == m[i]);
        if m[i] == '\\' {
            if i + 1 < m.len() {
                lemma_back_spans(m, w, i + 2);
            } else {
                assert(table_source::code_spans(t, i + 2) =~= Seq::empty());
                assert(table_source::code_spans(m, m.len() as int) =~= Seq::empty());
            }
        } else if m[i] == '`' {
            let n = table_source::run_len(m, i, '`');
            table_source::lemma_run_len(m, i, '`');
            table_source::lemma_closing_run(m, i + n, i + n, n);
            lemma_back_run(m, w, i, '`');
            lemma_back_closing(m, w, i + n, i + n, n);
            match table_source::closing_run(m, i + n, i + n, n) {
                Some(k) => {
                    lemma_back_spans(m, w, k + n);
                },
                None => {
                    lemma_back_spans(m, w, i + n);
                },
            }
        } else {
            lemma_back_spans(m, w, i + 1);
        }
    }
}

proof fn lemma_back_escaped(m: Seq<char>, w: char, i: int)
    requires
        0 <= i <= m.len(),
    ensures
        table_source::escaped(m.push(w), i) == table_source::escaped(m, i),
    decreases i,
{
    if i > 0 {
        assert(m.push(w)[i - 1] == m[i - 1]);
        lemma_back_escaped(m, w, i - 1);
    }
}

proof fn lemma_back_cells(m: Seq<char>, w: char, a: int, b: int, i: int)
    requires
        0 <= i <= m.len(),
        w != '`' && w != '\\' && w != '|',
    ensures
        table_source::cells_from(m.push(w), a, i).len() == table_source::cells_from(m, b, i).len(),
    decreases m.len() - i,
{
    let t = m.push(w);
    if i == m.len() {
        assert(t[i] == w);
        assert(!table_source::is_cell_pipe(t, i));
        assert(table_source::cells_from(t, a, i) == table_source::cells_from(t, a, i + 1));
    } else {
        assert(t[i] == m[i]);
        lemma_back_spans(m, w, 0);
        lemma_back_escaped(m, w, i);
        assert(table_source::is_cell_pipe(t, i) == table_source::is_cell_pipe(m, i));
        if table_source::is_cell_pipe(m, i) {
            lemma_back_cells(m, w, i + 1, i + 1, i + 1);
        } else {
            lemma_back_cells(m, w, a, b, i + 1);
        }
    }
}

proof fn lemma_trim_end_cells(s: Seq<char>)
    ensures
        table_source::cells(text::trim_end(s)).len() == table_source::cells(s).len(),
    decreases s.len(),
{
    if s.len() > 0 && text::is_white_space(s.last()) {
        let m = s.drop_last();
        lemma_trim_end_cells(m);
        assert(s =~= m.push(s.last()));
        lemma_back_cells(m, s.last(), 0, 0, 0);
    }
}

/// White space around a row is part of no other cell: the row has as many cells without it.
proof fn lemma_trimmed_cells(s: Seq<char>)
    ensures
        table_source::cells(text::trim(s)).len() == table_source::cells(s).len(),
{
    lemma_trim_start_cells(s);
    lemma_trim_end_cells(text::trim_start(s));
}

// ---- what escaping keeps of a line ----

proof fn lemma_escaped_is_row(s: Seq<char>)
    ensures
        table_source::is_row(table_source::escaped_row(s)) == table_source::is_row(s),
{
    lemma_trimmed_cells(s);
    lemma_trimmed_cells(table_source::escaped_row(s));
    table_escape::escaped_rows_keep_their_cells(s);
}

proof fn lemma_run_of_rest(s: Seq<char>, r: int, i: int, c: char)
    requires
        0 <= r <= s.len(),
        0 <= i <= s.len() - r,
    ensures
        table_source::run_len(s.skip(r), i, c) == table_source::run_len(s, r + i, c),
    decreases s.len() - r - i,
{
    if r + i < s.len() && s[r + i] == c {
        lemma_run_of_rest(s, r, i + 1, c);
    }
}

proof fn lemma_run_before_pipe(s: Seq<char>, p: int, i: int, c: char)
    requires
        0 <= i <= p < s.len(),
        s[p] == '|',
        c != '|' && c != '\\',
    ensures
        table_source::run_len(table_escape::with_backslash(s, p), i, c) == table_source::run_len(
            s,
            i,
            c,
        ),
        table_source::run_len(s, i, c) <= p - i,
    decreases p - i,
{
    let t = table_escape::with_backslash(s, p);
    if i < p {
        assert(t[i] == s[i]);
        if s[i] == c {
            lemma_run_before_pipe(s, p, i + 1, c);
        }
    } else {
        assert(t[p] == '\\');
    }
}

proof fn lemma_one_backslash_start(s: Seq<char>, p: int)
    requires
        0 <= p < s.len(),
        s[p] == '|',
    ensures
        table_source::opening_fence(table_escape::with_backslash(s, p))
            == table_source::opening_fence(s),
        table_source::is_indented_code(table_escape::with_backslash(s, p))
            == table_source::is_indented_code(s),
{
    let t = table_escape::with_backslash(s, p);
    lemma_run_before_pipe(s, p, 0, ' ');
    let r = table_source::run_len(s, 0, ' ');
    table_source::lemma_run_len(s, 0, ' ');
    assert(t.skip(r).len() == s.skip(r).len() + 1);
    if r < p {
        let c = s[r];
        assert(t.skip(r)[0] == c && s.skip(r)[0] == c);
        if c == '`' || c == '~' {
            lemma_run_before_pipe(s, p, r, c);
            lemma_run_of_rest(s, r, 0, c);
            lemma_run_of_rest(t, r, 0, c);
        }
    } else {
        assert(t.skip(r)[0] == '\\' && s.skip(r)[0] == '|');
    }
    reveal_strlit("    ");
    reveal_strlit("\t");
    lemma_prefix_is("    "@, s);
    lemma_prefix_is("    "@, t);
    lemma_prefix_is("\t"@, s);
    lemma_prefix_is("\t"@, t);
    assert(forall|k: int| 0 <= k < p ==> t[k] == s[k]);
    assert(t[p] == '\\');
    assert(text::has_prefix(s, "    "@) == text::has_prefix(t, "    "@)) by {
        if text::has_prefix(s, "    "@) {
            assert(s[0] == ' ' && s[1] == ' ' && s[2] == ' ' && s[3] == ' ');
            assert(p >= 4);
        }
        if text::has_prefix(t, "    "@) {
            assert(t[0] == ' ' && t[1] == ' ' && t[2] == ' ' && t[3] == ' ');
            assert(p >= 4);
        }
    }
    assert(text::has_prefix(s, "\t"@) == text::has_prefix(t, "\t"@)) by {
        if text::has_prefix(s, "\t"@) {
            assert(s[0] == '\t');
            assert(p >= 1);
        }
        if text::has_prefix(t, "\t"@) {
            assert(t[0] == '\t');
            assert(p >= 1);
        }
    }
}

proof fn lemma_prefix_is(prefix: Seq<char>, s: Seq<char>)
    ensures
        text::has_prefix(s, prefix) == (prefix.len() <= s.len() && forall|k: int|
            0 <= k < prefix.len() ==> #[trigger] s[k] == prefix[k]),
{
    if prefix.len() <= s.len() {
        let part = s.subrange(0, prefix.len() as int);
        if part == prefix {
            assert forall|k: int| 0 <= k < prefix.len() implies #[trigger] s[k] == prefix[k] by {
                assert(part[k] == s[k]);
            }
        }
        if forall|k: int| 0 <= k < prefix.len() ==> #[trigger] s[k] == prefix[k] {
            assert(part =~= prefix);
        }
    }
}

proof fn lemma_escaped_start(s: Seq<char>, q: int)
    requires
        0 <= q <= s.len(),
        forall|k: int| 0 <= k < q ==> !#[trigger] table_source::is_raw_code_pipe(s, k),
    ensures
        table_source::opening_fence(table_source::escaped_row(s)) == table_source::opening_fence(s),
        table_source::is_indented_code(table_source::escaped_row(s))
            == table_source::is_indented_code(s),
    decreases s.len() - q,
{
    if q == s.len() {
        table_escape::lemma_nothing_to_escape(s, 0);
        assert(s.skip(0) =~= s);
    } else if table_source::is_raw_code_pipe(s, q) {
        let t = table_escape::with_backslash(s, q);
        table_escape::lemma_escape_one(s, q);
        lemma_one_backslash_start(s, q);
        lemma_escaped_start(t, q + 2);
    } else {
        lemma_escaped_start(s, q + 1);
    }
}

// ---- delimiter rows ----

proof fn lemma_trim_start_keeps(s: Seq<char>, k: int) -> (j: int)
    requires
        0 <= k < s.len(),
        !text::is_white_space(s[k]),
    ensures
        0 <= j < text::trim_start(s).len(),
        text::trim_start(s)[j] == s[k],
    decreases s.len(),
{
    if text::is_white_space(s[0]) {
        assert(s.drop_first()[k - 1] == s[k]);
        lemma_trim_start_keeps(s.drop_first(), k - 1)
    } else {
        k
    }
}

proof fn lemma_trim_end_keeps(s: Seq<char>, k: int)
    requires
        0 <= k < s.len(),
        !text::is_white_space(s[k]),
    ensures
        k < text::trim_end(s).len(),
        text::trim_end(s)[k] == s[k],
    decreases s.len(),
{
    if text::is_white_space(s.last()) {
        assert(s.drop_last()[k] == s[k]);
        lemma_trim_end_keeps(s.drop_last(), k);
    }
}

proof fn lemma_trim_keeps(s: Seq<char>, k: int) -> (j: int)
    requires
        0 <= k < s.len(),
        !text::is_white_space(s[k]),
    ensures
        0 <= j < text::trim(s).len(),
        text::trim(s)[j] == s[k],
{
    let j = lemma_trim_start_keeps(s, k);
    lemma_trim_end_keeps(text::trim_start(s), j);
    j
}

proof fn lemma_cell_of(s: Seq<char>, start: int, i: int, k: int) -> (r: (int, int))
    requires
        0 <= start <= i <= s.len(),
        start <= k < s.len(),
        s[k] == '`',
    ensures
        ({
            let cells = table_source::cells_from(s, start, i);
            &&& 0 <= r.0 < cells.len()
            &&& 0 <= r.1 < cells[r.0].len()
            &&& cells[r.0][r.1] == '`'
        }),
    decreases s.len() - i,
{
    if i >= s.len() {
        assert(s.subrange(start, s.len() as int)[k - start] == s[k]);
        (0, k - start)
    } else if table_source::is_cell_pipe(s, i) {
        if k < i {
            assert(s.subrange(start, i)[k - start] == s[k]);
            (0, k - start)
        } else {
            let r = lemma_cell_of(s, i + 1, i + 1, k);
            let rest = table_source::cells_from(s, i + 1, i + 1);
            assert((seq![s.subrange(start, i)] + rest)[r.0 + 1] == rest[r.0]);
            (r.0 + 1, r.1)
        }
    } else {
        lemma_cell_of(s, start, i + 1, k)
    }
}

/// A line with a backtick is no delimiter row.
proof fn lemma_no_delimiter(s: Seq<char>, k: int)
    requires
        0 <= k < s.len(),
        s[k] == '`',
    ensures
        !table_source::is_delimiter_row(s),
{
    let j = lemma_trim_keeps(s, k);
    let cells = table_source::cells(text::trim(s));
    let (c, at) = lemma_cell_of(text::trim(s), 0, 0, j);
    let in_cell = lemma_trim_keeps(cells[c], at);
    let cell = text::trim(cells[c]);
    assert(cell[in_cell] == '`');
    assert(!table_source::is_delimiter_cell(cells[c]));
    let parts = table_source::without_blank_ends(cells);
    let a = if text::trim(cells.first()).len() == 0 {
        cells.drop_first()
    } else {
        cells
    };
    let d = if text::trim(cells.first()).len() == 0 {
        c - 1
    } else {
        c
    };
    assert(0 <= d < a.len() && a[d] == cells[c]);
    assert(d < parts.len() && parts[d] == cells[c]);
}

proof fn lemma_spans_have_backticks(s: Seq<char>, i: int, k: int)
    requires
        0 <= i,
        0 <= k < table_source::code_spans(s, i).len(),
    ensures
        0 <= table_source::code_spans(s, i)[k].0 < s.len(),
        s[table_source::code_spans(s, i)[k].0] == '`',
    decreases s.len() - i,
{
    if i < s.len() {
        if s[i] == '\\' {
            let next = if i + 1 < s.len() {
                i + 2
            } else {
                s.len() as int
            };
            lemma_spans_have_backticks(s, next, k);
        } else if s[i] == '`' {
            let n = table_source::run_len(s, i, '`');
            table_source::lemma_run_len(s, i, '`');
            table_source::lemma_closing_run(s, i + n, i + n, n);
            match table_source::closing_run(s, i + n, i + n, n) {
                Some(j) => {
                    let rest = table_source::code_spans(s, j + n);
                    if k > 0 {
                        lemma_spans_have_backticks(s, j + n, k - 1);
                        assert((seq![(i, j + n)] + rest)[k] == rest[k - 1]);
                    }
                },
                None => {
                    lemma_spans_have_backticks(s, i + n, k);
                },
            }
        } else {
            lemma_spans_have_backticks(s, i + 1, k);
        }
    }
}

proof fn lemma_escape_keeps(s: Seq<char>, i: int, k: int) -> (j: int)
    requires
        0 <= i <= k < s.len(),
    ensures
        0 <= j < table_source::escape_from(s, i).len(),
        table_source::escape_from(s, i)[j] == s[k],
    decreases s.len() - i,
{
    let rest = table_source::escape_from(s, i + 1);
    let n: int = if table_source::is_raw_code_pipe(s, i) {
        2
    } else {
        1
    };
    let e = table_source::escape_from(s, i);
    if k == i {
        assert(e[n - 1] == s[i]);
        n - 1
    } else {
        let j = lemma_escape_keeps(s, i + 1, k);
        assert(e[j + n] == rest[j]);
        j + n
    }
}

proof fn lemma_escaped_is_delimiter(s: Seq<char>)
    ensures
        table_source::is_delimiter_row(table_source::escaped_row(s))
            == table_source::is_delimiter_row(s),
{
    if exists|p: int| 0 <= p < s.len() && #[trigger] table_source::is_raw_code_pipe(s, p) {
        let p = choose|p: int| 0 <= p < s.len() && #[trigger] table_source::is_raw_code_pipe(s, p);
        let spans = table_source::code_spans(s, 0);
        let k = choose|k: int| 0 <= k < spans.len() && spans[k].0 <= p < (#[trigger] spans[k]).1;
        lemma_spans_have_backticks(s, 0, k);
        let at = spans[k].0;
        lemma_no_delimiter(s, at);
        let j = lemma_escape_keeps(s, 0, at);
        lemma_no_delimiter(table_source::escaped_row(s), j);
    } else {
        table_escape::lemma_nothing_to_escape(s, 0);
        assert(s.skip(0) =~= s);
    }
}

// ---- a text as its lines ----

/// How many of the first lines are rows.
spec fn row_count(lines: Seq<Seq<char>>) -> int
    decreases lines.len(),
{
    if lines.len() > 0 && table_source::is_row(lines[0]) {
        1 + row_count(lines.skip(1))
    } else {
        0
    }
}

spec fn escaped_list(lines: Seq<Seq<char>>, n: int) -> Seq<Seq<char>> {
    Seq::new(n as nat, |k: int| table_source::escaped_row(lines[k]))
}

spec fn gap_list(lines: Seq<Seq<char>>) -> Seq<Seq<char>> {
    if lines.len() > 0 && text::trim(lines[0]).len() > 0 {
        seq![seq!['\n']]
    } else {
        Seq::empty()
    }
}

spec fn starts_table(lines: Seq<Seq<char>>) -> bool {
    lines.len() >= 2 && table_source::is_row(lines[0]) && table_source::is_delimiter_row(lines[1])
}

/// The rewritten lines.
spec fn rewritten(lines: Seq<Seq<char>>, fence: Option<(char, int)>) -> Seq<Seq<char>>
    decreases lines.len(),
    via rewritten_decreases
{
    if lines.len() == 0 {
        Seq::empty()
    } else {
        match fence {
            Some((marker, count)) => seq![lines[0]] + rewritten(
                lines.skip(1),
                if table_source::closes_fence(lines[0], marker, count) {
                    None
                } else {
                    fence
                },
            ),
            None => if table_source::opening_fence(lines[0]) is Some {
                seq![lines[0]] + rewritten(lines.skip(1), table_source::opening_fence(lines[0]))
            } else if table_source::is_indented_code(lines[0]) {
                seq![lines[0]] + rewritten(lines.skip(1), None)
            } else if starts_table(lines) {
                let rest = lines.skip(2);
                let n = row_count(rest);
                seq![table_source::escaped_row(lines[0]), lines[1]] + escaped_list(rest, n)
                    + gap_list(rest.skip(n)) + rewritten(rest.skip(n), None)
            } else {
                seq![lines[0]] + rewritten(lines.skip(1), None)
            },
        }
    }
}

#[via_fn]
proof fn rewritten_decreases(lines: Seq<Seq<char>>, fence: Option<(char, int)>) {
    if lines.len() >= 2 {
        lemma_row_count(lines.skip(2));
    }
}

proof fn lemma_row_count(lines: Seq<Seq<char>>)
    ensures
        0 <= row_count(lines) <= lines.len(),
        forall|k: int| 0 <= k < row_count(lines) ==> table_source::is_row(#[trigger] lines[k]),
        row_count(lines) < lines.len() ==> !table_source::is_row(lines[row_count(lines)]),
    decreases lines.len(),
{
    if lines.len() > 0 && table_source::is_row(lines[0]) {
        let rest = lines.skip(1);
        lemma_row_count(rest);
        assert forall|k: int| 0 <= k < row_count(lines) implies table_source::is_row(
            #[trigger] lines[k],
        ) by {
            if k > 0 {
                assert(lines[k] == rest[k - 1]);
            }
        }
        if row_count(lines) < lines.len() {
            assert(lines[row_count(lines)] == rest[row_count(rest)]);
        }
    }
}

proof fn lemma_row_count_is(lines: Seq<Seq<char>>, n: int)
    requires
        0 <= n <= lines.len(),
        forall|k: int| 0 <= k < n ==> table_source::is_row(#[trigger] lines[k]),
        n < lines.len() ==> !table_source::is_row(lines[n]),
    ensures
        row_count(lines) == n,
{
    lemma_row_count(lines);
    if row_count(lines) < n {
        assert(table_source::is_row(lines[row_count(lines)]));
    }
    if row_count(lines) > n {
        assert(table_source::is_row(lines[n]));
    }
}

spec fn flat(lines: Seq<Seq<char>>) -> Seq<char>
    decreases lines.len(),
{
    if lines.len() == 0 {
        Seq::empty()
    } else {
        lines[0] + flat(lines.skip(1))
    }
}

proof fn lemma_flat_sum(a: Seq<Seq<char>>, b: Seq<Seq<char>>)
    ensures
        flat(a + b) == flat(a) + flat(b),
    decreases a.len(),
{
    if a.len() == 0 {
        assert(a + b =~= b);
        assert(flat(a) + flat(b) =~= flat(b));
    } else {
        lemma_flat_sum(a.skip(1), b);
        assert((a + b).skip(1) =~= a.skip(1) + b);
        assert(flat(a + b) =~= flat(a) + flat(b));
    }
}

proof fn lemma_flat_one(l: Seq<char>)
    ensures
        flat(seq![l]) == l,
{
    assert(seq![l].skip(1) =~= Seq::<Seq<char>>::empty());
    assert(flat(seq![l].skip(1)) =~= Seq::<char>::empty());
    assert(flat(seq![l]) =~= l);
}

proof fn lemma_rows_of_rest(lines: Seq<Seq<char>>, i: int)
    requires
        0 <= i <= lines.len(),
    ensures
        table_source::rows_end(lines, i) == i + row_count(lines.skip(i)),
    decreases lines.len() - i,
{
    if i < lines.len() && table_source::is_row(lines[i]) {
        lemma_rows_of_rest(lines, i + 1);
        assert(lines.skip(i).skip(1) =~= lines.skip(i + 1));
    }
}

proof fn lemma_flat_escaped(lines: Seq<Seq<char>>, i: int, n: int)
    requires
        0 <= i,
        0 <= n <= lines.len() - i,
    ensures
        flat(escaped_list(lines.skip(i), n)) == table_source::escaped_rows(lines, i, i + n),
    decreases n,
{
    let list = escaped_list(lines.skip(i), n);
    if n == 0 {
        assert(list =~= Seq::empty());
    } else {
        lemma_flat_escaped(lines, i, n - 1);
        let before = escaped_list(lines.skip(i), n - 1);
        let last = table_source::escaped_row(lines[i + n - 1]);
        assert(list =~= before + seq![last]);
        lemma_flat_sum(before, seq![last]);
        lemma_flat_one(last);
    }
}

/// The rewritten text is the rewritten lines put together.
proof fn lemma_flat_rewritten(lines: Seq<Seq<char>>, i: int, fence: Option<(char, int)>)
    requires
        0 <= i <= lines.len(),
    ensures
        flat(rewritten(lines.skip(i), fence)) == table_source::normalized(lines, i, fence),
    decreases lines.len() - i,
{
    let rest = lines.skip(i);
    if i < lines.len() {
        assert(rest.skip(1) =~= lines.skip(i + 1));
        assert(rest[0] == lines[i]);
        if fence is None && table_source::opening_fence(rest[0]) is None
            && !table_source::is_indented_code(rest[0]) && starts_table(rest) {
            let body = rest.skip(2);
            let n = row_count(body);
            assert(body =~= lines.skip(i + 2));
            assert(rest[1] == lines[i + 1]);
            lemma_row_count(body);
            lemma_rows_of_rest(lines, i + 2);
            let end = i + 2 + n;
            assert(body.skip(n) =~= lines.skip(end));
            lemma_flat_rewritten(lines, end, None);
            lemma_flat_escaped(lines, i + 2, n);
            let head = seq![table_source::escaped_row(lines[i]), lines[i + 1]];
            let first = seq![table_source::escaped_row(lines[i])];
            let second = seq![lines[i + 1]];
            assert(head =~= first + second);
            lemma_flat_sum(first, second);
            lemma_flat_one(table_source::escaped_row(lines[i]));
            lemma_flat_one(lines[i + 1]);
            let rows = escaped_list(body, n);
            let gap = gap_list(body.skip(n));
            lemma_flat_one(seq!['\n']);
            assert(flat(Seq::<Seq<char>>::empty()) =~= Seq::<char>::empty());
            if end < lines.len() {
                assert(body.skip(n)[0] == lines[end]);
            }
            assert(flat(gap) == table_source::table_gap(lines, end));
            lemma_flat_sum(head, rows);
            lemma_flat_sum(head + rows, gap);
            lemma_flat_sum(head + rows + gap, rewritten(body.skip(n), None));
        } else {
            let next = match fence {
                Some((marker, count)) => if table_source::closes_fence(lines[i], marker, count) {
                    None
                } else {
                    fence
                },
                None => table_source::opening_fence(lines[i]),
            };
            lemma_flat_rewritten(lines, i + 1, next);
            if i + 1 < lines.len() {
                assert(rest[1] == lines[i + 1]);
            }
            lemma_flat_sum(seq![lines[i]], rewritten(rest.skip(1), next));
            lemma_flat_one(lines[i]);
        }
    }
}

/// The first of the rewritten lines is the first line, escaped where it begins a table.
proof fn lemma_first_rewritten(lines: Seq<Seq<char>>)
    ensures
        lines.len() == 0 ==> rewritten(lines, None).len() == 0,
        lines.len() > 0 ==> rewritten(lines, None).len() > 0 && (rewritten(lines, None)[0]
            == lines[0] || rewritten(lines, None)[0] == table_source::escaped_row(lines[0])
            && table_source::is_row(lines[0])),
{
}

proof fn lemma_line_break_is_plain()
    ensures
        table_source::opening_fence(seq!['\n']) is None,
        !table_source::is_indented_code(seq!['\n']),
        !table_source::is_row(seq!['\n']),
        text::trim(seq!['\n']).len() == 0,
{
    let s = seq!['\n'];
    assert(table_source::run_len(s, 0, ' ') == 0);
    assert(s.skip(0) =~= s);
    reveal_strlit("    ");
    reveal_strlit("\t");
    lemma_prefix_is("    "@, s);
    lemma_prefix_is("\t"@, s);
    assert(s.drop_first() =~= Seq::<char>::empty());
    assert(text::trim_start(s) == text::trim_start(s.drop_first()));
    assert(text::trim(s) =~= Seq::<char>::empty());
    lemma_blank_is_no_row(s);
}

proof fn lemma_blank_is_no_row(s: Seq<char>)
    requires
        text::trim(s).len() == 0,
    ensures
        !table_source::is_row(s),
{
    assert(table_source::cells(text::trim(s)).len() == 1);
}

proof fn lemma_table_again(lines: Seq<Seq<char>>)
    requires
        table_source::opening_fence(lines[0]) is None,
        !table_source::is_indented_code(lines[0]),
        starts_table(lines),
        ({
            let after = lines.skip(2).skip(row_count(lines.skip(2)));
            rewritten(rewritten(after, None), None) == rewritten(after, None)
        }),
    ensures
        rewritten(rewritten(lines, None), None) == rewritten(lines, None),
{
    let body = lines.skip(2);
    let n = row_count(body);
    lemma_row_count(body);
    let after = body.skip(n);
    let head = table_source::escaped_row(lines[0]);
    let rows = escaped_list(body, n);
    let gap = gap_list(after);
    let tail = rewritten(after, None);
    let all = rewritten(lines, None);
    assert(all =~= seq![head, lines[1]] + rows + gap + tail);
    assert(all[0] == head && all[1] == lines[1]);
    lemma_escaped_start(lines[0], 0);
    lemma_escaped_is_row(lines[0]);
    assert(starts_table(all));
    let again = all.skip(2);
    assert(again =~= rows + gap + tail);
    assert forall|k: int| 0 <= k < n implies table_source::is_row(#[trigger] again[k]) by {
        assert(again[k] == table_source::escaped_row(body[k]));
        assert(table_source::is_row(body[k]));
        lemma_escaped_is_row(body[k]);
    }
    lemma_line_break_is_plain();
    lemma_first_rewritten(after);
    if gap.len() > 0 {
        assert(again[n] == seq!['\n']);
    } else if after.len() > 0 {
        lemma_blank_is_no_row(after[0]);
        assert(again[n] == tail[0]);
        assert(tail[0] == after[0]);
    }
    lemma_row_count_is(again, n);
    assert(escaped_list(again, n) =~= rows) by {
        assert forall|k: int| 0 <= k < n implies table_source::escaped_row(#[trigger] again[k])
            == rows[k] by {
            assert(again[k] == rows[k]);
            table_escape::escaped_rows_keep_their_cells(body[k]);
        }
    }
    let behind = again.skip(n);
    assert(behind =~= gap + tail);
    if gap.len() > 0 {
        assert(behind[0] == seq!['\n']);
        assert(behind.skip(1) =~= tail);
        assert(rewritten(behind, None) == seq![seq!['\n']] + rewritten(tail, None));
        assert(gap_list(behind) =~= Seq::empty());
        assert(rewritten(behind, None) =~= gap + tail);
    } else {
        assert(behind =~= tail);
        assert(gap_list(behind) =~= Seq::empty());
    }
    table_escape::escaped_rows_keep_their_cells(lines[0]);
    assert(rewritten(all, None) == seq![table_source::escaped_row(all[0]), all[1]] + escaped_list(
        again,
        n,
    ) + gap_list(behind) + rewritten(behind, None));
    assert(rewritten(all, None) =~= all);
}

/// Rewriting lines again changes nothing.
proof fn lemma_rewritten_again(lines: Seq<Seq<char>>, fence: Option<(char, int)>)
    ensures
        rewritten(rewritten(lines, fence), fence) == rewritten(lines, fence),
    decreases lines.len(),
{
    if lines.len() > 0 {
        let all = rewritten(lines, fence);
        if fence is None && table_source::opening_fence(lines[0]) is None
            && !table_source::is_indented_code(lines[0]) && starts_table(lines) {
            let body = lines.skip(2);
            lemma_row_count(body);
            lemma_rewritten_again(body.skip(row_count(body)), None);
            lemma_table_again(lines);
        } else {
            let next = match fence {
                Some((marker, count)) => if table_source::closes_fence(lines[0], marker, count) {
                    None
                } else {
                    fence
                },
                None => table_source::opening_fence(lines[0]),
            };
            let rest = rewritten(lines.skip(1), next);
            lemma_rewritten_again(lines.skip(1), next);
            assert(all == seq![lines[0]] + rest);
            assert(all[0] == lines[0]);
            assert(all.skip(1) =~= rest);
            if fence is None && next is None && !table_source::is_indented_code(lines[0]) {
                assert(!starts_table(all)) by {
                    lemma_first_rewritten(lines.skip(1));
                    if all.len() >= 2 {
                        assert(lines.len() >= 2);
                        assert(lines.skip(1)[0] == lines[1]);
                        assert(all[1] == rest[0]);
                        lemma_escaped_is_delimiter(lines[1]);
                    }
                }
            }
            assert(rewritten(all, fence) == seq![lines[0]] + rewritten(rest, next));
        }
    }
}

// ---- lines of a text ----

/// Whether lines are those of a text: none is empty, each but the last ends with a line break,
/// and there is none before.
spec fn are_lines(lines: Seq<Seq<char>>) -> bool {
    &&& forall|k: int| 0 <= k < lines.len() ==> is_line(#[trigger] lines[k])
    &&& forall|k: int| 0 <= k < lines.len() - 1 ==> (#[trigger] lines[k]).last() == '\n'
}

spec fn is_line(l: Seq<char>) -> bool {
    l.len() > 0 && forall|j: int| 0 <= j < l.len() - 1 ==> #[trigger] l[j] != '\n'
}

proof fn lemma_split_flat(lines: Seq<Seq<char>>)
    requires
        are_lines(lines),
    ensures
        text::lines_inclusive(flat(lines)) == lines,
    decreases lines.len(),
{
    if lines.len() == 0 {
        assert(text::lines_inclusive(flat(lines)) =~= lines);
    } else {
        let l = lines[0];
        let rest = lines.skip(1);
        assert(are_lines(rest)) by {
            assert forall|k: int| 0 <= k < rest.len() implies is_line(#[trigger] rest[k]) by {
                assert(rest[k] == lines[k + 1]);
            }
            assert forall|k: int| 0 <= k < rest.len() - 1 implies (#[trigger] rest[k]).last()
                == '\n' by {
                assert(rest[k] == lines[k + 1]);
            }
        }
        lemma_split_flat(rest);
        let s = flat(lines);
        assert(is_line(l));
        assert forall|j: int| 0 <= j < l.len() - 1 implies s[j] != '\n' by {
            assert(s[j] == l[j]);
        }
        assert(s[l.len() - 1] == l.last());
        if l.last() == '\n' {
            text::lemma_first_index_is(s, '\n', l.len() - 1);
            assert(s.take(l.len() as int) =~= l);
            assert(s.skip(l.len() as int) =~= flat(rest));
            assert(text::lines_inclusive(s) =~= seq![l] + rest);
            assert(seq![l] + rest =~= lines);
        } else {
            assert(lines.len() == 1);
            assert(rest =~= Seq::empty());
            assert(s =~= l);
            text::lemma_first_index(s, '\n');
            assert(text::first_index(s, '\n') == s.len()) by {
                if text::first_index(s, '\n') < s.len() {
                    assert(s[text::first_index(s, '\n')] == '\n');
                }
            }
            assert(text::lines_inclusive(s) =~= lines);
        }
    }
}

proof fn lemma_lines_are_lines(s: Seq<char>)
    ensures
        are_lines(text::lines_inclusive(s)),
        flat(text::lines_inclusive(s)) == s,
    decreases s.len(),
{
    let lines = text::lines_inclusive(s);
    let i = text::first_index(s, '\n');
    text::lemma_first_index(s, '\n');
    if s.len() == 0 {
        assert(flat(lines) =~= s);
    } else if i < s.len() {
        let l = s.take(i + 1);
        let rest = text::lines_inclusive(s.skip(i + 1));
        lemma_lines_are_lines(s.skip(i + 1));
        assert(lines == seq![l] + rest);
        assert(is_line(l));
        assert(l.last() == '\n');
        assert forall|k: int| 0 <= k < lines.len() implies is_line(#[trigger] lines[k]) by {
            if k > 0 {
                assert(lines[k] == rest[k - 1]);
            }
        }
        assert forall|k: int| 0 <= k < lines.len() - 1 implies (#[trigger] lines[k]).last()
            == '\n' by {
            if k > 0 {
                assert(lines[k] == rest[k - 1]);
            }
        }
        assert(lines.skip(1) =~= rest);
        assert(flat(lines) =~= s);
    } else {
        assert(is_line(s));
        lemma_flat_one(s);
    }
}

proof fn lemma_escape_is_line(s: Seq<char>, i: int)
    requires
        0 <= i < s.len(),
        is_line(s),
    ensures
        is_line(table_source::escape_from(s, i)),
        table_source::escape_from(s, i).last() == s.last(),
    decreases s.len() - i,
{
    let e = table_source::escape_from(s, i);
    let rest = table_source::escape_from(s, i + 1);
    let n: int = if table_source::is_raw_code_pipe(s, i) {
        2
    } else {
        1
    };
    if i + 1 < s.len() {
        lemma_escape_is_line(s, i + 1);
        assert(s[i] != '\n');
        assert(e.len() == n + rest.len());
        assert forall|j: int| 0 <= j < e.len() - 1 implies #[trigger] e[j] != '\n' by {
            if j >= n {
                assert(e[j] == rest[j - n]);
            }
        }
        assert(e.last() == rest.last());
    } else {
        assert(rest =~= Seq::<char>::empty());
        assert(e.last() == s.last());
    }
}

proof fn lemma_joined_lines(a: Seq<Seq<char>>, b: Seq<Seq<char>>)
    requires
        are_lines(a),
        are_lines(b),
        a.len() > 0 && b.len() > 0 ==> a.last().last() == '\n',
    ensures
        are_lines(a + b),
{
    let all = a + b;
    assert forall|k: int| 0 <= k < all.len() implies is_line(#[trigger] all[k]) by {
        if k < a.len() {
            assert(all[k] == a[k]);
        } else {
            assert(all[k] == b[k - a.len()]);
        }
    }
    assert forall|k: int| 0 <= k < all.len() - 1 implies (#[trigger] all[k]).last() == '\n' by {
        if k < a.len() {
            assert(all[k] == a[k]);
        } else {
            assert(all[k] == b[k - a.len()]);
        }
    }
}

proof fn lemma_rest_is_lines(lines: Seq<Seq<char>>, n: int)
    requires
        are_lines(lines),
        0 <= n <= lines.len(),
    ensures
        are_lines(lines.skip(n)),
{
    let rest = lines.skip(n);
    assert forall|k: int| 0 <= k < rest.len() implies is_line(#[trigger] rest[k]) by {
        assert(rest[k] == lines[k + n]);
    }
    assert forall|k: int| 0 <= k < rest.len() - 1 implies (#[trigger] rest[k]).last() == '\n' by {
        assert(rest[k] == lines[k + n]);
    }
}

/// The rewritten lines are those of a text again.
proof fn lemma_rewritten_is_lines(lines: Seq<Seq<char>>, fence: Option<(char, int)>)
    requires
        are_lines(lines),
    ensures
        are_lines(rewritten(lines, fence)),
        rewritten(lines, fence).len() > 0 <==> lines.len() > 0,
    decreases lines.len(),
{
    if lines.len() > 0 {
        if fence is None && table_source::opening_fence(lines[0]) is None
            && !table_source::is_indented_code(lines[0]) && starts_table(lines) {
            let body = lines.skip(2);
            let n = row_count(body);
            lemma_row_count(body);
            let after = body.skip(n);
            lemma_rest_is_lines(lines, 2);
            lemma_rest_is_lines(body, n);
            lemma_rewritten_is_lines(after, None);
            lemma_escape_is_line(lines[0], 0);
            let head = seq![table_source::escaped_row(lines[0]), lines[1]];
            assert(is_line(lines[0]) && is_line(lines[1]));
            assert(lines[0].last() == '\n');
            assert(are_lines(head));
            let rows = escaped_list(body, n);
            assert forall|k: int| 0 <= k < n implies is_line(#[trigger] rows[k]) && rows[k].last()
                == body[k].last() by {
                assert(is_line(body[k]));
                lemma_escape_is_line(body[k], 0);
            }
            assert(are_lines(rows)) by {
                assert forall|k: int| 0 <= k < rows.len() - 1 implies (#[trigger] rows[k]).last()
                    == '\n' by {
                    assert(body[k].last() == '\n');
                }
            }
            if n > 0 {
                assert(body[0] == lines[2]);
                assert(lines[1].last() == '\n');
            }
            lemma_joined_lines(head, rows);
            let gap = gap_list(after);
            assert(are_lines(gap));
            let so_far = head + rows;
            if after.len() > 0 {
                if n > 0 {
                    assert(so_far.last() == rows[n - 1]);
                    assert(body[n - 1].last() == '\n');
                } else {
                    assert(so_far.last() == lines[1]);
                    assert(body[0] == lines[2]);
                    assert(lines[1].last() == '\n');
                }
            }
            lemma_joined_lines(so_far, gap);
            lemma_joined_lines(so_far + gap, rewritten(after, None));
        } else {
            let next = match fence {
                Some((marker, count)) => if table_source::closes_fence(lines[0], marker, count) {
                    None
                } else {
                    fence
                },
                None => table_source::opening_fence(lines[0]),
            };
            lemma_rest_is_lines(lines, 1);
            lemma_rewritten_is_lines(lines.skip(1), next);
            assert(is_line(lines[0]));
            assert(are_lines(seq![lines[0]]));
            lemma_joined_lines(seq![lines[0]], rewritten(lines.skip(1), next));
            assert(rewritten(lines, fence) == seq![lines[0]] + rewritten(lines.skip(1), next));
        }
    }
}

// ---- laws ----

/// A text whose tables were rewritten, as `normalize_table_boundaries` does it.
pub open spec fn normal_text(s: Seq<char>) -> Seq<char> {
    table_source::normalized(text::lines_inclusive(s), 0, None)
}

/// Rewriting the tables of a text again changes nothing.
pub proof fn normalizing_again_changes_nothing(s: Seq<char>)
    ensures
        normal_text(normal_text(s)) == normal_text(s),
{
    let lines = text::lines_inclusive(s);
    let again = rewritten(lines, None);
    lemma_lines_are_lines(s);
    assert(lines.skip(0) =~= lines);
    lemma_flat_rewritten(lines, 0, None);
    lemma_rewritten_is_lines(lines, None);
    lemma_split_flat(again);
    assert(again.skip(0) =~= again);
    lemma_flat_rewritten(again, 0, None);
    lemma_rewritten_again(lines, None);
}

proof fn lemma_one_cell(s: Seq<char>, start: int, i: int)
    requires
        0 <= i,
        !s.contains('|'),
    ensures
        table_source::cells_from(s, start, i).len() == 1,
    decreases s.len() - i,
{
    if i < s.len() {
        assert(s[i] != '|');
        lemma_one_cell(s, start, i + 1);
    }
}

proof fn lemma_nothing_to_rewrite(lines: Seq<Seq<char>>, fence: Option<(char, int)>)
    requires
        forall|k: int| 0 <= k < lines.len() ==> !(#[trigger] lines[k]).contains('|'),
    ensures
        rewritten(lines, fence) == lines,
    decreases lines.len(),
{
    if lines.len() > 0 {
        let next = match fence {
            Some((marker, count)) => if table_source::closes_fence(lines[0], marker, count) {
                None
            } else {
                fence
            },
            None => table_source::opening_fence(lines[0]),
        };
        assert forall|k: int| 0 <= k < lines.skip(1).len() implies !(
        #[trigger] lines.skip(1)[k]).contains('|') by {
            assert(lines.skip(1)[k] == lines[k + 1]);
        }
        lemma_nothing_to_rewrite(lines.skip(1), next);
        assert(!lines[0].contains('|'));
        lemma_trimmed_cells(lines[0]);
        lemma_one_cell(lines[0], 0, 0);
        assert(seq![lines[0]] + lines.skip(1) =~= lines);
    }
}

proof fn lemma_part_of_flat(lines: Seq<Seq<char>>, k: int, c: char)
    requires
        0 <= k < lines.len(),
        lines[k].contains(c),
    ensures
        flat(lines).contains(c),
    decreases lines.len(),
{
    let rest = flat(lines.skip(1));
    if k == 0 {
        let j = choose|j: int| 0 <= j < lines[0].len() && lines[0][j] == c;
        assert(flat(lines)[j] == c);
    } else {
        assert(lines.skip(1)[k - 1] == lines[k]);
        lemma_part_of_flat(lines.skip(1), k - 1, c);
        let j = choose|j: int| 0 <= j < rest.len() && rest[j] == c;
        assert(flat(lines)[lines[0].len() + j] == c);
    }
}

/// A text without pipes has no tables and stays as it is.
pub proof fn text_without_pipes_is_kept(s: Seq<char>)
    requires
        !s.contains('|'),
    ensures
        normal_text(s) == s,
{
    let lines = text::lines_inclusive(s);
    lemma_lines_are_lines(s);
    assert forall|k: int| 0 <= k < lines.len() implies !(#[trigger] lines[k]).contains('|') by {
        if lines[k].contains('|') {
            lemma_part_of_flat(lines, k, '|');
        }
    }
    lemma_nothing_to_rewrite(lines, None);
    assert(lines.skip(0) =~= lines);
    lemma_flat_rewritten(lines, 0, None);
}

} // verus!
