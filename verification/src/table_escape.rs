//! What escaping a table row keeps: its cells, and the row itself when it is escaped again.

use vstd::prelude::*;

#[allow(unused_imports)]
use crate::table_source;

verus! {

/// A row with a backslash before position `p`.
pub open spec fn with_backslash(s: Seq<char>, p: int) -> Seq<char> {
    s.insert(p, '\\')
}

/// Where the boundary before position `i` lies once there is one more character before `p`.
pub open spec fn boundary(i: int, p: int) -> int {
    if i <= p {
        i
    } else {
        i + 1
    }
}

/// Where the character at `i` stands once there is one more character before `p`.
pub open spec fn place(i: int, p: int) -> int {
    if i < p {
        i
    } else {
        i + 1
    }
}

/// Ranges once there is one more character before `p`.
pub open spec fn moved(ranges: Seq<(int, int)>, p: int) -> Seq<(int, int)> {
    Seq::new(ranges.len(), |k: int| (boundary(ranges[k].0, p), boundary(ranges[k].1, p)))
}

proof fn lemma_run_is_moved(s: Seq<char>, p: int, i: int)
    requires
        0 <= p < s.len(),
        s[p] == '|',
        0 <= i <= s.len(),
    ensures
        table_source::run_len(with_backslash(s, p), boundary(i, p), '`') == table_source::run_len(
            s,
            i,
            '`',
        ),
    decreases s.len() - i,
{
    if i < s.len() && i != p && s[i] == '`' {
        lemma_run_is_moved(s, p, i + 1);
    }
}

proof fn lemma_closing_is_moved(s: Seq<char>, p: int, from: int, j: int, n: int)
    requires
        0 <= p < s.len(),
        s[p] == '|',
        0 <= from <= j <= s.len(),
        n >= 1,
    ensures
        table_source::closing_run(with_backslash(s, p), boundary(from, p), boundary(j, p), n) == (
        match table_source::closing_run(s, from, j, n) {
            Some(k) => Some(boundary(k, p)),
            None => None,
        }),
    decreases s.len() - j,
{
    let t = with_backslash(s, p);
    if j < s.len() {
        lemma_run_is_moved(s, p, j);
        lemma_closing_is_moved(s, p, from, j + 1, n);
        if j == p {
            assert(t[p] == '\\' && t[p + 1] == '|');
            assert(table_source::closing_run(t, boundary(from, p), p, n)
                == table_source::closing_run(t, boundary(from, p), p + 1, n));
        } else {
            assert(t[boundary(j, p)] == s[j]);
            if j == from {
            } else if j < p {
                assert(t[j - 1] == s[j - 1]);
            } else {
                assert(t[j] == s[j - 1]);
            }
        }
    }
}

proof fn lemma_spans_start_later(s: Seq<char>, i: int, x: int)
    requires
        0 <= x < i,
    ensures
        !table_source::in_ranges(x, table_source::code_spans(s, i)),
    decreases s.len() - i,
{
    if i < s.len() {
        if s[i] == '\\' {
            lemma_spans_start_later(
                s,
                if i + 1 < s.len() {
                    i + 2
                } else {
                    s.len() as int
                },
                x,
            );
        } else if s[i] == '`' {
            let n = table_source::run_len(s, i, '`');
            table_source::lemma_run_len(s, i, '`');
            table_source::lemma_closing_run(s, i + n, i + n, n);
            match table_source::closing_run(s, i + n, i + n, n) {
                Some(k) => {
                    lemma_spans_start_later(s, k + n, x);
                    lemma_in_first_or_rest(x, i, k + n, table_source::code_spans(s, k + n));
                },
                None => {
                    lemma_spans_start_later(s, i + n, x);
                },
            }
        } else {
            lemma_spans_start_later(s, i + 1, x);
        }
    }
}

proof fn lemma_later_spans_are_moved(s: Seq<char>, p: int, i: int)
    requires
        0 <= p < i,
        p < s.len(),
        s[p] == '|',
    ensures
        table_source::code_spans(with_backslash(s, p), i + 1) == moved(
            table_source::code_spans(s, i),
            p,
        ),
    decreases s.len() - i,
{
    let t = with_backslash(s, p);
    if i < s.len() {
        assert(t[i + 1] == s[i]);
        if s[i] == '\\' {
            let next = if i + 1 < s.len() {
                i + 2
            } else {
                s.len() as int
            };
            lemma_later_spans_are_moved(s, p, next);
        } else if s[i] == '`' {
            let n = table_source::run_len(s, i, '`');
            table_source::lemma_run_len(s, i, '`');
            table_source::lemma_closing_run(s, i + n, i + n, n);
            lemma_run_is_moved(s, p, i);
            lemma_closing_is_moved(s, p, i + n, i + n, n);
            match table_source::closing_run(s, i + n, i + n, n) {
                Some(k) => {
                    lemma_later_spans_are_moved(s, p, k + n);
                    lemma_moved_with_first(i, k + n, table_source::code_spans(s, k + n), p);
                },
                None => {
                    lemma_later_spans_are_moved(s, p, i + n);
                },
            }
        } else {
            lemma_later_spans_are_moved(s, p, i + 1);
        }
    }
    assert(table_source::code_spans(t, i + 1) =~= moved(table_source::code_spans(s, i), p));
}

proof fn lemma_moved_with_first(a: int, b: int, rest: Seq<(int, int)>, p: int)
    ensures
        moved(seq![(a, b)] + rest, p) == seq![(boundary(a, p), boundary(b, p))] + moved(rest, p),
{
    assert(moved(seq![(a, b)] + rest, p) =~= seq![(boundary(a, p), boundary(b, p))] + moved(
        rest,
        p,
    ));
}

proof fn lemma_in_first_or_rest(x: int, a: int, b: int, rest: Seq<(int, int)>)
    ensures
        table_source::in_ranges(x, seq![(a, b)] + rest) == (a <= x < b || table_source::in_ranges(
            x,
            rest,
        )),
{
    let all = seq![(a, b)] + rest;
    if a <= x < b {
        assert(all[0].0 <= x < all[0].1);
    }
    if table_source::in_ranges(x, rest) {
        let k = choose|k: int| 0 <= k < rest.len() && rest[k].0 <= x < (#[trigger] rest[k]).1;
        assert(all[k + 1] == rest[k]);
    }
    if table_source::in_ranges(x, all) {
        let k = choose|k: int| 0 <= k < all.len() && all[k].0 <= x < (#[trigger] all[k]).1;
        if k > 0 {
            assert(rest[k - 1] == all[k]);
        }
    }
}

/// A backslash before a pipe inside a code span moves the spans and makes no others.
proof fn lemma_spans_are_moved(s: Seq<char>, p: int, i: int)
    requires
        0 <= i <= p < s.len(),
        s[p] == '|',
        table_source::in_ranges(p, table_source::code_spans(s, i)),
    ensures
        table_source::code_spans(with_backslash(s, p), i) == moved(
            table_source::code_spans(s, i),
            p,
        ),
    decreases s.len() - i,
{
    let t = with_backslash(s, p);
    if i == p {
        lemma_spans_start_later(s, p + 1, p);
    } else if s[i] == '\\' {
        if i + 1 == p {
            lemma_spans_start_later(s, i + 2, p);
        } else {
            lemma_spans_are_moved(s, p, i + 2);
        }
    } else if s[i] == '`' {
        let n = table_source::run_len(s, i, '`');
        table_source::lemma_run_len(s, i, '`');
        table_source::lemma_closing_run(s, i + n, i + n, n);
        lemma_run_is_moved(s, p, i);
        lemma_closing_is_moved(s, p, i + n, i + n, n);
        assert(i + n <= p);
        match table_source::closing_run(s, i + n, i + n, n) {
            Some(k) => {
                let rest = table_source::code_spans(s, k + n);
                lemma_in_first_or_rest(p, i, k + n, rest);
                lemma_moved_with_first(i, k + n, rest, p);
                table_source::lemma_run_len(s, k, '`');
                if k + n <= p {
                    lemma_spans_are_moved(s, p, k + n);
                } else {
                    assert(k > p);
                    lemma_later_spans_are_moved(s, p, k + n);
                }
            },
            None => {
                lemma_spans_are_moved(s, p, i + n);
            },
        }
    } else {
        lemma_spans_are_moved(s, p, i + 1);
    }
}

proof fn lemma_in_moved(ranges: Seq<(int, int)>, p: int, i: int)
    ensures
        table_source::in_ranges(place(i, p), moved(ranges, p)) == table_source::in_ranges(
            i,
            ranges,
        ),
{
    let m = moved(ranges, p);
    if table_source::in_ranges(i, ranges) {
        let k = choose|k: int| 0 <= k < ranges.len() && ranges[k].0 <= i < (#[trigger] ranges[k]).1;
        assert(m[k].0 <= place(i, p) < m[k].1);
    }
    if table_source::in_ranges(place(i, p), m) {
        let k = choose|k: int| 0 <= k < m.len() && m[k].0 <= place(i, p) < (#[trigger] m[k]).1;
        assert(ranges[k].0 <= i < ranges[k].1);
    }
}

proof fn lemma_escaped_before(s: Seq<char>, p: int, i: int)
    requires
        0 <= i <= p < s.len(),
    ensures
        table_source::escaped(with_backslash(s, p), i) == table_source::escaped(s, i),
    decreases i,
{
    if i > 0 {
        assert(with_backslash(s, p)[i - 1] == s[i - 1]);
        lemma_escaped_before(s, p, i - 1);
    }
}

proof fn lemma_escaped_behind(s: Seq<char>, p: int, i: int)
    requires
        0 <= p < i <= s.len(),
        s[p] == '|',
    ensures
        table_source::escaped(with_backslash(s, p), i + 1) == table_source::escaped(s, i),
    decreases i,
{
    assert(with_backslash(s, p)[i] == s[i - 1]);
    if i - 1 > p {
        lemma_escaped_behind(s, p, i - 1);
    }
}

/// With a backslash before a raw code pipe, that pipe is escaped, and all other characters are
/// what they were.
proof fn lemma_one_backslash(s: Seq<char>, p: int)
    requires
        0 <= p < s.len(),
        table_source::is_raw_code_pipe(s, p),
    ensures
        ({
            let t = with_backslash(s, p);
            &&& t.len() == s.len() + 1
            &&& t[p] == '\\'
            &&& t[p + 1] == '|'
            &&& table_source::escaped(t, p + 1)
            &&& forall|i: int|
                0 <= i < s.len() && i != p ==> {
                    &&& t[place(i, p)] == #[trigger] s[i]
                    &&& table_source::is_raw_code_pipe(t, place(i, p))
                        == table_source::is_raw_code_pipe(s, i)
                    &&& table_source::is_cell_pipe(t, place(i, p)) == table_source::is_cell_pipe(
                        s,
                        i,
                    )
                }
        }),
{
    let t = with_backslash(s, p);
    lemma_spans_are_moved(s, p, 0);
    lemma_escaped_before(s, p, p);
    assert forall|i: int| 0 <= i < s.len() && i != p implies {
        &&& t[place(i, p)] == #[trigger] s[i]
        &&& table_source::is_raw_code_pipe(t, place(i, p)) == table_source::is_raw_code_pipe(s, i)
        &&& table_source::is_cell_pipe(t, place(i, p)) == table_source::is_cell_pipe(s, i)
    } by {
        lemma_in_moved(table_source::code_spans(s, 0), p, i);
        if i < p {
            lemma_escaped_before(s, p, i);
        } else {
            lemma_escaped_behind(s, p, i);
        }
    }
}

proof fn lemma_escaping_behind(s: Seq<char>, p: int, i: int)
    requires
        0 <= p < i <= s.len(),
        table_source::is_raw_code_pipe(s, p),
    ensures
        table_source::escape_from(with_backslash(s, p), i + 1) == table_source::escape_from(s, i),
    decreases s.len() - i,
{
    let t = with_backslash(s, p);
    lemma_one_backslash(s, p);
    if i < s.len() {
        lemma_escaping_behind(s, p, i + 1);
        assert(t[place(i, p)] == s[i]);
    }
}

proof fn lemma_cells_behind(s: Seq<char>, p: int, a: int, b: int, i: int)
    requires
        0 <= p < i <= s.len(),
        table_source::is_raw_code_pipe(s, p),
    ensures
        table_source::cells_from(with_backslash(s, p), a, i + 1).len() == table_source::cells_from(
            s,
            b,
            i,
        ).len(),
    decreases s.len() - i,
{
    let t = with_backslash(s, p);
    lemma_one_backslash(s, p);
    if i < s.len() {
        assert(t[place(i, p)] == s[i]);
        if table_source::is_cell_pipe(s, i) {
            lemma_cells_behind(s, p, i + 2, i + 1, i + 1);
        } else {
            lemma_cells_behind(s, p, a, b, i + 1);
        }
    }
}

proof fn lemma_escaping_before(s: Seq<char>, p: int, i: int)
    requires
        0 <= i <= p < s.len(),
        table_source::is_raw_code_pipe(s, p),
    ensures
        table_source::escape_from(with_backslash(s, p), i) == table_source::escape_from(s, i),
    decreases p - i,
{
    let t = with_backslash(s, p);
    lemma_one_backslash(s, p);
    if i == p {
        lemma_escaping_behind(s, p, p + 1);
        assert(table_source::escape_from(t, p + 1) == seq!['|'] + table_source::escape_from(
            t,
            p + 2,
        ));
        assert(table_source::escape_from(t, p) =~= table_source::escape_from(s, p));
    } else {
        lemma_escaping_before(s, p, i + 1);
        assert(t[place(i, p)] == s[i]);
    }
}

proof fn lemma_cells_before(s: Seq<char>, p: int, a: int, b: int, i: int)
    requires
        0 <= i <= p < s.len(),
        table_source::is_raw_code_pipe(s, p),
    ensures
        table_source::cells_from(with_backslash(s, p), a, i).len() == table_source::cells_from(
            s,
            b,
            i,
        ).len(),
    decreases p - i,
{
    let t = with_backslash(s, p);
    lemma_one_backslash(s, p);
    if i == p {
        lemma_cells_behind(s, p, a, b, p + 1);
        assert(table_source::cells_from(t, a, p + 1) == table_source::cells_from(t, a, p + 2));
    } else {
        assert(t[place(i, p)] == s[i]);
        if table_source::is_cell_pipe(s, i) {
            lemma_cells_before(s, p, i + 1, i + 1, i + 1);
        } else {
            lemma_cells_before(s, p, a, b, i + 1);
        }
    }
}

pub(crate) proof fn lemma_nothing_to_escape(s: Seq<char>, i: int)
    requires
        0 <= i <= s.len(),
        forall|k: int| 0 <= k < s.len() ==> !#[trigger] table_source::is_raw_code_pipe(s, k),
    ensures
        table_source::escape_from(s, i) == s.skip(i),
    decreases s.len() - i,
{
    if i < s.len() {
        lemma_nothing_to_escape(s, i + 1);
        assert(!table_source::is_raw_code_pipe(s, i));
        assert(seq![s[i]] + s.skip(i + 1) =~= s.skip(i));
    }
}

/// With a backslash before its first raw code pipe, a row is escaped as it was, and the next raw
/// code pipe stands behind that one.
pub(crate) proof fn lemma_escape_one(s: Seq<char>, q: int)
    requires
        0 <= q < s.len(),
        table_source::is_raw_code_pipe(s, q),
        forall|k: int| 0 <= k < q ==> !#[trigger] table_source::is_raw_code_pipe(s, k),
    ensures
        table_source::escaped_row(with_backslash(s, q)) == table_source::escaped_row(s),
        with_backslash(s, q).len() == s.len() + 1,
        forall|k: int|
            0 <= k < q + 2 ==> !#[trigger] table_source::is_raw_code_pipe(with_backslash(s, q), k),
{
    let t = with_backslash(s, q);
    lemma_one_backslash(s, q);
    lemma_escaping_before(s, q, 0);
    assert forall|k: int| 0 <= k < q + 2 implies !#[trigger] table_source::is_raw_code_pipe(
        t,
        k,
    ) by {
        if k < q {
            assert(place(k, q) == k);
            assert(t[k] == s[k]);
        }
    }
}

proof fn lemma_escaping_ends(s: Seq<char>, q: int)
    requires
        0 <= q <= s.len(),
        forall|k: int| 0 <= k < q ==> !#[trigger] table_source::is_raw_code_pipe(s, k),
    ensures
        ({
            let t = table_source::escaped_row(s);
            &&& forall|k: int| 0 <= k < t.len() ==> !#[trigger] table_source::is_raw_code_pipe(t, k)
            &&& table_source::cells(t).len() == table_source::cells(s).len()
        }),
    decreases s.len() - q,
{
    if q == s.len() {
        lemma_nothing_to_escape(s, 0);
        assert(s.skip(0) =~= s);
    } else if table_source::is_raw_code_pipe(s, q) {
        let t = with_backslash(s, q);
        lemma_escape_one(s, q);
        lemma_cells_before(s, q, 0, 0, 0);
        lemma_escaping_ends(t, q + 2);
    } else {
        lemma_escaping_ends(s, q + 1);
    }
}

/// In an escaped row every pipe without a backslash ends a cell; the row has as many cells as
/// before; and escaping it again changes nothing.
pub proof fn escaped_rows_keep_their_cells(s: Seq<char>)
    ensures
        ({
            let t = table_source::escaped_row(s);
            &&& table_source::escaped_row(t) == t
            &&& table_source::cells(t).len() == table_source::cells(s).len()
            &&& forall|i: int|
                0 <= i < t.len() && #[trigger] t[i] == '|' && !table_source::escaped(t, i)
                    ==> table_source::is_cell_pipe(t, i)
        }),
{
    let t = table_source::escaped_row(s);
    lemma_escaping_ends(s, 0);
    lemma_nothing_to_escape(t, 0);
    assert(t.skip(0) =~= t);
    assert forall|i: int|
        0 <= i < t.len() && #[trigger] t[i] == '|' && !table_source::escaped(
            t,
            i,
        ) implies table_source::is_cell_pipe(t, i) by {
        assert(!table_source::is_raw_code_pipe(t, i));
    }
}

} // verus!
