use codex_workbench::display::truncate_to_width;
use codex_workbench::display::width_of_char;
use codex_workbench::spans::text_of_line;
use codex_workbench::spans::width_of_line;
use codex_workbench::spans::Span;
use codex_workbench::spans::Tone;
use codex_workbench::table_layout::TableCell;
use codex_workbench::table_render::render_table_lines;
use codex_workbench::table_render::render_table_row;
use codex_workbench::table_render::render_vertical_table;
use codex_workbench::table_render::wrap_table_cell;
use codex_workbench::table_layout::grow_columns_to_targets;
use codex_workbench::table_source::escape_inline_code_pipes_in_table_row;
use codex_workbench::table_source::normalize_table_boundaries;
use codex_workbench::table_source::table_cell_sources;

#[test]
fn table_cell_sources_ignore_escaped_and_inline_code_pipes() {
    let cells = table_cell_sources("| a | `b | c` | d \\| e |");

    assert_eq!(
        cells.iter().map(|cell| cell.trim()).collect::<Vec<_>>(),
        vec!["", "a", "`b | c`", "d \\| e", ""]
    );
}

#[test]
fn normalizing_a_text_again_changes_nothing() {
    let text = "| A | B |\n|---|---|\n| `a|b` | c |\nafter\n\n```\n| x | y |\n```\n";
    let once = normalize_table_boundaries(text);
    assert_eq!(
        once,
        "| A | B |\n|---|---|\n| `a\\|b` | c |\n\nafter\n\n```\n| x | y |\n```\n"
    );
    assert_eq!(normalize_table_boundaries(&once), once);
}

#[test]
fn a_text_without_pipes_is_kept() {
    let text = "# Title\n\n---\n- item\n    code\n~~~\nfence";
    assert_eq!(normalize_table_boundaries(text), text);
}

#[test]
fn table_row_normalization_escapes_raw_pipes_inside_inline_code() {
    assert_eq!(
        escape_inline_code_pipes_in_table_row("| A | `a | b` | ``x ` | y`` |\n"),
        "| A | `a \\| b` | ``x ` \\| y`` |\n"
    );
}

#[test]
fn table_row_normalization_preserves_existing_escaped_pipes() {
    assert_eq!(
        escape_inline_code_pipes_in_table_row("| A | `a \\| b` |\n"),
        "| A | `a \\| b` |\n"
    );
}

#[test]
fn table_row_normalization_ignores_unclosed_inline_code() {
    assert_eq!(
        escape_inline_code_pipes_in_table_row("| A | `a | b |\n"),
        "| A | `a | b |\n"
    );
}

#[test]
fn text_without_tables_is_left_alone() {
    let text = "one | two\nthree\n\n- four\n";
    assert_eq!(normalize_table_boundaries(text), text);
    assert_eq!(normalize_table_boundaries(""), "");
}

fn cell(text: &str) -> TableCell {
    TableCell {
        lines: vec![vec![span(text, Tone::Plain)]],
    }
}

fn span(text: &str, tone: Tone) -> Span {
    Span {
        text: text.to_string(),
        tone,
    }
}

fn texts(lines: &[Vec<Span>]) -> Vec<String> {
    lines.iter().map(|line| text_of_line(line)).collect()
}

fn pieces(line: &[Span]) -> Vec<(&str, Tone)> {
    line.iter()
        .map(|span| (span.text.as_str(), span.tone))
        .collect()
}

fn rows(texts: &[&[&str]]) -> Vec<Vec<TableCell>> {
    texts
        .iter()
        .map(|row| row.iter().map(|text| cell(text)).collect())
        .collect()
}

#[test]
fn tables_are_drawn_with_a_frame() {
    let lines = render_table_lines(&rows(&[&["Area", "Result"], &["One", "Two"]]), Some(48));
    assert_eq!(
        texts(&lines),
        vec![
            "┌──────┬────────┐",
            "│ Area │ Result │",
            "├──────┼────────┤",
            "│ One  │ Two    │",
            "└──────┴────────┘",
        ]
    );
}

#[test]
fn wide_characters_count_twice() {
    assert_eq!(width_of_char('界'), 2);
    assert_eq!(width_of_char('a'), 1);
    assert_eq!(truncate_to_width("世界人", 5), "世界…");
    assert_eq!(truncate_to_width("abc", 5), "abc");
}

#[test]
fn rows_are_listed_field_by_field() {
    let table = rows(&[
        &["#", "Name", "State"],
        &["1", "Ann", ""],
        &["2", "Bob", "open"],
    ]);
    assert_eq!(
        texts(&render_vertical_table(&table, 40)),
        vec![
            "┌───────┬──────┐",
            "│  Name │ Ann  │",
            "│ State │ —    │",
            "├───────┼──────┤",
            "│  Name │ Bob  │",
            "│ State │ open │",
            "└───────┴──────┘",
        ]
    );
}

#[test]
fn cells_are_wrapped_at_words() {
    assert_eq!(
        texts(&wrap_table_cell(&cell("one two three"), 7, false)),
        vec!["one two", "three"]
    );
    assert_eq!(
        texts(&wrap_table_cell(&cell("abcdefgh"), 4, true)),
        vec!["abcd", "efgh"]
    );
}

#[test]
fn escaping_again_changes_nothing() {
    let row = "| `a|b||c` | d \\| ``e`|f`` |";
    let escaped = escape_inline_code_pipes_in_table_row(row);
    assert_eq!(escaped, "| `a\\|b\\|\\|c` | d \\| ``e`\\|f`` |");
    assert_eq!(escape_inline_code_pipes_in_table_row(&escaped), escaped);
    assert_eq!(table_cell_sources(&escaped).len(), table_cell_sources(row).len());
}

#[test]
fn columns_grow_alike() {
    let mut widths = vec![3, 3, 3];
    let mut remaining = 3;
    grow_columns_to_targets(&mut widths, &mut remaining, &[10, 3, 10, 99]);
    assert_eq!((widths, remaining), (vec![5, 3, 4], 0));
}

#[test]
fn wrapped_cells_keep_their_styles() {
    let styled = TableCell {
        lines: vec![vec![
            span("run ", Tone::Plain),
            span("one two", Tone::Rendered(3)),
            span(" now", Tone::Bold),
        ]],
    };
    let lines = wrap_table_cell(&styled, 7, false);
    assert_eq!(
        lines.iter().map(|line| pieces(line)).collect::<Vec<_>>(),
        vec![
            vec![("run ", Tone::Plain), ("one", Tone::Rendered(3))],
            vec![("two", Tone::Rendered(3)), (" now", Tone::Bold)],
        ]
    );
    assert_eq!(width_of_line(&lines[0]), 7);
    let empty = TableCell {
        lines: vec![vec![span("", Tone::Bold)]],
    };
    let lines = wrap_table_cell(&empty, 7, false);
    assert_eq!(lines.len(), 1);
    assert!(lines[0].is_empty());
    let none = TableCell { lines: Vec::new() };
    assert_eq!(wrap_table_cell(&none, 7, false).len(), 1);
}

#[test]
fn frames_are_plain_and_cells_are_styled() {
    let row = vec![
        TableCell {
            lines: vec![vec![span("ab", Tone::Bold)]],
        },
        cell("c"),
    ];
    let lines = render_table_row(&row, &[3, 1], 1, false);
    assert_eq!(lines.len(), 1);
    assert_eq!(
        pieces(&lines[0]),
        vec![
            ("│", Tone::Plain),
            (" ", Tone::Plain),
            ("ab", Tone::Bold),
            (" ", Tone::Plain),
            (" ", Tone::Plain),
            ("│", Tone::Plain),
            (" ", Tone::Plain),
            ("c", Tone::Plain),
            (" ", Tone::Plain),
            ("│", Tone::Plain),
        ]
    );
    let pairs = render_vertical_table(
        &[
            vec![cell("K")],
            vec![TableCell {
                lines: vec![vec![span("v", Tone::Rendered(1))]],
            }],
        ],
        20,
    );
    assert_eq!(
        pieces(&pairs[1]),
        vec![
            ("│ ", Tone::Plain),
            ("  ", Tone::Plain),
            ("K", Tone::Plain),
            (" │ ", Tone::Plain),
            ("v", Tone::Rendered(1)),
            ("  ", Tone::Plain),
            (" │", Tone::Plain),
        ]
    );
}
