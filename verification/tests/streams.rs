use codex_workbench::spans::text_of_line;
use codex_workbench::spans::Span;
use codex_workbench::spans::Tone;
use codex_workbench::stream::delta_commits;
use codex_workbench::stream::PlanStreamController;
use codex_workbench::stream::StreamController;
use codex_workbench::stream::StreamCore;

/// Where the last block of a source starts, in characters.
fn stable_end(source: &str) -> usize {
    match source.trim_end_matches('\n').rfind("\n\n") {
        Some(at) => source[..at + 1].chars().count(),
        None => 0,
    }
}

/// A plain rendering: paragraphs are wrapped, complete tables get a frame.
fn render_texts(source: &str, width: Option<usize>) -> Vec<String> {
    let width = width.unwrap_or(usize::MAX);
    let mut lines: Vec<String> = Vec::new();
    for block in source.split("\n\n").filter(|block| !block.trim().is_empty()) {
        let is_table = block.lines().count() > 2 && block.contains("---");
        if is_table {
            lines.push("┌".to_string());
        }
        for row in block.lines().filter(|row| !row.is_empty()) {
            let mut line = String::new();
            for word in row.split(' ') {
                if !line.is_empty() && line.len() + 1 + word.len() > width {
                    lines.push(std::mem::take(&mut line));
                }
                if !line.is_empty() {
                    line.push(' ');
                }
                line.push_str(word);
            }
            lines.push(line);
        }
    }
    lines
}

/// The same in spans; a table wears a style of its own.
fn render(source: &str, width: Option<usize>) -> Vec<Vec<Span>> {
    styled(render_texts(source, width))
}

fn styled(texts: Vec<String>) -> Vec<Vec<Span>> {
    texts
        .into_iter()
        .map(|text| {
            let tone = if text.starts_with('|') { Tone::Rendered(7) } else { Tone::Plain };
            vec![Span { text, tone }]
        })
        .collect()
}

fn texts(lines: &[Vec<Span>]) -> Vec<String> {
    lines.iter().map(|line| text_of_line(line)).collect()
}

fn push(core: &mut StreamCore, delta: &str) -> bool {
    if !core.push_source(delta, Some(delta)) {
        return false;
    }
    let end = stable_end(&core.raw_source);
    let width = core.width;
    let stable = core.stable_source(end).map(|source| render(&source, width));
    let tail = core.tail_source(end).map(|source| render(&source, width));
    core.sync_from_source(end, stable.unwrap_or_default(), tail.unwrap_or_default())
}

fn set_width(core: &mut StreamCore, width: usize) {
    let end = core.stable_source_end;
    let stable = core.stable_source(end).map(|source| render(&source, Some(width)));
    let tail = core.tail_source(end).map(|source| render(&source, Some(width)));
    core.set_width(Some(width), stable.unwrap_or_default(), tail.unwrap_or_default());
}

fn rendered(core: &StreamCore) -> Vec<Vec<Span>> {
    render(&core.raw_source, core.width)
}

fn tail(ctrl: &StreamController) -> Vec<String> {
    texts(&ctrl.active_tail_cell().map(|cell| cell.lines).unwrap_or_default())
}

fn table_source() -> &'static str {
    "| Area | Result |\n| --- | --- |\n| Streaming resize | This cell contains enough prose to wrap differently across widths. |\n| Scrollback preservation | SENTINEL_TABLE_VALUE_WITH_LONG_UNBREAKABLE_TOKEN |\n"
}

#[test]
fn controller_set_width_rebuilds_queued_lines() {
    let mut ctrl = StreamController::new(Some(120));
    let delta = "This is a long line that should wrap into multiple rows when resized.\n\nnext\n";
    assert!(push(&mut ctrl.core, delta));
    assert_eq!(ctrl.core.queue.len(), 1);

    set_width(&mut ctrl.core, 24);
    let (cell, idle) = ctrl.on_commit_tick_batch(usize::MAX);
    let lines = cell.expect("expected resized queued lines").lines;

    assert!(idle);
    assert!(lines.len() > 1);
}

#[test]
fn controller_set_width_no_duplicate_after_emit() {
    let mut ctrl = StreamController::new(Some(120));
    let line = "This is a long line that definitely wraps when the terminal shrinks to 24 columns.\n\nnext\n";
    push(&mut ctrl.core, line);
    let (cell, _) = ctrl.on_commit_tick_batch(usize::MAX);
    assert!(cell.is_some(), "expected emitted cell");
    assert_eq!(ctrl.core.queue.len(), 0);

    set_width(&mut ctrl.core, 24);

    assert_eq!(
        ctrl.core.queue.len(),
        0,
        "already-emitted content must not be re-queued after resize",
    );
}

#[test]
fn table_resize_lifecycle_streaming_table_stays_active_tail_until_next_block() {
    let mut ctrl = StreamController::new(Some(48));

    assert!(!push(&mut ctrl.core, "| Area | Result |\n"));
    assert_eq!(ctrl.core.queue.len(), 0);
    assert!(tail(&ctrl).iter().any(|line| line.contains("| Area | Result |")));

    assert!(!push(&mut ctrl.core, "| --- | --- |\n"));
    assert!(!push(&mut ctrl.core, "| One | Two |\n"));
    assert!(tail(&ctrl).iter().any(|line| line.contains('┌')));
    assert_eq!(ctrl.core.queue.len(), 0);

    assert!(push(&mut ctrl.core, "\nAfter table.\n"));
    assert!(!ctrl.core.queue.is_empty());
    assert_eq!(tail(&ctrl), Vec::<String>::new());

    let (_cell, idle) = ctrl.on_commit_tick_batch(/*max_lines*/ usize::MAX);
    assert!(idle);
    assert!(tail(&ctrl).iter().any(|line| line.contains("After table.")));
}

#[test]
fn active_tail_waits_for_queued_stable_blocks() {
    let mut ctrl = StreamController::new(/*width*/ Some(80));

    assert!(push(&mut ctrl.core, "first\n\nsecond\n"));
    assert_eq!(tail(&ctrl), Vec::<String>::new());

    let (cell, idle) = ctrl.on_commit_tick();
    let cell = cell.expect("expected queued stable block to emit first");
    assert_eq!(texts(&cell.lines), vec!["first"]);
    assert!(cell.is_first);
    assert!(idle);

    let cell = ctrl.active_tail_cell().expect("expected active tail");
    assert_eq!(texts(&cell.lines), vec!["second"]);
    assert!(!cell.is_first);
}

#[test]
fn plan_active_tail_waits_for_queued_stable_blocks() {
    let mut ctrl = PlanStreamController::new(/*width*/ Some(80));

    assert!(push(&mut ctrl.core, "first\n\nsecond\n"));
    assert!(ctrl.active_tail_cell().is_none());

    let (cell, idle) = ctrl.on_commit_tick();
    let emitted = texts(&cell.expect("expected queued stable plan block to emit first").lines);
    assert!(
        emitted.iter().any(|line| line.contains("Proposed Plan"))
            && emitted.iter().any(|line| line.contains("first"))
    );
    assert!(idle);

    let tail = texts(
        &ctrl
            .active_tail_cell()
            .expect("expected active tail after queue drains")
            .lines,
    );
    assert!(
        tail.iter().all(|line| !line.contains("Proposed Plan"))
            && tail.iter().any(|line| line.contains("second"))
    );
}

#[test]
fn plan_stream_cells_carry_stable_source_snapshots() {
    let mut ctrl = PlanStreamController::new(/*width*/ Some(80));

    assert!(push(&mut ctrl.core, &format!("{}\nAfter table.\n", table_source())));

    let (cell, _idle) = ctrl.on_commit_tick_batch(usize::MAX);
    let cell = cell.expect("expected queued stable plan table to emit");
    let source = cell.markdown_source.expect("a snapshot of the source");
    assert_eq!(source, table_source());
    assert!(!cell.include_bottom_padding);
}

#[test]
fn table_resize_lifecycle_streaming_resize_updates_active_tail_width() {
    let mut ctrl = StreamController::new(Some(36));
    assert!(!push(&mut ctrl.core, table_source()));
    let narrow = tail(&ctrl);

    set_width(&mut ctrl.core, 96);
    let wide = tail(&ctrl);

    assert!(narrow.len() > wide.len());
    assert!(wide.iter().any(|line| line.contains('┌')));
}

#[test]
fn controller_tick_batch_zero_is_noop() {
    let mut ctrl = StreamController::new(Some(80));
    assert!(push(&mut ctrl.core, "line one\n\nnext\n"));
    assert_eq!(ctrl.core.queue.len(), 1);

    let (cell, idle) = ctrl.on_commit_tick_batch(/*max_lines*/ 0);
    assert!(cell.is_none(), "batch size 0 should not emit lines");
    assert!(!idle, "batch size 0 should not drain queued lines");
    assert_eq!(ctrl.core.queue.len(), 1);
}

#[test]
fn controller_finalize_returns_raw_source_for_consolidation() {
    let mut ctrl = StreamController::new(Some(80));
    push(&mut ctrl.core, "hello\n");
    let (_cell, source) = ctrl.finalize("", &styled(vec!["hello".to_string()]));
    assert_eq!(source, Some("hello\n".to_string()));
}

#[test]
fn plan_controller_finalize_returns_raw_source_for_consolidation() {
    let mut ctrl = PlanStreamController::new(Some(80));
    push(&mut ctrl.core, "- step\n");
    let (_cell, source) = ctrl.finalize("", &styled(vec!["- step".to_string()]));
    assert_eq!(source, Some("- step\n".to_string()));
}

#[test]
fn simple_lines_stream_in_order() {
    let mut ctrl = StreamController::new(Some(80));
    let mut lines = Vec::new();
    for delta in ["hello\n", "world\n"] {
        push(&mut ctrl.core, delta);
        while let (Some(cell), idle) = ctrl.on_commit_tick() {
            lines.extend(texts(&cell.lines));
            if idle {
                break;
            }
        }
    }
    let all = rendered(&ctrl.core);
    if let (Some(cell), _source) = ctrl.finalize("", &all) {
        lines.extend(texts(&cell.lines));
    }
    assert_eq!(lines, vec!["hello".to_string(), "world".to_string()]);
}

#[test]
fn plan_lines_stream_in_order() {
    let mut ctrl = PlanStreamController::new(Some(80));
    let mut lines = Vec::new();
    for delta in ["- one\n", "- two\n"] {
        push(&mut ctrl.core, delta);
        while let (Some(cell), idle) = ctrl.on_commit_tick() {
            lines.extend(texts(&cell.lines));
            if idle {
                break;
            }
        }
    }
    let all = rendered(&ctrl.core);
    if let (Some(cell), _source) = ctrl.finalize("", &all) {
        lines.extend(texts(&cell.lines));
    }
    assert!(lines.iter().any(|line| line.contains("Proposed Plan")));
    let one = lines.iter().position(|line| line.contains("one"));
    let two = lines.iter().position(|line| line.contains("two"));
    assert!(one.is_some() && one < two);
}

#[test]
fn what_is_left_is_emitted_at_the_end() {
    let mut ctrl = StreamController::new(Some(80));
    push(&mut ctrl.core, "first\n\nsecond\n");
    ctrl.on_commit_tick();
    let all = render("first\n\nsecond\nthird", ctrl.core.width);
    let (cell, source) = ctrl.finalize("third", &all);
    assert_eq!(texts(&cell.expect("the rest").lines), vec!["second", "third"]);
    assert_eq!(source, Some("first\n\nsecond\nthird".to_string()));
    assert!(ctrl.core.raw_source.is_empty());
}

#[test]
fn cleared_lines_are_not_emitted() {
    let mut core = StreamCore::new(None);
    push(&mut core, "one\n\ntwo\n\nthree\n");
    assert!(!core.is_idle());
    let first = core.tick();
    assert_eq!(texts(&first), ["one"]);
    core.clear_queue();
    assert!(core.is_idle());
    assert!(core.tick().is_empty());
}

#[test]
fn source_is_committed_at_line_breaks() {
    assert!(delta_commits("a\nb"));
    assert!(!delta_commits("ab"));
    let mut core = StreamCore::new(None);
    assert!(!core.push_source("no break", Some("no break")));
    assert!(!core.push_source("break\n", None));
    assert!(core.raw_source.is_empty());
    assert!(core.push_source("break\n", Some("no breakbreak\n")));
    assert_eq!(core.raw_source, "no breakbreak\n");
}

#[test]
fn only_what_there_is_gets_rendered() {
    let mut core = StreamCore::new(None);
    core.push_source("one\n\ntwo\n", Some("one\n\ntwo\n"));
    assert_eq!(core.stable_source(0), None);
    assert_eq!(core.tail_source(0), Some("one\n\ntwo\n".to_string()));
    assert_eq!(core.stable_source(5), Some("one\n\n".to_string()));
    assert_eq!(core.tail_source(5), Some("two\n".to_string()));
    assert_eq!(core.tail_source(9), None);
    core.sync_from_source(9, styled(vec!["one".into(), "two".into()]), styled(vec!["x".into()]));
    assert!(core.active_tail_lines.is_empty());
}

#[test]
fn styles_pass_through_the_stream() {
    let mut ctrl = PlanStreamController::new(Some(80));
    push(&mut ctrl.core, &format!("{}\nAfter table.\n", table_source()));
    let (cell, _) = ctrl.on_commit_tick_batch(usize::MAX);
    let cell = cell.expect("a cell");
    assert_eq!(cell.plan_start, 2);
    assert_eq!(cell.lines[0][0].tone, Tone::Dim);
    assert_eq!(cell.lines[0][1].tone, Tone::Bold);
    let row = cell.lines.iter().find(|line| text_of_line(line).contains("| Area")).expect("a row");
    assert_eq!(row[0].text, "  ");
    assert_eq!(row[1].tone, Tone::Rendered(7));
}
