use codex_workbench::session_lines::hint_line;
use codex_workbench::session_lines::render_footer_lines;
use codex_workbench::session_lines::search_line;
use codex_workbench::session_lines::preview_width;
use codex_workbench::session_lines::RenderedLine;
use codex_workbench::session_lines::RenderedPiece;
use codex_workbench::session_lines::TranscriptPreviewState;
use codex_workbench::session_lines::truncate_text;
use codex_workbench::session_picker::BackgroundEvent;
use codex_workbench::session_picker::KeyCode;
use codex_workbench::session_picker::KeyModifiers;
use codex_workbench::session_picker::KeyOutcome;
use codex_workbench::session_picker::list_height;
use codex_workbench::session_picker::picker_page;
use codex_workbench::session_picker::PickerLoadRequest;
use codex_workbench::session_picker::PickerPage;
use codex_workbench::session_picker::PickerState;
use codex_workbench::session_rows::format_relative_time;
use codex_workbench::session_rows::MAX_PREVIEW_LINES;
use codex_workbench::session_rows::picker_cwd_filter;
use codex_workbench::session_rows::ProviderFilter;
use codex_workbench::session_rows::Row;
use codex_workbench::session_rows::row_from_app_server_thread;
use codex_workbench::session_rows::SessionPickerAction;
use codex_workbench::session_rows::SessionSelection;
use codex_workbench::session_rows::SessionTarget;
use codex_workbench::session_rows::thread_list_params;
use codex_workbench::session_rows::ThreadItem;
use codex_workbench::session_rows::ThreadSortKey;
use codex_workbench::session_rows::ThreadSourceKind;
use codex_workbench::session_rows::ThreadSummary;
use codex_workbench::session_rows::Timestamp;
use codex_workbench::session_rows::transcript_preview;
use codex_workbench::session_rows::TranscriptPreviewLine;
use codex_workbench::session_rows::TranscriptPreviewSpeaker;
use codex_workbench::session_rows::UserInput;
use codex_workbench::spans::Span;
use codex_workbench::spans::Tone;
use codex_workbench::spans::text_of_line;
use codex_workbench::thread_id::ThreadId;

const NONE: KeyModifiers = KeyModifiers {
    control: false,
    alt: false,
    shift: false,
    other: false,
};

fn time(ts: &str) -> Timestamp {
    let parsed = chrono::DateTime::parse_from_rfc3339(ts).expect("timestamp should parse");
    Timestamp {
        secs: parsed.timestamp(),
        nanos: 0,
    }
}

fn earlier(t: Timestamp, secs: i64) -> Timestamp {
    Timestamp {
        secs: t.secs - secs,
        nanos: t.nanos,
    }
}

fn page(
    rows: Vec<Row>,
    next_cursor: Option<&str>,
    num_scanned_files: usize,
    reached_scan_cap: bool,
) -> PickerPage {
    PickerPage {
        rows,
        next_cursor: next_cursor.map(str::to_string),
        num_scanned_files,
        reached_scan_cap,
    }
}

fn blank_row() -> Row {
    Row {
        path: None,
        preview: String::new(),
        thread_id: None,
        thread_name: None,
        created_at: None,
        updated_at: None,
        cwd: None,
        cwd_display: None,
        git_branch: None,
    }
}

fn make_row(path: &str, ts: &str, preview: &str) -> Row {
    Row {
        path: Some(path.to_string()),
        preview: preview.to_string(),
        created_at: Some(time(ts)),
        updated_at: Some(time(ts)),
        ..blank_row()
    }
}

fn thread_id() -> ThreadId {
    ThreadId::from_string("019dabc1-0ef5-7431-b81c-03037f51f62c").expect("thread id")
}

fn picker() -> PickerState {
    PickerState::new(
        time("2026-04-28T16:30:00Z"),
        ProviderFilter::MatchDefault(String::from("openai")),
        /*show_all*/ true,
        /*filter_cwd*/ None,
        SessionPickerAction::Resume,
    )
}

/// A picker that shows rows.
fn picker_of(rows: Vec<Row>) -> PickerState {
    let mut state = picker();
    state.filtered_rows = (0..rows.len()).collect();
    state.all_rows = rows;
    state
}

fn picker_with_items(month: u32, count: usize) -> PickerState {
    let items: Vec<Row> = (0..count)
        .map(|idx| {
            make_row(
                &format!("/tmp/item-{idx}.jsonl"),
                &format!("2025-{month:02}-{:02}T00:00:00Z", idx + 1),
                &format!("item-{idx}"),
            )
        })
        .collect();
    let mut state = picker();
    state.reset_pagination();
    state.ingest_page(page(items, None, count, false));
    state.update_viewport(/*rows*/ 5, /*width*/ 80);
    state
}

fn press(state: &mut PickerState, code: KeyCode) -> KeyOutcome {
    state.handle_key(code, NONE)
}

fn text(line: &[Span]) -> String {
    text_of_line(line)
}

/// The page requests that wait: request token, search token and order.
fn page_requests(state: &PickerState) -> Vec<(usize, Option<usize>, ThreadSortKey)> {
    state
        .requests
        .iter()
        .filter_map(|request| match request {
            PickerLoadRequest::Page {
                request_token,
                search_token,
                sort_key,
                ..
            } => Some((*request_token, *search_token, *sort_key)),
            PickerLoadRequest::Preview { .. } => None,
        })
        .collect()
}

#[test]
fn row_display_preview_prefers_thread_name() {
    let row = Row {
        path: Some(String::from("/tmp/a.jsonl")),
        preview: String::from("first message"),
        thread_name: Some(String::from("My session")),
        ..blank_row()
    };

    assert_eq!(row.display_preview(), "My session");
}

#[test]
fn local_picker_thread_list_params_include_cwd_filter() {
    let cwd_filter = picker_cwd_filter(
        "/tmp/project",
        /*show_all*/ false,
        /*is_remote*/ false,
        /*remote_cwd_override*/ None,
    );
    let params = thread_list_params(
        Some(String::from("cursor-1")),
        cwd_filter.as_deref(),
        ProviderFilter::MatchDefault(String::from("openai")),
        ThreadSortKey::UpdatedAt,
        /*include_non_interactive*/ false,
    );

    assert_eq!(params.cwd, Some(String::from("/tmp/project")));
}

#[test]
fn row_search_matches_metadata_fields() {
    let thread_id = thread_id();
    let row = Row {
        path: Some(String::from("/tmp/a.jsonl")),
        preview: String::from("first message"),
        thread_id: Some(thread_id),
        thread_name: Some(String::from("My session")),
        cwd: Some(String::from("/tmp/codex-session-picker")),
        git_branch: Some(String::from("fcoury/session-picker")),
        ..blank_row()
    };

    assert!(row.matches_query("session-picker"));
    assert!(row.matches_query("fcoury"));
    assert!(row.matches_query(&thread_id.to_text()[..8]));
}

fn assert_metadata_order(line: &[Span], first: &str, second: &str) {
    let rendered = text(line);
    let first_index = rendered.find(first).expect("first metadata item");
    let second_index = rendered.find(second).expect("second metadata item");
    assert!(first_index < second_index);
}

#[test]
fn footer_prioritizes_active_sort_timestamp() {
    let footer = |sort_key: ThreadSortKey| {
        render_footer_lines(
            sort_key,
            "5h ago",
            "3h ago",
            Some("main"),
            Some("tmp/codex"),
            /*width*/ 80,
        )
    };
    let updated = footer(ThreadSortKey::UpdatedAt);
    let created = footer(ThreadSortKey::CreatedAt);

    assert_eq!(updated.len(), 1);
    assert_eq!(created.len(), 1);
    assert!(text(&updated[0]).starts_with("  3h ago"));
    assert!(text(&created[0]).starts_with("  5h ago"));
    assert!(!text(&updated[0]).contains("created 5h ago"));
    assert!(!text(&created[0]).contains("updated 3h ago"));
    assert_metadata_order(&updated[0], "⌁ tmp/codex", "\u{e0a0} main");
    assert_metadata_order(&created[0], "⌁ tmp/codex", "\u{e0a0} main");
}

#[test]
fn footer_marks_missing_branch() {
    let footer = render_footer_lines(
        ThreadSortKey::UpdatedAt,
        "5h ago",
        "3h ago",
        /*branch*/ None,
        Some("/tmp/codex"),
        /*width*/ 80,
    );

    assert_eq!(footer.len(), 1);
    let rendered = text(&footer[0]);
    assert!(rendered.contains("⌁ /tmp/codex"));
    assert!(rendered.contains("\u{e0a0} no branch"));
    assert_metadata_order(&footer[0], "⌁ /tmp/codex", "\u{e0a0} no branch");
}

#[test]
fn footer_branch_expands_when_line_has_room() {
    let branch = "etraut/animations-false-improvements";
    let footer = render_footer_lines(
        ThreadSortKey::UpdatedAt,
        "5h ago",
        "4h ago",
        Some(branch),
        Some("~/code/codex.etraut-animations-false-improvements/codex-rs"),
        /*width*/ 140,
    );

    assert_eq!(footer.len(), 1);
    assert!(text(&footer[0]).contains(branch));
}

#[test]
fn footer_cwd_truncates_to_responsive_column() {
    let cwd = "~/code/codex.owner-extremely-long-worktree-name-that-needs-truncating/codex-rs";
    let branch = "owner/branch";
    let footer = render_footer_lines(
        ThreadSortKey::UpdatedAt,
        "5h ago",
        "4h ago",
        Some(branch),
        Some(cwd),
        /*width*/ 80,
    );

    assert_eq!(footer.len(), 1);
    let footer = text(&footer[0]);
    assert!(!footer.contains(cwd));
    assert!(footer.contains("⌁ ~/code/codex."));
    assert!(footer.contains("..."));
    assert!(footer.contains("\u{e0a0} owner/branch"));
}

#[test]
fn remote_thread_list_params_omit_provider_filter() {
    let params = thread_list_params(
        Some(String::from("cursor-1")),
        Some("repo/on/server"),
        ProviderFilter::Any,
        ThreadSortKey::UpdatedAt,
        /*include_non_interactive*/ false,
    );

    assert_eq!(params.cursor, Some(String::from("cursor-1")));
    assert_eq!(params.model_providers, None);
    assert_eq!(
        params.source_kinds,
        Some(vec![ThreadSourceKind::Cli, ThreadSourceKind::VsCode])
    );
    assert_eq!(params.cwd, Some(String::from("repo/on/server")));
}

#[test]
fn remote_thread_list_params_can_include_non_interactive_sources() {
    let params = thread_list_params(
        Some(String::from("cursor-1")),
        /*cwd_filter*/ None,
        ProviderFilter::Any,
        ThreadSortKey::UpdatedAt,
        /*include_non_interactive*/ true,
    );

    assert_eq!(params.cursor, Some(String::from("cursor-1")));
    assert_eq!(params.model_providers, None);
    assert_eq!(params.source_kinds, None);
}

#[test]
fn remote_picker_does_not_filter_rows_by_local_cwd() {
    let state = PickerState::new(
        time("2026-04-28T16:30:00Z"),
        ProviderFilter::Any,
        /*show_all*/ false,
        /*filter_cwd*/ None,
        SessionPickerAction::Resume,
    );
    let row = Row {
        preview: String::from("remote session"),
        thread_id: Some(thread_id()),
        cwd: Some(String::from("/srv/remote-project")),
        ..blank_row()
    };

    assert!(state.row_matches_filter(&row));
}

#[test]
fn hint_line_switches_esc_label_for_search_mode() {
    let mut state = picker();
    assert!(text(&hint_line(state.action, &state.query)).contains("esc to start new"));

    state.query = String::from("picker");

    assert!(text(&hint_line(state.action, &state.query)).contains("esc to clear search"));
}

#[test]
fn pageless_scrolling_deduplicates_and_keeps_order() {
    let mut state = picker();

    state.reset_pagination();
    state.ingest_page(page(
        vec![
            make_row("/tmp/a.jsonl", "2025-01-03T00:00:00Z", "third"),
            make_row("/tmp/b.jsonl", "2025-01-02T00:00:00Z", "second"),
        ],
        Some("2025-01-02T00:00:00Z"),
        /*num_scanned_files*/ 2,
        /*reached_scan_cap*/ false,
    ));
    state.ingest_page(page(
        vec![
            make_row("/tmp/a.jsonl", "2025-01-03T00:00:00Z", "duplicate"),
            make_row("/tmp/c.jsonl", "2025-01-01T00:00:00Z", "first"),
        ],
        Some("2025-01-01T00:00:00Z"),
        /*num_scanned_files*/ 2,
        /*reached_scan_cap*/ false,
    ));
    state.ingest_page(page(
        vec![make_row("/tmp/d.jsonl", "2024-12-31T23:00:00Z", "very old")],
        /*next_cursor*/ None,
        /*num_scanned_files*/ 1,
        /*reached_scan_cap*/ false,
    ));

    let shown: Vec<&Row> = state.filtered_rows.iter().map(|i| &state.all_rows[*i]).collect();
    let previews: Vec<&str> = shown.iter().map(|row| row.preview.as_str()).collect();
    assert_eq!(previews, vec!["third", "second", "first", "very old"]);

    let unique_paths = shown
        .iter()
        .map(|row| row.path.clone())
        .collect::<std::collections::HashSet<_>>();
    assert_eq!(unique_paths.len(), 4);
}

#[test]
fn ensure_minimum_rows_prefetches_when_underfilled() {
    let mut state = picker();
    state.reset_pagination();
    state.ingest_page(page(
        vec![
            make_row("/tmp/a.jsonl", "2025-01-01T00:00:00Z", "one"),
            make_row("/tmp/b.jsonl", "2025-01-02T00:00:00Z", "two"),
        ],
        Some("2025-01-03T00:00:00Z"),
        /*num_scanned_files*/ 2,
        /*reached_scan_cap*/ false,
    ));

    assert!(page_requests(&state).is_empty());
    state.ensure_minimum_rows_for_view(/*minimum_rows*/ 10);
    let requests = page_requests(&state);
    assert_eq!(requests.len(), 1);
    assert!(requests[0].1.is_none());
}

#[test]
fn toggle_sort_key_reloads_with_new_sort() {
    let mut state = picker();

    state.start_initial_load();
    let requests = page_requests(&state);
    assert_eq!(requests.len(), 1);
    assert_eq!(requests[0].2, ThreadSortKey::UpdatedAt);

    press(&mut state, KeyCode::Tab);

    let requests = page_requests(&state);
    assert_eq!(requests.len(), 2);
    assert_eq!(requests[1].2, ThreadSortKey::CreatedAt);
}

#[test]
fn page_navigation_uses_view_rows() {
    let mut state = picker_with_items(1, 20);

    assert_eq!(state.selected, 0);
    press(&mut state, KeyCode::PageDown);
    assert_eq!(state.selected, 5);

    press(&mut state, KeyCode::PageDown);
    assert_eq!(state.selected, 10);

    press(&mut state, KeyCode::PageUp);
    assert_eq!(state.selected, 5);
}

#[test]
fn enter_on_row_without_resolvable_thread_id_shows_inline_error() {
    let mut state = picker_of(vec![Row {
        path: Some(String::from("/tmp/missing.jsonl")),
        preview: String::from("missing metadata"),
        ..blank_row()
    }]);

    let outcome = press(&mut state, KeyCode::Enter);
    let KeyOutcome::ResolveThread { path } = outcome else {
        panic!("the thread has to be looked up");
    };
    let selection = state.thread_resolved(path, None);

    assert!(selection.is_none());
    assert_eq!(
        state.inline_error,
        Some(String::from(
            "Failed to read session metadata from /tmp/missing.jsonl"
        ))
    );
}

#[test]
fn enter_on_pathless_thread_uses_thread_id() {
    let thread_id = thread_id();
    let mut state = picker_of(vec![Row {
        preview: String::from("pathless thread"),
        thread_id: Some(thread_id),
        ..blank_row()
    }]);

    match press(&mut state, KeyCode::Enter) {
        KeyOutcome::Select(SessionSelection::Resume(SessionTarget {
            path: None,
            thread_id: selected_thread_id,
        })) => assert_eq!(selected_thread_id, thread_id),
        other => panic!("unexpected selection: {other:?}"),
    }
}

#[test]
fn app_server_row_keeps_pathless_threads() {
    let thread = ThreadSummary {
        id: thread_id().to_text(),
        preview: String::from("remote thread"),
        path: None,
        name: Some(String::from("Named thread")),
        created_at: 1,
        updated_at: 2,
        cwd: String::from("/tmp"),
        cwd_display: String::from("/tmp"),
        git_branch: None,
    };

    let row = row_from_app_server_thread(thread).expect("row should be preserved");

    assert_eq!(row.path, None);
    assert_eq!(row.thread_id, Some(thread_id()));
    assert_eq!(row.thread_name, Some(String::from("Named thread")));
    assert_eq!(row.created_at, Some(Timestamp { secs: 1, nanos: 0 }));
}

#[test]
fn times_that_cannot_be_written_are_left_out() {
    let thread = ThreadSummary {
        id: thread_id().to_text(),
        preview: String::new(),
        path: None,
        name: None,
        created_at: i64::MAX,
        updated_at: 0,
        cwd: String::from("/tmp"),
        cwd_display: String::from("/tmp"),
        git_branch: None,
    };
    let row = row_from_app_server_thread(thread).expect("a row");
    assert_eq!(row.created_at, None);
    assert_eq!(row.updated_at, Some(Timestamp { secs: 0, nanos: 0 }));
}

#[test]
fn moving_to_last_card_scrolls_when_cards_exceed_viewport() {
    let mut state = picker_with_items(2, 3);

    press(&mut state, KeyCode::Down);
    assert_eq!(state.scroll_top, 1);

    press(&mut state, KeyCode::Down);

    assert_eq!(state.selected, 2);
    assert_eq!(state.scroll_top, 2);
}

#[test]
fn up_from_bottom_keeps_viewport_stable_when_card_remains_visible() {
    let mut state = picker_with_items(2, 10);

    state.selected = state.filtered_rows.len().saturating_sub(1);
    state.ensure_selected_visible();

    let initial_top = state.scroll_top;
    assert_eq!(initial_top, state.filtered_rows.len().saturating_sub(1));

    press(&mut state, KeyCode::Up);

    assert_eq!(state.scroll_top, initial_top.saturating_sub(1));
    assert_eq!(state.selected, state.filtered_rows.len().saturating_sub(2));
}

#[test]
fn up_scrolls_only_after_crossing_top_edge() {
    let mut state = picker_with_items(2, 10);
    state.selected = 8;
    state.scroll_top = 8;

    press(&mut state, KeyCode::Up);

    assert_eq!(state.selected, 7);
    assert_eq!(state.scroll_top, 7);
}

#[test]
fn list_reports_more_rows_above_and_below() {
    let mut state = picker_with_items(2, 5);

    assert!(!state.has_more_above());
    assert!(state.has_more_below(/*viewport_height*/ 5));

    state.scroll_top = 2;

    assert!(state.has_more_above());
    assert!(state.has_more_below(/*viewport_height*/ 5));
}

fn loaded(state: &mut PickerState, request: (usize, Option<usize>, ThreadSortKey), page: PickerPage) {
    state
        .handle_background_event(BackgroundEvent::PageLoaded {
            request_token: request.0,
            search_token: request.1,
            page: Ok(page),
        })
        .expect("a page");
}

#[test]
fn set_query_loads_until_match_and_respects_scan_cap() {
    let mut state = picker();
    state.reset_pagination();
    state.ingest_page(page(
        vec![make_row("/tmp/start.jsonl", "2025-01-01T00:00:00Z", "alpha")],
        Some("2025-01-02T00:00:00Z"),
        /*num_scanned_files*/ 1,
        /*reached_scan_cap*/ false,
    ));
    state.requests.clear();

    state.set_query("target".to_string());
    let requests = page_requests(&state);
    assert_eq!(requests.len(), 1);
    loaded(
        &mut state,
        requests[0],
        page(
            vec![make_row("/tmp/beta.jsonl", "2025-01-02T00:00:00Z", "beta")],
            Some("2025-01-03T00:00:00Z"),
            /*num_scanned_files*/ 5,
            /*reached_scan_cap*/ false,
        ),
    );

    let requests = page_requests(&state);
    assert_eq!(requests.len(), 2);
    let second_request = requests[1];
    assert!(state.search_state.is_active());
    assert!(state.filtered_rows.is_empty());

    loaded(
        &mut state,
        second_request,
        page(
            vec![make_row("/tmp/match.jsonl", "2025-01-03T00:00:00Z", "target log")],
            Some("2025-01-04T00:00:00Z"),
            /*num_scanned_files*/ 7,
            /*reached_scan_cap*/ false,
        ),
    );

    assert!(!state.filtered_rows.is_empty());
    assert!(!state.search_state.is_active());

    state.requests.clear();
    state.set_query("missing".to_string());
    let requests = page_requests(&state);
    assert_eq!(requests.len(), 1);
    let active_request = requests[0];

    loaded(&mut state, second_request, page(Vec::new(), None, 0, false));
    assert_eq!(page_requests(&state).len(), 1);

    loaded(&mut state, active_request, page(Vec::new(), None, 3, true));

    assert!(state.filtered_rows.is_empty());
    assert!(!state.search_state.is_active());
    assert!(state.reached_scan_cap);
}

#[test]
fn esc_with_empty_query_starts_fresh() {
    let mut state = picker();
    assert!(matches!(
        press(&mut state, KeyCode::Esc),
        KeyOutcome::Select(SessionSelection::StartFresh)
    ));
}

#[test]
fn esc_with_query_clears_search_and_preserves_selected_result() {
    let mut state = picker();
    state.reset_pagination();
    state.ingest_page(page(
        vec![
            make_row("/tmp/alpha.jsonl", "2025-01-03T00:00:00Z", "alpha"),
            make_row("/tmp/beta.jsonl", "2025-01-02T00:00:00Z", "beta"),
        ],
        /*next_cursor*/ None,
        /*num_scanned_files*/ 2,
        /*reached_scan_cap*/ false,
    ));
    state.set_query(String::from("beta"));

    assert!(matches!(press(&mut state, KeyCode::Esc), KeyOutcome::Continue));
    assert!(state.query.is_empty());
    assert_eq!(state.filtered_rows.len(), 2);
    assert_eq!(
        state.all_rows[state.filtered_rows[state.selected]].path.as_deref(),
        Some("/tmp/beta.jsonl")
    );
}

// ---- what is drawn ----

#[test]
fn cards_show_times_and_the_selection() {
    let now = time("2026-04-28T16:30:00Z");
    let mut state = picker_of(vec![
        Row {
            path: Some(String::from("/tmp/a.jsonl")),
            preview: String::from("Fix resume picker timestamps"),
            created_at: Some(earlier(now, 960)),
            updated_at: Some(earlier(now, 42)),
            ..blank_row()
        },
        Row {
            path: Some(String::from("/tmp/b.jsonl")),
            preview: String::from("Investigate lazy pagination cap"),
            created_at: Some(earlier(now, 3600)),
            updated_at: Some(earlier(now, 2100)),
            ..blank_row()
        },
    ]);
    state.relative_time_reference = Some(now);
    state.selected = 1;
    state.update_viewport(/*rows*/ 12, /*width*/ 80);
    let lines: Vec<String> = state.render_list(80, 12).iter().map(|line| text(&line.spans)).collect();
    let at = |part: &str| lines.iter().position(|line| line.contains(part));
    let first = at("Fix resume picker timestamps").expect("the first card");
    let second = at("Investigate lazy pagination cap").expect("the second card");
    assert!(first < second);
    assert!(lines[first + 1].contains("42s ago"));
    assert!(lines[second + 1].contains("35m ago"));
    assert!(lines[first].starts_with("  Fix"));
    assert!(lines[second].starts_with("▸ Investigate"));
}

#[test]
fn errors_take_the_place_of_the_query() {
    let line = search_line(Some("Failed to read"), "query", ThreadSortKey::UpdatedAt, 80);
    assert_eq!(text(&line), "Failed to read");
}

#[test]
fn expanded_cards_show_the_transcript() {
    let id = thread_id();
    let mut state = picker_of(vec![Row {
        path: Some(String::from("/tmp/a.jsonl")),
        preview: String::from("Investigate picker expansion"),
        thread_id: Some(id),
        created_at: Some(time("2026-04-28T16:30:00Z")),
        updated_at: Some(time("2026-04-28T17:45:00Z")),
        cwd: Some(String::from("/tmp/codex")),
        cwd_display: Some(String::from("/tmp/codex")),
        git_branch: Some(String::from("fcoury/session-picker")),
        ..blank_row()
    }]);
    state.relative_time_reference = Some(time("2026-04-28T18:00:00Z"));
    state.expanded_thread_id = Some(id);
    let said = |speaker: TranscriptPreviewSpeaker, text: &str| TranscriptPreviewLine {
        speaker,
        text: text.to_string(),
    };
    state.transcript_previews.insert(
        id.value,
        TranscriptPreviewState::Loaded(vec![
            said(TranscriptPreviewSpeaker::User, "Show me the recent transcript"),
            said(TranscriptPreviewSpeaker::Assistant, "Here are the *last* few lines."),
        ]),
    );
    assert_eq!(
        state.unrendered_texts(id, 90),
        vec!["Here are the *last* few lines."]
    );
    let rendered = |from: &str| RenderedLine {
        style: 0,
        pieces: vec![
            RenderedPiece {
                text: from.to_string(),
                style: 1,
            },
            RenderedPiece {
                text: "last".to_string(),
                style: 2,
            },
        ],
    };
    state.take_rendering(
        "Here are the *last* few lines.".to_string(),
        preview_width(90),
        vec![rendered("Here are the "), rendered("And the ")],
    );
    state.take_rendering(
        "Here are the *last* few lines.".to_string(),
        preview_width(40),
        vec![rendered("Narrow ")],
    );
    assert!(state.unrendered_texts(id, 90).is_empty());
    let drawn = |width: u16| -> Vec<Vec<(String, Tone)>> {
        state
            .render_list(width, 8)
            .iter()
            .map(|line| {
                line.spans
                    .iter()
                    .map(|span| (span.text.clone(), span.tone))
                    .collect()
            })
            .collect()
    };
    let piece = |text: &str, tone: Tone| (text.to_string(), tone);
    let lines = drawn(90);
    assert!(lines.iter().flatten().any(|(text, _)| text.contains("15m ago")));
    assert_eq!(
        lines[1..4],
        [
            vec![
                piece("  │ ", Tone::UserLine),
                piece("Show me the recent transcript", Tone::UserLine),
            ],
            vec![
                piece("  │ ", Tone::DimRendered(0)),
                piece("Here are the ", Tone::DimRendered(1)),
                piece("last", Tone::DimRendered(2)),
            ],
            vec![
                piece("  └ ", Tone::DimRendered(0)),
                piece("And the ", Tone::DimRendered(1)),
                piece("last", Tone::DimRendered(2)),
            ],
        ]
    );
    assert_eq!(
        drawn(40)[2],
        vec![
            piece("  └ ", Tone::DimRendered(0)),
            piece("Narrow ", Tone::DimRendered(1)),
            piece("last", Tone::DimRendered(2)),
        ]
    );
}

#[test]
fn pages_hold_the_threads_that_can_be_listed() {
    let thread = |id: &str, preview: &str| ThreadSummary {
        id: id.to_string(),
        preview: preview.to_string(),
        path: None,
        name: None,
        created_at: 0,
        updated_at: 0,
        cwd: "/w".to_string(),
        cwd_display: "/w".to_string(),
        git_branch: None,
    };
    let page = picker_page(
        vec![
            thread("019dabc1-0ef5-7431-b81c-03037f51f62c", "first"),
            thread("no identifier", "second"),
            thread("019dabc1-0ef5-7431-b81c-03037f51f62d", "third"),
        ],
        Some("next".to_string()),
    );
    let previews: Vec<&str> = page.rows.iter().map(|row| row.preview.as_str()).collect();
    assert_eq!(previews, vec!["first", "third"]);
    assert_eq!(page.num_scanned_files, 3);
    assert_eq!(page.next_cursor.as_deref(), Some("next"));
    assert!(!page.reached_scan_cap);
}

#[test]
fn expansion_asks_for_the_transcript_once() {
    let id = thread_id();
    let mut state = picker_of(vec![Row {
        thread_id: Some(id),
        ..blank_row()
    }]);
    let previews = |state: &PickerState| {
        state
            .requests
            .iter()
            .filter(|r| matches!(r, PickerLoadRequest::Preview { thread_id } if *thread_id == id))
            .count()
    };
    state.toggle_selected_expansion();
    assert_eq!(state.expanded_thread_id, Some(id));
    assert_eq!(previews(&state), 1);
    state.toggle_selected_expansion();
    assert_eq!(state.expanded_thread_id, None);
    state.toggle_selected_expansion();
    assert_eq!(previews(&state), 1);
}

#[test]
fn times_are_told_in_the_largest_unit() {
    let now = time("2026-04-28T16:30:00Z");
    let ago = |secs: i64| format_relative_time(now, Some(earlier(now, secs)));
    assert_eq!(ago(0), "0s ago");
    assert_eq!(ago(1), "1s ago");
    assert_eq!(ago(60), "1m ago");
    assert_eq!(ago(7200), "2h ago");
    assert_eq!(ago(86400 * 3), "3d ago");
    assert_eq!(format_relative_time(now, None), "-");
}

#[test]
fn previews_hold_the_last_lines() {
    let items: Vec<ThreadItem> = (0..10)
        .map(|i| {
            if i % 2 == 0 {
                ThreadItem::UserMessage(vec![UserInput::Text(format!("line {i}")), UserInput::Other])
            } else {
                ThreadItem::AgentMessage(format!("line {i}"))
            }
        })
        .collect();
    let preview = transcript_preview(&items);
    assert_eq!(preview.len(), MAX_PREVIEW_LINES);
    assert_eq!(preview[MAX_PREVIEW_LINES - 1].text, "line 9");
    assert_eq!(preview[0].text, "line 4");
}

#[test]
fn long_texts_end_in_dots() {
    assert_eq!(truncate_text("abcdef", 6), "abcdef");
    assert_eq!(truncate_text("abcdefg", 6), "abc...");
    assert_eq!(truncate_text("abcdefg", 2), "ab");
}

#[test]
fn sessions_are_called_by_file_or_thread() {
    let of_file = SessionTarget {
        path: Some("/tmp/rollout.jsonl".to_string()),
        thread_id: thread_id(),
    };
    assert_eq!(of_file.display_label(), "/tmp/rollout.jsonl");
    let of_thread = SessionTarget { path: None, thread_id: thread_id() };
    assert_eq!(
        of_thread.display_label(),
        format!("thread {}", thread_id().to_text())
    );
}

#[test]
fn list_has_what_the_chrome_leaves() {
    assert_eq!(list_height(24), 18);
    assert_eq!(list_height(6), 0);
    assert_eq!(list_height(3), 0);
}
