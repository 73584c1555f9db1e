use codex_workbench::mention_lines::build_line;
use codex_workbench::mention_lines::divide_footer;
use codex_workbench::mention_lines::divide_popup;
use codex_workbench::mention_lines::footer_hint_line;
use codex_workbench::mention_lines::FooterKey;
use codex_workbench::mention_lines::HintPart;
use codex_workbench::mention_lines::Piece;
use codex_workbench::mention_lines::render_rows;
use codex_workbench::mention_lines::search_mode_indicator_line;
use codex_workbench::mention_lines::visible_range;
use codex_workbench::mention_popup::FileSearchState;
use codex_workbench::mention_popup::MAX_POPUP_ROWS;
use codex_workbench::mention_popup::POPUP_FOOTER_HEIGHT;
use codex_workbench::mention_popup::ScrollState;
use codex_workbench::mention_popup::UnifiedMentionsPopup;
use codex_workbench::mention_search::build_search_catalog;
use codex_workbench::mention_search::Candidate;
use codex_workbench::mention_search::FileMatch;
use codex_workbench::mention_search::filtered_candidates;
use codex_workbench::mention_search::MentionType;
use codex_workbench::mention_search::PluginInfo;
use codex_workbench::mention_search::SearchMode;
use codex_workbench::mention_search::SearchResult;
use codex_workbench::mention_search::Selection;
use codex_workbench::mention_search::SkillInfo;
use codex_workbench::mention_search::ToolMatch;

fn numbered_file(index: usize) -> FileMatch {
    FileMatch {
        score: index as u32,
        path: format!("src/file_{index:02}.rs"),
        is_directory: false,
        indices: None,
    }
}

#[test]
fn set_matches_keeps_only_the_first_page_of_results() {
    let mut state = FileSearchState::new();
    state.set_query("file");
    state.set_matches(
        "file",
        (0..(MAX_POPUP_ROWS + POPUP_FOOTER_HEIGHT as usize))
            .map(numbered_file)
            .collect(),
    );

    assert_eq!(
        state.matches.iter().map(|m| m.path.clone()).collect::<Vec<_>>(),
        (0..MAX_POPUP_ROWS).map(|i| numbered_file(i).path).collect::<Vec<_>>()
    );
    assert!(state.has_matches());
}

#[test]
fn matches_of_another_query_are_ignored() {
    let mut state = FileSearchState::new();
    state.set_query("file");
    state.set_matches("fil", vec![numbered_file(0)]);
    assert!(!state.has_matches());
    assert_eq!(state.empty_message(), "loading...");
    state.set_matches("file", Vec::new());
    assert_eq!(state.empty_message(), "no matches");
}

fn tool_candidate(display_name: &str, mention_type: MentionType) -> Candidate {
    Candidate {
        display_name: display_name.to_string(),
        description: None,
        search_terms: vec![display_name.to_string()],
        mention_type,
        selection: Selection::Tool {
            insert_text: format!("${display_name}"),
            path: None,
        },
    }
}

fn unmatched() -> ToolMatch {
    ToolMatch {
        name_match: None,
        term_scores: vec![None],
    }
}

fn file_match(path: &str, is_directory: bool, score: u32) -> FileMatch {
    FileMatch {
        score,
        path: path.to_string(),
        is_directory,
        indices: None,
    }
}

fn tools() -> Vec<Candidate> {
    vec![
        tool_candidate("Bravo Plugin", MentionType::Plugin),
        tool_candidate("Alpha Skill", MentionType::Skill),
    ]
}

#[test]
fn unified_mentions_all_results_order_tools_before_files_and_files_by_descending_score() {
    let file_matches = vec![
        file_match("src/alpha.rs", false, /*score*/ 1),
        file_match("src/bin", true, /*score*/ 7),
        file_match("src/zeta.rs", false, /*score*/ 9),
    ];

    let rows = filtered_candidates(
        &tools(),
        &[unmatched(), unmatched()],
        &file_matches,
        "",
        SearchMode::Results,
        /*show_file_matches*/ true,
    );

    let ordered_rows: Vec<(MentionType, String)> = rows
        .into_iter()
        .map(|row| (row.mention_type, row.display_name))
        .collect();
    assert_eq!(
        ordered_rows,
        vec![
            (MentionType::Plugin, "Bravo Plugin".to_string()),
            (MentionType::Skill, "Alpha Skill".to_string()),
            (MentionType::File, "src/zeta.rs".to_string()),
            (MentionType::Directory, "src/bin".to_string()),
            (MentionType::File, "src/alpha.rs".to_string()),
        ]
    );
}

#[test]
fn unified_mentions_search_modes_filter_results_to_their_expected_types() {
    let file_matches = vec![
        file_match("src/main.rs", false, /*score*/ 5),
        file_match("src/bin", true, /*score*/ 4),
    ];
    let types = |mode: SearchMode| -> Vec<MentionType> {
        filtered_candidates(
            &tools(),
            &[unmatched(), unmatched()],
            &file_matches,
            "",
            mode,
            /*show_file_matches*/ true,
        )
        .into_iter()
        .map(|row| row.mention_type)
        .collect()
    };

    assert_eq!(
        types(SearchMode::Results),
        vec![
            MentionType::Plugin,
            MentionType::Skill,
            MentionType::File,
            MentionType::Directory,
        ]
    );
    assert_eq!(
        types(SearchMode::FilesystemOnly),
        vec![MentionType::File, MentionType::Directory]
    );
    assert_eq!(
        types(SearchMode::Tools),
        vec![MentionType::Plugin, MentionType::Skill]
    );
}

#[test]
fn tools_that_do_not_match_are_left_out() {
    let rows = filtered_candidates(
        &tools(),
        &[
            unmatched(),
            ToolMatch {
                name_match: Some((vec![0, 1], 5)),
                term_scores: vec![None],
            },
        ],
        &[file_match("src/al.rs", false, 1)],
        "al",
        SearchMode::Results,
        false,
    );
    assert_eq!(rows.len(), 1);
    assert_eq!(rows[0].display_name, "Alpha Skill");
    assert_eq!(rows[0].match_indices, Some(vec![0, 1]));
}

#[test]
fn catalogs_hold_skills_and_plugins() {
    let skill = SkillInfo {
        name: "lint".to_string(),
        display_name: "Lint".to_string(),
        description: "Checks style".to_string(),
        path: "/s/lint".to_string(),
    };
    let plugin = PluginInfo {
        config_name: "mail@vendor".to_string(),
        display_name: "Mail".to_string(),
        description: None,
        has_skills: true,
        mcp_server_count: 1,
        app_count: 0,
    };
    let catalog = build_search_catalog(&[skill], &[plugin]);
    assert_eq!(catalog.len(), 2);
    assert!(catalog.iter().any(|c| c.mention_type == MentionType::Skill
        && matches!(&c.selection, Selection::Tool { insert_text, .. } if insert_text == "$lint")));
    assert!(catalog.iter().any(|c| c.mention_type == MentionType::Plugin && c.display_name == "Mail"));
}

#[test]
fn search_modes_are_a_ring() {
    for mode in [SearchMode::Results, SearchMode::FilesystemOnly, SearchMode::Tools] {
        assert_eq!(mode.next().previous(), mode);
        assert_eq!(mode.next().next().next(), mode);
    }
}

fn popup() -> UnifiedMentionsPopup {
    let mut popup = UnifiedMentionsPopup::new(tools(), vec![unmatched(), unmatched()]);
    popup.set_query("", vec![unmatched(), unmatched()]);
    popup
}

#[test]
fn the_selection_moves_in_a_ring() {
    let mut popup = popup();
    let selected = |popup: &UnifiedMentionsPopup| match popup.selected() {
        Some(Selection::Tool { insert_text, .. }) => insert_text,
        _ => "none".to_string(),
    };
    assert_eq!(selected(&popup), "$Bravo Plugin");
    popup.move_down();
    assert_eq!(selected(&popup), "$Alpha Skill");
    popup.move_down();
    assert_eq!(selected(&popup), "$Bravo Plugin");
    popup.move_up();
    assert_eq!(selected(&popup), "$Alpha Skill");
    popup.next_search_mode();
    assert!(popup.selected().is_none());
}

// ---- lines ----

fn row(display_name: &str, mention_type: MentionType) -> SearchResult {
    SearchResult {
        display_name: display_name.to_string(),
        description: None,
        mention_type,
        selection: Selection::File(display_name.to_string()),
        match_indices: None,
        score: 0,
    }
}

fn joined(line: &[Piece]) -> String {
    line.iter().map(|piece| piece.text.as_str()).collect()
}

#[test]
fn lines_end_with_their_tag() {
    let line = build_line(&row("Lint", MentionType::Skill), false, 30, 10);
    let text = joined(&line);
    assert!(text.starts_with("Lint"));
    assert!(text.trim_end().ends_with("Skill"));
    let narrow = build_line(&row("a_very_long_name_of_a_tool", MentionType::Plugin), true, 20, 12);
    assert!(joined(&narrow).contains('…'));
}

#[test]
fn only_visible_rows_are_drawn() {
    let rows: Vec<SearchResult> = (0..12).map(|i| row(&format!("tool{i}"), MentionType::Skill)).collect();
    let scrolled = ScrollState {
        selected_idx: Some(10),
        scroll_top: 4,
    };
    assert_eq!(visible_range(scrolled, 12, 8), (4, 8));
    let lines = render_rows(&rows, scrolled, "no matches", 40, 8);
    assert_eq!(lines.len(), 8);
    assert!(joined(&lines[0]).starts_with("tool4"));
    let empty = render_rows(&[], scrolled, "no matches", 40, 8);
    assert_eq!(joined(&empty[0]), "no matches");
}

#[test]
fn the_active_mode_is_marked() {
    let line = search_mode_indicator_line(SearchMode::Tools);
    let bold: Vec<&str> = line
        .iter()
        .filter(|piece| piece.style.bold)
        .map(|piece| piece.text.as_str())
        .collect();
    assert!(bold.iter().any(|text| text.contains("Plugins") || text.contains("Tools")));
    let (left, right) = divide_footer(0, 40, 10);
    assert!(left <= 40);
    assert!(right.is_some());
}

#[test]
fn footer_needs_a_free_row() {
    assert_eq!(divide_popup(4, 10), (8, Some(13)));
    assert_eq!(divide_popup(4, 3), (1, Some(6)));
    assert_eq!(divide_popup(4, 2), (2, None));
}

#[test]
fn popup_takes_over_candidates_and_files() {
    let mut popup = popup();
    assert_eq!(
        popup.calculate_required_height(),
        MAX_POPUP_ROWS as u16 + POPUP_FOOTER_HEIGHT
    );
    popup.set_candidates(Vec::new(), Vec::new());
    assert!(popup.selected().is_none());
    popup.set_query("src", Vec::new());
    popup.set_file_matches("other", vec![file_match("src/a.rs", false, 1)]);
    assert!(popup.selected().is_none());
    popup.set_file_matches("src", vec![file_match("src/a.rs", false, 1)]);
    assert!(popup.selected().is_some());
    assert!(!popup.file_search.waiting);
    popup.set_query("", Vec::new());
    assert!(popup.file_search.matches.is_empty());
}

#[test]
fn search_modes_go_back_and_forth() {
    let mut popup = popup();
    popup.next_search_mode();
    popup.previous_search_mode();
    assert_eq!(popup.search_mode, SearchMode::Results);
    popup.previous_search_mode();
    popup.next_search_mode();
    assert_eq!(popup.search_mode, SearchMode::Results);
}

#[test]
fn footer_names_the_keys() {
    let keys: Vec<FooterKey> = footer_hint_line()
        .into_iter()
        .filter_map(|part| match part {
            HintPart::Key(key) => Some(key),
            HintPart::Text(_) => None,
        })
        .collect();
    assert_eq!(
        keys,
        [FooterKey::Enter, FooterKey::Tab, FooterKey::Esc, FooterKey::Left, FooterKey::Right]
    );
    let text: String = footer_hint_line()
        .into_iter()
        .map(|part| match part {
            HintPart::Key(_) => "*",
            HintPart::Text(text) => text,
        })
        .collect();
    assert_eq!(text, "*/* insert \u{b7} * close \u{b7} */* switch search modes");
}
