use codex_workbench::goal_setup::GoalBudgetKind;
use codex_workbench::goal_setup::GoalBudgetParams;
use codex_workbench::goal_setup::GoalKey;
use codex_workbench::goal_setup::GoalKeyOutcome;
use codex_workbench::goal_setup::GoalRowKind;
use codex_workbench::goal_setup::GoalSetupFocus;
use codex_workbench::goal_setup::GoalSetupView;
use codex_workbench::goal_setup::percent_number;
use codex_workbench::goal_setup::Rect;
use codex_workbench::goal_setup::split_token_budget;
use codex_workbench::session_picker::KeyModifiers;
use codex_workbench::spans::text_of_line;
use codex_workbench::thread_goal::goal_summary_lines;
use codex_workbench::thread_goal::GoalSummary;
use codex_workbench::thread_goal::is_active_thread;
use codex_workbench::thread_goal::ThreadGoal;
use codex_workbench::thread_goal::ThreadGoalBudget;
use codex_workbench::thread_goal::ThreadGoalError;
use codex_workbench::thread_goal::ThreadGoalRow;
use codex_workbench::thread_goal::ThreadGoalStatus;
use codex_workbench::thread_id::ThreadId;

const STATUSES: [ThreadGoalStatus; 4] = [
    ThreadGoalStatus::Active,
    ThreadGoalStatus::Paused,
    ThreadGoalStatus::BudgetLimited,
    ThreadGoalStatus::Complete,
];

#[test]
fn statuses_are_read_as_they_are_written() {
    for status in STATUSES {
        assert_eq!(ThreadGoalStatus::from_name(status.as_str()).ok(), Some(status));
    }
    assert_eq!(
        ThreadGoalStatus::from_name("done").err().map(|e| e.message()),
        Some("unknown thread goal status `done`".to_string())
    );
    assert!(ThreadGoalStatus::Active.is_active());
    assert!(ThreadGoalStatus::Complete.is_terminal());
    assert!(ThreadGoalStatus::BudgetLimited.is_terminal());
    assert!(!ThreadGoalStatus::Paused.is_terminal());
}

fn row() -> ThreadGoalRow {
    ThreadGoalRow {
        thread_id: "00000000-0000-0000-0000-000000000001".to_string(),
        goal_id: "g".to_string(),
        objective: "o".to_string(),
        status: "active".to_string(),
        budget_kind: Some("tokens".to_string()),
        budget_limit_id: None,
        budget_percent_bits: None,
        budget_baseline_used_percent_bits: None,
        budget_baseline_resets_at: None,
        budget_latest_used_percent_bits: None,
        budget_latest_resets_at: None,
        token_budget: Some(50),
        tokens_used: 1,
        time_used_seconds: 2,
        created_at_ms: 3,
        updated_at_ms: 4,
    }
}

#[test]
fn goals_are_read_from_rows() {
    let goal = ThreadGoal::from_row(row()).expect("a goal");
    assert_eq!(goal.thread_id, ThreadId { value: 1 });
    assert_eq!(goal.status, ThreadGoalStatus::Active);
    assert!(matches!(
        goal.budget,
        Some(ThreadGoalBudget::Tokens { token_budget: 50 })
    ));
    let error = |row: ThreadGoalRow| ThreadGoal::from_row(row).expect_err("refused");
    assert!(matches!(
        error(ThreadGoalRow { token_budget: None, ..row() }),
        ThreadGoalError::MissingTokenBudget
    ));
    assert!(matches!(
        error(ThreadGoalRow { budget_kind: Some("x".to_string()), ..row() }),
        ThreadGoalError::UnknownBudgetKind(_)
    ));
    assert!(matches!(
        error(ThreadGoalRow { thread_id: "x".to_string(), ..row() }),
        ThreadGoalError::InvalidThreadId(_)
    ));
    assert!(matches!(
        error(ThreadGoalRow { created_at_ms: i64::MAX, ..row() }),
        ThreadGoalError::InvalidTime(i64::MAX)
    ));
}

#[test]
fn summaries_list_what_was_used() {
    let goal = GoalSummary {
        status: ThreadGoalStatus::Active,
        objective: "ship it".to_string(),
        time_used: "2m".to_string(),
        tokens_used: "10K".to_string(),
        token_budget: Some("50K".to_string()),
        five_hour_progress: None,
    };
    let lines: Vec<String> = goal_summary_lines(&goal).iter().map(|l| text_of_line(l)).collect();
    let all = lines.join("\n");
    assert!(all.contains("ship it"));
    assert!(all.contains("10K"));
    assert!(all.contains("50K"));
    let id = ThreadId { value: 1 };
    assert!(is_active_thread(Some(id), &id.to_text()));
    assert!(!is_active_thread(None, &id.to_text()));
}

const NONE: KeyModifiers = KeyModifiers {
    control: false,
    alt: false,
    shift: false,
    other: false,
};

#[test]
fn budgets_are_chosen_in_a_ring() {
    let mut view = GoalSetupView::new();
    let first = view.budget_kind;
    view.cycle_budget();
    assert_ne!(view.budget_kind, first);
    view.cycle_budget();
    view.cycle_budget();
    assert_eq!(view.budget_kind, first);
}

#[test]
fn goals_need_an_objective() {
    let mut view = GoalSetupView::new();
    assert!(view.submit("  ", Ok(None)).is_none());
    assert!(view.error.is_some());
    assert!(!view.is_complete());
    let submission = view
        .submit(" ship it ", Ok(Some(GoalBudgetParams::Tokens { token_budget: 5 })))
        .expect("a submission");
    assert_eq!(submission.objective, "ship it");
    assert!(view.is_complete());
}

#[test]
fn keys_move_the_focus() {
    let mut view = GoalSetupView::new();
    assert_eq!(view.focus, GoalSetupFocus::Objective);
    assert_eq!(view.handle_key_event(GoalKey::Other, NONE), GoalKeyOutcome::InputObjective);
    view.handle_key_event(GoalKey::Tab, NONE);
    assert_eq!(view.focus, GoalSetupFocus::Budget);
    let kind = view.budget_kind;
    assert_eq!(view.handle_key_event(GoalKey::Enter, NONE), GoalKeyOutcome::Done);
    assert_ne!(view.budget_kind, kind);
    view.focus = GoalSetupFocus::Objective;
    assert_eq!(view.handle_key_event(GoalKey::Enter, NONE), GoalKeyOutcome::Submit);
    view.handle_key_event(GoalKey::Esc, NONE);
    assert!(view.is_complete());
}

#[test]
fn rows_follow_one_another() {
    let mut view = GoalSetupView::new();
    view.budget_kind = GoalBudgetKind::Tokens;
    let area = Rect {
        x: 2,
        y: 5,
        width: 40,
        height: 20,
    };
    let rows: Vec<(GoalRowKind, u16, u16)> = view
        .rows(area, 4)
        .iter()
        .map(|row| (row.kind, row.y, row.height))
        .collect();
    assert_eq!(
        rows,
        vec![
            (GoalRowKind::Title, 5, 1),
            (GoalRowKind::Budget, 6, 1),
            (GoalRowKind::ValueLabel, 7, 1),
            (GoalRowKind::Value, 8, 1),
            (GoalRowKind::ObjectiveLabel, 9, 1),
            (GoalRowKind::Objective, 10, 4),
            (GoalRowKind::Hint, 15, 1),
        ]
    );
    let spans = view.row_spans(GoalRowKind::Budget, true, true);
    assert!(text_of_line(&spans).contains(view.budget_label()));
}

#[test]
fn budgets_are_written_with_a_unit() {
    let split = |value: &str| split_token_budget(value).map(|n| (n.number, n.multiplier));
    assert_eq!(split(" 50k "), Ok(("50".to_string(), 1_000)));
    assert_eq!(split("1.5M"), Ok(("1.5".to_string(), 1_000_000)));
    assert_eq!(split("12"), Ok(("12".to_string(), 1)));
    assert_eq!(split(" "), Err("Token budget must not be empty."));
    assert_eq!(percent_number(" 25 % "), "25");
    assert_eq!(percent_number("25"), "25");
}

#[test]
fn form_grows_with_what_it_shows() {
    let mut view = GoalSetupView::new();
    assert_eq!(view.desired_height(1), 8);
    assert_eq!(view.desired_height(4), 10);
    assert_eq!(view.desired_height(40), 12);
    view.cycle_budget();
    assert_eq!(view.budget_kind, GoalBudgetKind::Tokens);
    assert_eq!(view.desired_height(1), 10);
    assert!(view.submit(" ", Ok(None)).is_none());
    assert_eq!(view.desired_height(1), 11);
}

#[test]
fn pasted_text_goes_where_the_cursor_is() {
    let mut view = GoalSetupView::new();
    assert_eq!(view.handle_paste("text"), Some(GoalSetupFocus::Objective));
    assert_eq!(view.handle_paste(""), None);
    view.cycle_focus();
    assert_eq!(view.focus, GoalSetupFocus::Budget);
    assert_eq!(view.handle_paste("text"), None);
}

#[test]
fn cursor_stands_right_of_the_gutter() {
    let mut view = GoalSetupView::new();
    let area = Rect { x: 1, y: 10, width: 20, height: 12 };
    assert_eq!(
        view.cursor_area(area, 3),
        Some(Rect { x: 3, y: 13, width: 18, height: 3 })
    );
    view.cycle_budget();
    assert_eq!(
        view.cursor_area(area, 3),
        Some(Rect { x: 3, y: 15, width: 18, height: 3 })
    );
    assert_eq!(view.cursor_area(Rect { width: 2, ..area }, 3), None);
}

#[test]
fn cursor_area_stays_on_the_screen() {
    let mut view = GoalSetupView::new();
    view.cycle_budget();
    let area = Rect { x: 0, y: u16::MAX, width: 10, height: 1 };
    view.focus = GoalSetupFocus::Value;
    assert_eq!(
        view.cursor_area(area, 3),
        Some(Rect { x: 2, y: u16::MAX, width: 8, height: 1 })
    );
    view.focus = GoalSetupFocus::Budget;
    assert_eq!(view.cursor_area(area, 3), None);
}
