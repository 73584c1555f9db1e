use codex_workbench::fork_tab::after_launch;
use codex_workbench::fork_tab::check_fork_preconditions;
use codex_workbench::fork_tab::codex_command_text;
use codex_workbench::fork_tab::codex_fork_invocation;
use codex_workbench::fork_tab::find_python3_in_path;
use codex_workbench::fork_tab::fork_hotkey;
use codex_workbench::fork_tab::fork_request;
use codex_workbench::fork_tab::ForkEnvironment;
use codex_workbench::fork_tab::ForkFollowUp;
use codex_workbench::fork_tab::ForkTabError;
use codex_workbench::fork_tab::helper_exit_failure;
use codex_workbench::fork_tab::helper_python_executable;
use codex_workbench::fork_tab::helper_python_for_fork_launch;
use codex_workbench::fork_tab::helper_request;
use codex_workbench::fork_tab::helper_stdout;
use codex_workbench::fork_tab::HotkeyOutcome;
use codex_workbench::fork_tab::KeyKind;
use codex_workbench::session_picker::KeyCode;
use codex_workbench::session_picker::KeyModifiers;
use codex_workbench::fork_tab::ItermForkTabExitBehavior;
use codex_workbench::fork_tab::ItermForkTabOpenBehavior;
use codex_workbench::fork_tab::ItermForkTabOutcome;
use codex_workbench::fork_tab::ItermForkTabRequest;
use codex_workbench::fork_tab::parse_helper_response;
use codex_workbench::fork_tab::persist_failure;
use codex_workbench::fork_tab::python3_candidates;
use codex_workbench::json::JsonValue;
use codex_workbench::loaded_threads::find_loaded_subagent_threads_for_primary;
use codex_workbench::loaded_threads::ThreadLoadedSummary;
use codex_workbench::thread_id::ThreadId;

fn strings(list: &[&str]) -> Vec<String> {
    list.iter().map(|s| s.to_string()).collect()
}

fn thread() -> ThreadId {
    ThreadId::from_string("00000000-0000-4000-8000-0000000000aa").expect("valid thread")
}

fn request(invocation: &[&str], exit_behavior: ItermForkTabExitBehavior) -> ItermForkTabRequest {
    ItermForkTabRequest {
        source_iterm_session_id: "session-1".to_string(),
        source_thread_id: thread(),
        codex_invocation: strings(invocation),
        exit_behavior,
        open_behavior: ItermForkTabOpenBehavior::Foreground,
    }
}

#[test]
fn codex_fork_invocation_includes_helper_and_snapshot_env_assignments() {
    let thread_id = thread();

    let invocation = codex_fork_invocation(
        "/tmp/codex".to_string(),
        &thread_id,
        "/opt/homebrew/bin/python3",
        "/tmp/fork env snapshot",
    );

    assert_eq!(
        invocation,
        vec![
            "/usr/bin/env".to_string(),
            "CODEX_ITERM2_HELPER_PYTHON=/opt/homebrew/bin/python3".to_string(),
            "CODEX_FORK_ENV_SNAPSHOT_PATH=/tmp/fork env snapshot".to_string(),
            "/tmp/codex".to_string(),
            "fork".to_string(),
            thread_id.to_text(),
        ]
    );
    assert_eq!(thread_id.to_text(), "00000000-0000-4000-8000-0000000000aa");
}

#[test]
fn codex_command_text_quotes_spaces() {
    let command = codex_command_text(&request(
        &["codex", "fork", "thread with spaces"],
        ItermForkTabExitBehavior::CloseTab,
    ))
    .expect("a command");
    assert_eq!(command, "codex fork 'thread with spaces'");
}

#[test]
fn codex_command_text_quotes_env_assignment_with_spaces() {
    let command = codex_command_text(&request(
        &[
            "/usr/bin/env",
            "CODEX_FORK_ENV_SNAPSHOT_PATH=/tmp/fork env snapshot",
            "codex",
            "fork",
            "thread-1",
        ],
        ItermForkTabExitBehavior::CloseTab,
    ))
    .expect("a command");
    assert_eq!(
        command,
        "/usr/bin/env 'CODEX_FORK_ENV_SNAPSHOT_PATH=/tmp/fork env snapshot' codex fork thread-1"
    );
}

#[test]
fn codex_command_text_wraps_fork_in_explicit_shell_command() {
    let command = codex_command_text(&request(
        &[
            "/usr/bin/env",
            "CODEX_ITERM2_HELPER_PYTHON=/opt/homebrew/bin/python3",
            "CODEX_FORK_ENV_SNAPSHOT_PATH=/tmp/fork env snapshot",
            "codex",
            "fork",
            "thread-1",
        ],
        ItermForkTabExitBehavior::ReturnToShell {
            shell: "/opt/homebrew/bin/fish".to_string(),
        },
    ))
    .expect("a command");
    assert_eq!(
        command,
        "/opt/homebrew/bin/fish -lc \"/usr/bin/env 'CODEX_ITERM2_HELPER_PYTHON=/opt/homebrew/bin/python3' 'CODEX_FORK_ENV_SNAPSHOT_PATH=/tmp/fork env snapshot' codex fork thread-1; exec /opt/homebrew/bin/fish -l\""
    );
}

#[test]
fn commands_that_cannot_be_written_are_refused() {
    assert!(matches!(
        codex_command_text(&request(&[], ItermForkTabExitBehavior::CloseTab)),
        Err(ForkTabError::EmptyInvocation)
    ));
    assert!(matches!(
        codex_command_text(&request(&["a\0b"], ItermForkTabExitBehavior::CloseTab)),
        Err(ForkTabError::InvocationNotQuotable)
    ));
}

/// What a helper that prints these fields answers.
fn outcome_of(fields: &[(&str, &str)]) -> ItermForkTabOutcome {
    let printed: Vec<String> = fields.iter().map(|(k, v)| format!("\"{k}\":\"{v}\"")).collect();
    let stdout = format!("{{{}}}", printed.join(","));
    let read = helper_stdout(stdout.as_bytes(), b"").expect("some output");
    assert_eq!(read, stdout);
    let value = JsonValue::Object(
        fields
            .iter()
            .map(|(k, v)| (k.to_string(), JsonValue::Text(v.to_string())))
            .collect(),
    );
    parse_helper_response(&read, Some(&value)).expect("a response")
}

#[test]
fn parse_helper_response_maps_launched_status() {
    let outcome = outcome_of(&[("status", "launched"), ("created_session_id", "w0t1p0")]);
    assert!(matches!(
        outcome,
        ItermForkTabOutcome::Launched { created_session_id: Some(id) } if id == "w0t1p0"
    ));
}

#[test]
fn parse_helper_response_maps_unsupported_status() {
    let outcome = outcome_of(&[
        ("status", "unsupported"),
        ("reason", "python module 'iterm2' is unavailable"),
    ]);
    assert!(matches!(
        outcome,
        ItermForkTabOutcome::Unsupported(reason) if reason == "python module 'iterm2' is unavailable"
    ));
}

#[test]
fn parse_helper_response_maps_failed_status() {
    let outcome = outcome_of(&[("status", "failed"), ("reason", "Failed to create iTerm2 tab")]);
    assert!(matches!(
        outcome,
        ItermForkTabOutcome::Failed(reason) if reason == "Failed to create iTerm2 tab"
    ));
}

#[test]
fn helpers_that_do_not_answer_are_reported() {
    assert!(matches!(helper_stdout(b"\xFF", b""), Err(ForkTabError::StdoutNotUtf8)));
    assert!(matches!(
        helper_stdout(b" \n", b" why\xFF\n"),
        Err(ForkTabError::EmptyStdout { stderr }) if stderr == "why\u{FFFD}"
    ));
    assert!(matches!(
        parse_helper_response("x", None),
        Err(ForkTabError::NotAResponse { stdout }) if stdout == "x"
    ));
    assert!(matches!(
        helper_exit_failure("exit status: 3", b"bad\n"),
        ItermForkTabOutcome::Failed(reason)
            if reason == "iTerm2 fork-tab helper exited with status exit status: 3: bad"
    ));
}

#[test]
fn forks_need_a_thread_with_a_turn() {
    assert!(check_fork_preconditions(false, Some("s"), Some(thread()), true).is_err());
    assert!(check_fork_preconditions(true, Some("  "), Some(thread()), true).is_err());
    assert!(check_fork_preconditions(true, Some("s"), None, true).is_err());
    assert_eq!(
        check_fork_preconditions(true, Some("s"), Some(thread()), false).err(),
        Some("A thread must contain at least one turn before it can be forked.".to_string())
    );
    let source = check_fork_preconditions(true, Some(" s "), Some(thread()), true).expect("a source");
    assert_eq!(source.iterm_session_id, "s");
    let environment = ForkEnvironment {
        current_exe: Some("/bin/codex"),
        configured_python: None,
        python_in_path: Some("/usr/bin/python3".to_string()),
        close_tab: true,
        shell: None,
        open_behavior: ItermForkTabOpenBehavior::Background,
    };
    let request = fork_request(source, environment, Ok(Ok("/tmp/snap".to_string()))).expect("a request");
    assert_eq!(
        request.codex_invocation,
        vec![
            "/usr/bin/env".to_string(),
            "CODEX_ITERM2_HELPER_PYTHON=/usr/bin/python3".to_string(),
            "CODEX_FORK_ENV_SNAPSHOT_PATH=/tmp/snap".to_string(),
            "/bin/codex".to_string(),
            "fork".to_string(),
            thread().to_text(),
        ]
    );
}

#[test]
fn python_is_looked_for_on_the_path() {
    let candidates = python3_candidates("/a:/b");
    assert_eq!(candidates, strings(&["/a/python3", "/b/python3"]));
    assert_eq!(
        find_python3_in_path(&candidates, &[false, true]),
        Some("/b/python3".to_string())
    );
    assert_eq!(
        helper_python_for_fork_launch(Some(" /c/py "), Some("/b/python3".to_string())),
        "/c/py"
    );
}

#[test]
fn launches_are_followed_up() {
    let launched = ItermForkTabOutcome::Launched {
        created_session_id: None,
    };
    assert!(matches!(after_launch(Ok(launched)), ForkFollowUp::PersistSnapshot));
    assert!(matches!(
        after_launch(Err("no".to_string())),
        ForkFollowUp::Report(_)
    ));
}

#[test]
fn hotkey_is_control_o_alone() {
    let control = KeyModifiers { control: true, alt: false, shift: false, other: false };
    let o = KeyCode::Char('o');
    assert_eq!(fork_hotkey(o, control, KeyKind::Press, true), HotkeyOutcome::Fork);
    assert_eq!(fork_hotkey(o, control, KeyKind::Press, false), HotkeyOutcome::Swallowed);
    assert_eq!(fork_hotkey(o, control, KeyKind::Repeat, true), HotkeyOutcome::NotHandled);
    assert_eq!(fork_hotkey(o, control, KeyKind::Release, true), HotkeyOutcome::NotHandled);
    let with_shift = KeyModifiers { shift: true, ..control };
    assert_eq!(fork_hotkey(o, with_shift, KeyKind::Press, true), HotkeyOutcome::NotHandled);
    let none = KeyModifiers { control: false, ..control };
    assert_eq!(fork_hotkey(o, none, KeyKind::Press, true), HotkeyOutcome::NotHandled);
    let p = KeyCode::Char('p');
    assert_eq!(fork_hotkey(p, control, KeyKind::Press, true), HotkeyOutcome::NotHandled);
}

// ---- loaded threads ----

fn id(n: u8) -> ThreadId {
    ThreadId::from_string(&format!("00000000-0000-0000-0000-00000000000{n}")).expect("valid thread")
}

fn summary(
    thread_id: ThreadId,
    parent_thread_id: Option<ThreadId>,
    agent_nickname: Option<&str>,
    agent_role: Option<&str>,
) -> ThreadLoadedSummary {
    ThreadLoadedSummary {
        id: thread_id.to_text(),
        parent_thread_id: parent_thread_id.map(|id| id.to_text()),
        agent_nickname: agent_nickname.map(str::to_string),
        agent_role: agent_role.map(str::to_string),
    }
}

#[test]
fn finds_loaded_subagent_tree_for_primary_thread() {
    let loaded = find_loaded_subagent_threads_for_primary(
        &[
            summary(id(1), None, None, None),
            summary(id(2), Some(id(1)), Some("Scout"), Some("explorer")),
            summary(id(3), Some(id(2)), Some("Atlas"), Some("worker")),
            summary(id(5), Some(id(4)), Some("Other"), Some("researcher")),
        ],
        id(1),
    );

    let parts: Vec<(ThreadId, Option<&str>, Option<&str>)> = loaded
        .iter()
        .map(|t| (t.thread_id, t.agent_nickname.as_deref(), t.agent_role.as_deref()))
        .collect();
    assert_eq!(
        parts,
        vec![
            (id(2), Some("Scout"), Some("explorer")),
            (id(3), Some("Atlas"), Some("worker")),
        ]
    );
}

#[test]
fn threads_in_a_circle_are_listed_once() {
    let loaded = find_loaded_subagent_threads_for_primary(
        &[
            summary(id(3), Some(id(2)), None, None),
            summary(id(1), Some(id(3)), None, None),
            summary(id(2), Some(id(1)), None, None),
            ThreadLoadedSummary {
                id: "no thread".to_string(),
                parent_thread_id: Some(id(1).to_text()),
                agent_nickname: None,
                agent_role: None,
            },
        ],
        id(1),
    );
    let ids: Vec<ThreadId> = loaded.iter().map(|t| t.thread_id).collect();
    assert_eq!(ids, vec![id(2), id(3)]);
}

#[test]
fn helper_is_told_what_to_run() {
    let asked = request(&["codex", "fork", "a b"], ItermForkTabExitBehavior::CloseTab);
    let told = helper_request(&asked).expect("request");
    assert_eq!(told.source_iterm_session_id, asked.source_iterm_session_id);
    assert_eq!(told.source_thread_id, asked.source_thread_id.to_text());
    assert_eq!(told.fork_command, "codex fork 'a b'");
    assert_eq!(told.open_behavior, asked.open_behavior);
    assert!(matches!(
        told.open_behavior,
        ItermForkTabOpenBehavior::Foreground | ItermForkTabOpenBehavior::Background
    ));
    assert!(helper_request(&request(&[], ItermForkTabExitBehavior::CloseTab)).is_err());
}

#[test]
fn helper_runs_with_the_configured_interpreter() {
    assert_eq!(helper_python_executable(Some(" /opt/python ")), "/opt/python");
    assert_eq!(helper_python_executable(Some("  ")), "python3");
    assert_eq!(helper_python_executable(None), "python3");
}

#[test]
fn lost_snapshots_are_reported() {
    assert_eq!(
        persist_failure("disk full"),
        "Fork tab launched but failed to persist its environment snapshot: disk full"
    );
}
