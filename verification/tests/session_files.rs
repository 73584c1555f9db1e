use codex_workbench::atomic_write::no_parent_message;
use codex_workbench::atomic_write::AtomicWrite;
use codex_workbench::atomic_write::WriteFailure;
use codex_workbench::atomic_write::WriteStep;
use codex_workbench::session_state::contract_fixtures;
use codex_workbench::session_state::FileOutcome;
use codex_workbench::session_state::move_session_state_sidecar_if_present;
use codex_workbench::session_state::MoveFailure;
use codex_workbench::session_state::MoveStep;
use codex_workbench::session_state::refresh_interactive_session_state_sidecar;
use codex_workbench::session_state::session_state_sidecar_path;
use codex_workbench::session_state::SessionSource;
use codex_workbench::session_state::SessionStateBackgroundExecProcess;
use codex_workbench::session_state::SessionStateRootTurn;
use codex_workbench::session_state::SessionStateSubagentEdgeStatus;
use codex_workbench::session_state::SessionStateTracker;
use codex_workbench::session_state::SubAgentSource;
use codex_workbench::session_state::TerminalAttachment;
use codex_workbench::thread_id::ThreadId;

/// 2026-04-07T18:00:00Z.
const NOW: i64 = 1_775_584_800;

fn terminal() -> TerminalAttachment {
    TerminalAttachment {
        provider: "iterm2".to_string(),
        session_id: Some("w0t1p0".to_string()),
        tty: None,
    }
}

fn subagent_session_source() -> SessionSource {
    SessionSource::SubAgent(SubAgentSource::ThreadSpawn {
        parent_thread_id: ThreadId::from_string("00000000-0000-4000-8000-0000000000aa").unwrap(),
        depth: 2,
        agent_path: Some("/root/explorer".to_string()),
        agent_nickname: Some("Parfit".to_string()),
        agent_role: Some("explorer".to_string()),
    })
}

#[test]
fn session_state_sidecar_path_uses_rollout_extension() {
    assert_eq!(
        session_state_sidecar_path("/tmp/sessions/2025/03/09/rollout-thread.jsonl"),
        "/tmp/sessions/2025/03/09/rollout-thread.session-state.json"
    );
}

#[test]
fn terminal_attachment_sidecar_refresh_skips_noninteractive_sources() {
    let written = refresh_interactive_session_state_sidecar(
        Some("/tmp/rollout-thread.jsonl"),
        &SessionSource::Exec,
        Some(terminal()),
        NOW,
    );
    assert!(written.is_none());
    let (path, sidecar) = refresh_interactive_session_state_sidecar(
        Some("/tmp/rollout-thread.jsonl"),
        &SessionSource::Cli,
        Some(terminal()),
        NOW,
    )
    .expect("an interactive session");
    assert_eq!(path, "/tmp/rollout-thread.session-state.json");
    assert_eq!(sidecar.updated_at, "2026-04-07T18:00:00Z");
    assert_eq!(
        sidecar.terminal.and_then(|t| t.session_id),
        Some("w0t1p0".to_string())
    );
}

#[test]
fn session_state_tracker_writes_and_closes_subagent_edge() {
    let mut tracker = SessionStateTracker::new(
        Some("/tmp/rollout-subagent.jsonl".to_string()),
        &subagent_session_source(),
        /*terminal*/ None,
        NOW,
    );

    assert_eq!(
        tracker.write_current(),
        Some("/tmp/rollout-subagent.session-state.json".to_string())
    );
    assert_eq!(
        tracker.sidecar.subagent.as_ref().map(|subagent| (
            subagent.edge_status,
            subagent.agent_path.as_deref(),
            subagent.depth,
        )),
        Some((SessionStateSubagentEdgeStatus::Open, Some("/root/explorer"), 2)),
    );

    assert!(tracker.note_root_turn_started("turn-1", NOW));
    assert!(tracker.note_root_turn_completed("turn-1", NOW + 60));
    assert_eq!(
        tracker.sidecar.subagent.as_ref().map(|subagent| subagent.edge_status),
        Some(SessionStateSubagentEdgeStatus::Closed),
    );
    assert!(matches!(
        &tracker.sidecar.root_turn,
        SessionStateRootTurn::Completed { turn_id, started_at, completed_at }
            if turn_id == "turn-1"
                && started_at == "2026-04-07T18:00:00Z"
                && completed_at == "2026-04-07T18:01:00Z",
    ));
}

#[test]
fn session_state_tracker_updates_owner_watchdog_count() {
    let mut tracker = SessionStateTracker::new(
        Some("/tmp/rollout-watchdog.jsonl".to_string()),
        &SessionSource::Cli,
        /*terminal*/ None,
        NOW,
    );

    assert!(tracker.write_current().is_some());
    assert!(tracker.set_owner_watchdog_count(2, NOW));
    assert_eq!(tracker.sidecar.owner_watchdogs.active_count, 2);
}

/// The steps of a move whose steps end with outcomes.
fn moved(outcomes: &[FileOutcome], removes_target: bool) -> Vec<MoveStep> {
    let mut step = MoveStep::CreateDirectory;
    outcomes
        .iter()
        .map(|outcome| {
            step = move_session_state_sidecar_if_present(step, *outcome, removes_target);
            step
        })
        .collect()
}

#[test]
fn move_session_state_sidecar_if_present_renames_sibling() {
    assert_eq!(
        moved(&[FileOutcome::Done, FileOutcome::Done], false),
        [MoveStep::Rename, MoveStep::Settled]
    );
    assert_eq!(
        moved(&[FileOutcome::Done, FileOutcome::Failed], false),
        [MoveStep::Rename, MoveStep::Failed(MoveFailure::Rename)]
    );
    assert_eq!(
        moved(&[FileOutcome::Failed], false),
        [MoveStep::Failed(MoveFailure::Directory)]
    );
}

#[test]
fn move_session_state_sidecar_if_present_ignores_missing_source() {
    assert_eq!(
        moved(
            &[FileOutcome::Done, FileOutcome::NotFound, FileOutcome::NotFound],
            false
        ),
        [MoveStep::Rename, MoveStep::LookAtSource, MoveStep::Settled]
    );
    assert_eq!(
        moved(&[FileOutcome::Done, FileOutcome::NotFound, FileOutcome::Failed], false)[2],
        MoveStep::Failed(MoveFailure::Lookup)
    );
    assert_eq!(
        moved(&[FileOutcome::Done, FileOutcome::NotFound, FileOutcome::Done], true)[2],
        MoveStep::Failed(MoveFailure::Rename)
    );
}

#[test]
fn targets_in_the_way_are_removed_where_they_have_to_be() {
    let done = FileOutcome::Done;
    let failed = FileOutcome::Failed;
    assert_eq!(
        moved(&[done, failed, done, done, done], true),
        [
            MoveStep::Rename,
            MoveStep::LookAtTarget,
            MoveStep::RemoveTarget,
            MoveStep::RenameAgain,
            MoveStep::Settled,
        ]
    );
    assert_eq!(
        moved(&[done, failed, FileOutcome::NotFound], true)[2],
        MoveStep::Failed(MoveFailure::Rename)
    );
    assert_eq!(
        moved(&[done, failed, done, failed], true)[3],
        MoveStep::Failed(MoveFailure::RemoveTarget)
    );
    assert_eq!(
        moved(&[done, failed, done, done, failed], true)[4],
        MoveStep::Failed(MoveFailure::RenameAgain)
    );
}

#[test]
fn turns_hold_a_lease_while_they_run() {
    let mut tracker = SessionStateTracker::new(
        Some("/tmp/r.jsonl".to_string()),
        &SessionSource::Cli,
        None,
        NOW,
    );
    tracker.note_root_turn_started("t", NOW);
    assert!(matches!(
        &tracker.sidecar.root_turn,
        SessionStateRootTurn::Running { lease_expires_at, .. }
            if lease_expires_at == "2026-04-07T18:15:00Z"
    ));
    tracker.note_root_turn_observed("t", NOW + 60);
    assert!(matches!(
        &tracker.sidecar.root_turn,
        SessionStateRootTurn::Running { started_at, lease_expires_at, .. }
            if started_at == "2026-04-07T18:00:00Z"
                && lease_expires_at == "2026-04-07T18:16:00Z"
    ));
    tracker.note_root_turn_aborted("t", NOW + 120);
    assert!(matches!(
        &tracker.sidecar.root_turn,
        SessionStateRootTurn::Aborted { started_at, .. } if started_at == "2026-04-07T18:00:00Z"
    ));
    assert!(SessionStateTracker::disabled(NOW).write_current().is_none());
}

#[test]
fn fixtures_have_distinct_names() {
    let fixtures = contract_fixtures();
    assert!(!fixtures.is_empty());
    for (i, fixture) in fixtures.iter().enumerate() {
        assert!(fixtures[..i].iter().all(|other| other.file_name != fixture.file_name));
        assert_eq!(fixture.sidecar.schema_version, 2);
    }
}

// ---- writing ----

fn steps(outcomes: &[bool], removes_target: bool) -> (Vec<WriteStep>, AtomicWrite) {
    let mut write = AtomicWrite::begin("/d/state.json", 7, 9, removes_target).expect("a write");
    let mut steps = vec![write.step];
    for ok in outcomes {
        write.advance(*ok);
        steps.push(write.step);
    }
    (steps, write)
}

#[test]
fn files_are_written_beside_and_moved() {
    let (steps, write) = steps(&[true, true, true, true, true], false);
    assert_eq!(
        steps,
        vec![
            WriteStep::CreateDirectory,
            WriteStep::CreateTemporary,
            WriteStep::WriteTemporary,
            WriteStep::SyncTemporary,
            WriteStep::Replace,
            WriteStep::Finished,
        ]
    );
    assert_eq!(write.directory, "/d");
    assert!(write.temporary.starts_with("/d/"));
    assert_ne!(write.temporary, "/d/state.json");
}

#[test]
fn failed_writes_say_where_they_failed() {
    let (first, write) = steps(&[false], false);
    assert_eq!(first[1], WriteStep::Failed(WriteFailure::Directory));
    assert_eq!(
        write.failure_message(WriteFailure::Directory),
        "failed to create session state dir /d"
    );
    assert!(AtomicWrite::begin("/", 1, 1, false).is_none());
    assert_eq!(
        no_parent_message("/"),
        "failed to compute parent directory for session state at /"
    );
}

#[test]
fn nameless_targets_are_found_out_in_their_directory() {
    let mut write = AtomicWrite::begin("/a/..", 1, 1, false).expect("a write");
    assert_eq!(write.step, WriteStep::CreateDirectory);
    write.advance(false);
    assert_eq!(write.step, WriteStep::Failed(WriteFailure::Directory));
    let mut write = AtomicWrite::begin("/a/..", 1, 1, false).expect("a write");
    write.advance(true);
    assert_eq!(write.step, WriteStep::Failed(WriteFailure::NoFileName));
    assert_eq!(
        write.failure_message(WriteFailure::NoFileName),
        "session state file name is not valid UTF-8"
    );
}

#[test]
fn background_processes_are_replaced() {
    let mut tracker = SessionStateTracker::disabled(NOW);
    let process = SessionStateBackgroundExecProcess {
        process_id: "1".to_string(),
        call_id: "call".to_string(),
        command: "sleep 1".to_string(),
        cwd: "/tmp".to_string(),
        started_at: "2026-04-07T18:00:00Z".to_string(),
        updated_at: "2026-04-07T18:00:00Z".to_string(),
        tty: false,
    };
    assert!(!tracker.set_background_exec_processes(vec![process], NOW));
    assert_eq!(tracker.sidecar.background_exec.processes.len(), 1);
    assert_eq!(tracker.sidecar.background_exec.processes[0].command, "sleep 1");
    tracker.set_background_exec_processes(Vec::new(), NOW);
    assert!(tracker.sidecar.background_exec.processes.is_empty());
}
