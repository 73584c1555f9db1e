use codex_workbench::journal::append_command;
use codex_workbench::journal::check_queue_capacity;
use codex_workbench::journal::FlushOutcome;
use codex_workbench::journal::JournalAction;
use codex_workbench::journal::JournalCommand;
use codex_workbench::journal::JournalWorker;
use codex_workbench::journal::shutdown_result;
use codex_workbench::thread_id::ThreadId;
use codex_workbench::thread_store::LiveRecorders;
use codex_workbench::thread_store::resume_failure;
use codex_workbench::thread_store::resume_read;
use codex_workbench::thread_store::resume_thread;
use codex_workbench::thread_store::ResumeThreadParams;
use codex_workbench::thread_store::RolloutItem;
use codex_workbench::thread_store::RotationStage;
use codex_workbench::thread_store::SegmentMeta;
use codex_workbench::thread_store::SegmentRotation;
use codex_workbench::thread_store::StoreConfig;
use codex_workbench::thread_store::StoredThread;
use codex_workbench::thread_store::ThreadMetadata;
use codex_workbench::thread_store::ThreadStoreError;

fn entry(role: &str, text: &str) -> Result<Vec<u8>, String> {
    Ok(format!("{{\"role\":\"{role}\",\"text\":\"{text}\"}}").into_bytes())
}

/// Runs a worker on commands; what it writes is appended to `file`.
fn run(file: &mut Vec<u8>, commands: Vec<JournalCommand>) -> (JournalWorker, Vec<bool>) {
    let mut worker = JournalWorker::new("/d/journal.jsonl".to_string());
    let mut answers = Vec::new();
    for command in commands {
        match worker.receive(command) {
            JournalAction::Ignore => {}
            JournalAction::Write(batch) => {
                file.extend_from_slice(&batch.bytes);
                worker.written(batch.failure, Ok(()));
            }
            JournalAction::FlushAndSync => {
                answers.push(worker.flushed(FlushOutcome::Synced).is_ok());
            }
            JournalAction::Answer(_) => answers.push(false),
        }
    }
    (worker, answers)
}

fn append(entries: Vec<Result<Vec<u8>, String>>) -> JournalCommand {
    append_command(entries).expect("entries")
}

fn lines(file: &[u8]) -> Vec<String> {
    String::from_utf8(file.to_vec())
        .expect("text")
        .lines()
        .map(str::to_string)
        .collect()
}

fn line(role: &str, text: &str) -> String {
    format!("{{\"role\":\"{role}\",\"text\":\"{text}\"}}")
}

#[test]
fn enqueue_and_flush_persists_entries_in_order() {
    let mut file = Vec::new();
    let (_, answers) = run(
        &mut file,
        vec![
            append(vec![entry("developer", "first")]),
            append(vec![entry("user", "hello")]),
            JournalCommand::Flush,
        ],
    );
    assert_eq!(answers, vec![true]);
    assert_eq!(
        lines(&file),
        vec![line("developer", "first"), line("user", "hello")]
    );
}

#[test]
fn enqueue_all_and_shutdown_persist_entries() {
    let mut file = Vec::new();
    let (worker, answers) = run(
        &mut file,
        vec![
            append(vec![entry("developer", "one"), entry("developer", "two")]),
            JournalCommand::Shutdown,
        ],
    );
    assert!(worker.stopped);
    assert_eq!(answers, vec![true]);
    assert_eq!(
        lines(&file),
        vec![line("developer", "one"), line("developer", "two")]
    );
}

#[test]
fn reopen_appends_to_existing_journal() {
    let mut file = Vec::new();
    run(
        &mut file,
        vec![append(vec![entry("developer", "first")]), JournalCommand::Shutdown],
    );
    run(
        &mut file,
        vec![append(vec![entry("user", "second")]), JournalCommand::Shutdown],
    );
    assert_eq!(
        lines(&file),
        vec![line("developer", "first"), line("user", "second")]
    );
}

#[test]
fn nothing_is_written_after_a_failure() {
    let mut file = Vec::new();
    let (worker, answers) = run(
        &mut file,
        vec![
            append(vec![entry("user", "a"), Err("bad".to_string()), entry("user", "b")]),
            append(vec![entry("user", "c")]),
            JournalCommand::Flush,
        ],
    );
    assert_eq!(lines(&file), vec![line("user", "a")]);
    assert_eq!(answers, vec![false]);
    assert!(matches!(
        worker.failure,
        Some(ThreadStoreError::Internal { message }) if message == "failed to serialize journal entry: bad"
    ));
    assert!(append_command(Vec::new()).is_none());
    assert!(check_queue_capacity(0).is_err());
    assert!(check_queue_capacity(1).is_ok());
    assert!(shutdown_result(true, Some(Ok(())), Some(Ok(Ok(())))).is_ok());
    assert!(shutdown_result(false, None, None).is_err());
}

// ---- threads ----

fn thread() -> ThreadId {
    ThreadId { value: 7 }
}

fn store() -> StoreConfig {
    StoreConfig {
        codex_home: "/home".to_string(),
        sqlite_home: "/sql".to_string(),
    }
}

fn metadata(cwd: Option<&str>) -> ThreadMetadata {
    ThreadMetadata {
        cwd: cwd.map(str::to_string),
        model_provider: "openai".to_string(),
        memory_enabled: true,
    }
}

fn meta() -> SegmentMeta {
    SegmentMeta {
        id: thread(),
        segment_id: Some("seg".to_string()),
        forked_from_id: None,
    }
}

#[test]
fn rotation_goes_from_the_old_segment_to_the_new_one() {
    let mut live = LiveRecorders::new();
    assert!(matches!(
        SegmentRotation::begin(&live, thread()),
        Err(ThreadStoreError::ThreadNotFound { thread_id }) if thread_id == thread()
    ));
    live.insert(thread(), "/old.jsonl".to_string());
    let mut rotation = SegmentRotation::begin(&live, thread()).expect("a rotation");
    rotation.old_flushed(Ok(())).expect("flushed");
    let segment = rotation
        .meta_read(
            Ok(meta()),
            &store(),
            &metadata(Some("/w")),
            Some(3),
            vec![RolloutItem::Entry("e".to_string())],
        )
        .expect("a segment");
    assert_eq!(segment.config.cwd, "/w");
    assert!(matches!(
        &segment.initial_items[0],
        RolloutItem::Reference { rollout_path, segment_id: Some(id), max_depth: Some(3), .. }
            if rollout_path == "/old.jsonl" && id == "seg"
    ));
    assert_eq!(segment.initial_items.len(), 2);
    rotation.opened(Ok("/new.jsonl".to_string())).expect("opened");
    rotation.new_written(Ok(())).expect("recorded");
    rotation.new_written(Ok(())).expect("flushed");
    assert_eq!(live.rollout_path(thread()).ok(), Some("/old.jsonl".to_string()));
    rotation.old_closed(Ok(()));
    rotation.replace(&mut live).expect("replaced");
    assert_eq!(rotation.stage, RotationStage::Done);
    assert_eq!(live.rollout_path(thread()).ok(), Some("/new.jsonl".to_string()));
}

#[test]
fn paths_are_compared_by_their_parts() {
    let replaced_from = |current: &str| {
        let mut live = LiveRecorders::new();
        live.insert(thread(), current.to_string());
        let mut rotation = SegmentRotation {
            thread_id: thread(),
            old_path: "/a/b".to_string(),
            new_path: Some("/a/c".to_string()),
            stage: RotationStage::Replace,
        };
        (rotation.replace(&mut live), live.rollout_path(thread()).ok())
    };
    let (outcome, path) = replaced_from("/a//b");
    assert!(outcome.is_ok());
    assert_eq!(path, Some("/a/c".to_string()));
    let (outcome, path) = replaced_from("/a/d");
    assert!(matches!(
        outcome,
        Err(ThreadStoreError::Conflict { message })
            if message == format!(
                "live writer for thread {} changed during segment rotation",
                thread().to_text()
            )
    ));
    assert_eq!(path, Some("/a/d".to_string()));
}

#[test]
fn live_threads_are_not_taken_up_again() {
    let mut live = LiveRecorders::new();
    assert!(live.ensure_live_recorder_absent(thread()).is_ok());
    live.insert(thread(), "/a.jsonl".to_string());
    assert!(live.ensure_live_recorder_absent(thread()).is_err());
    assert_eq!(live.rollout_path(thread()).ok(), Some("/a.jsonl".to_string()));
}

#[test]
fn identifiers_are_written_in_groups() {
    let id = ThreadId {
        value: 0x0123_4567_89ab_cdef_0f1e_2d3c_4b5a_6978,
    };
    assert_eq!(id.to_text(), "01234567-89ab-cdef-0f1e-2d3c4b5a6978");
    assert_eq!(ThreadId { value: 0 }.to_text(), "00000000-0000-0000-0000-000000000000");
}

#[test]
fn failed_rotations_keep_the_old_segment() {
    let mut live = LiveRecorders::new();
    live.insert(thread(), "/old.jsonl".to_string());
    let mut rotation = SegmentRotation::begin(&live, thread()).expect("a rotation");
    rotation.old_flushed(Ok(())).expect("flushed");
    let refused = rotation.meta_read(Ok(meta()), &store(), &metadata(None), None, Vec::new());
    assert!(matches!(
        refused,
        Err(ThreadStoreError::InvalidRequest { message }) if message == "local thread store requires a cwd"
    ));
    assert_eq!(live.rollout_path(thread()).ok(), Some("/old.jsonl".to_string()));
}

#[test]
fn recorders_are_removed_once_they_are_closed() {
    let mut live = LiveRecorders::new();
    live.insert(thread(), "/a.jsonl".to_string());
    assert!(live.shutdown_thread(thread(), Err("busy".to_string())).is_err());
    assert!(live.shutdown_thread(thread(), Ok(())).is_ok());
    assert!(live.discard_thread(thread()).is_err());
}

#[test]
fn threads_are_resumed_from_where_they_are() {
    let params = |rollout_path: Option<&str>| ResumeThreadParams {
        thread_id: thread(),
        rollout_path: rollout_path.map(str::to_string),
        history: None,
        include_archived: true,
        metadata: metadata(Some("/w")),
    };
    let mut live = LiveRecorders::new();
    let read = resume_read(&live, &params(None))
        .expect("a thread to be resumed")
        .expect("a read");
    assert!(read.include_archived);
    assert!(resume_read(&live, &params(Some("/r.jsonl")))
        .expect("a thread to be resumed")
        .is_none());
    live.insert(thread(), "/r.jsonl".to_string());
    assert!(matches!(
        resume_read(&live, &params(None)),
        Err(ThreadStoreError::InvalidRequest { message })
            if message == format!("thread {} already has a live local writer", thread().to_text())
    ));
    let stored = StoredThread {
        rollout_path: Some("/s.jsonl".to_string()),
        history: Some(vec!["h".to_string()]),
    };
    let plan = resume_thread(&store(), params(None), Some(stored)).expect("a plan");
    assert_eq!(plan.rollout_path, "/s.jsonl");
    assert_eq!(plan.history, Some(vec!["h".to_string()]));
    let nowhere = StoredThread {
        rollout_path: None,
        history: None,
    };
    assert!(resume_thread(&store(), params(None), Some(nowhere)).is_err());
}

#[test]
fn recorders_that_do_not_open_are_reported() {
    match resume_failure("locked") {
        ThreadStoreError::Internal { message } => {
            assert_eq!(message, "failed to resume local thread recorder: locked");
        }
        other => panic!("unexpected error: {other:?}"),
    }
}
