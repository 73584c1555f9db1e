//! An append-only journal of lines, written by a worker that takes commands in order.

use vstd::prelude::*;

use crate::thread_store;
use crate::thread_store::StoreErrorView;
use crate::thread_store::ThreadStoreError;

verus! {

/// How many commands wait for the worker unless asked otherwise.
pub const DEFAULT_QUEUE_CAPACITY: usize = 1024;

/// A worker needs room for a command.
pub fn check_queue_capacity(capacity: usize) -> (r: Result<(), ThreadStoreError>)
    ensures
        match r {
            Ok(()) => capacity > 0,
            Err(e) => capacity == 0 && e@ == StoreErrorView::InvalidRequest(
                "journal queue capacity must be greater than zero"@,
            ),
        },
{
    if capacity == 0 {
        return Err(
            ThreadStoreError::InvalidRequest {
                message: "journal queue capacity must be greater than zero".to_owned(),
            },
        );
    }
    Ok(())
}

/// What the worker is told.
#[derive(Debug)]
pub enum JournalCommand {
    /// Append entries, each serialised or not serialisable.
    Append(Vec<Result<Vec<u8>, String>>),
    /// Make what was appended durable.
    Flush,
    /// Make what was appended durable and stop.
    Shutdown,
    /// Nobody will tell the worker anything any more.
    Closed,
}

/// The command that appends entries; nothing is sent for none.
pub fn append_command(entries: Vec<Result<Vec<u8>, String>>) -> (r: Option<JournalCommand>)
    ensures
        match r {
            Some(c) => entries@.len() > 0 && c == JournalCommand::Append(entries),
            None => entries@.len() == 0,
        },
{
    if entries.len() == 0 {
        None
    } else {
        Some(JournalCommand::Append(entries))
    }
}

/// The bytes of the first `n` entries: each on a line of its own, up to the first that is
/// not serialisable.
pub open spec fn journal_bytes(entries: Seq<Result<Vec<u8>, String>>, n: int) -> Seq<u8>
    decreases n,
{
    if n <= 0 {
        Seq::empty()
    } else {
        match entries[n - 1] {
            Ok(json) => if first_failure(entries, 0) >= n {
                journal_bytes(entries, n - 1) + json@.push(10u8)
            } else {
                journal_bytes(entries, n - 1)
            },
            Err(_) => journal_bytes(entries, n - 1),
        }
    }
}

/// The position of the first entry from `i` on that is not serialisable, or their number.
pub open spec fn first_failure(entries: Seq<Result<Vec<u8>, String>>, i: int) -> int
    decreases entries.len() - i,
{
    if i < 0 || i >= entries.len() {
        entries.len() as int
    } else if entries[i] is Err {
        i
    } else {
        first_failure(entries, i + 1)
    }
}

/// What appending entries comes to.
#[derive(Debug)]
pub struct JournalBatch {
    /// What is written.
    pub bytes: Vec<u8>,
    /// What is reported once it is written.
    pub failure: Option<ThreadStoreError>,
}

/// An optional error by its text.
pub open spec fn failure_view(f: Option<ThreadStoreError>) -> Option<StoreErrorView> {
    match f {
        Some(e) => Some(e@),
        None => None,
    }
}

/// What is reported of entries once they are written: the first that is not serialisable.
pub open spec fn batch_failure(entries: Seq<Result<Vec<u8>, String>>) -> Option<StoreErrorView> {
    if first_failure(entries, 0) < entries.len() {
        Some(
            StoreErrorView::Internal(
                "failed to serialize journal entry: "@ + entries[first_failure(
                    entries,
                    0,
                )]->Err_0@,
            ),
        )
    } else {
        None
    }
}

/// What stands as the failure after a batch was written, or not. The first failure stands.
pub open spec fn failure_after_write(
    failure: Option<StoreErrorView>,
    batch: Option<StoreErrorView>,
    outcome: Result<(), String>,
) -> Option<StoreErrorView> {
    if failure is Some {
        failure
    } else {
        match outcome {
            Err(problem) => Some(StoreErrorView::Internal(problem@)),
            Ok(()) => batch,
        }
    }
}

/// What appending entries comes to.
pub fn append_entries(entries: &[Result<Vec<u8>, String>]) -> (r: JournalBatch)
    ensures
        r.bytes@ == journal_bytes(entries@, entries@.len() as int),
        failure_view(r.failure) == batch_failure(entries@),
{
    let mut bytes: Vec<u8> = Vec::new();
    let mut i: usize = 0;
    while i < entries.len()
        invariant
            i <= entries.len(),
            first_failure(entries@, 0) == first_failure(entries@, i as int),
            bytes@ == journal_bytes(entries@, i as int),
        decreases entries.len() - i,
    {
        match &entries[i] {
            Ok(json) => {
                proof {
                    lemma_failure_is_later(entries@, i + 1);
                }
                let mut j: usize = 0;
                let ghost before = bytes@;
                assert(before + json@.take(0) =~= before);
                while j < json.len()
                    invariant
                        j <= json.len(),
                        bytes@ == before + json@.take(j as int),
                    decreases json.len() - j,
                {
                    bytes.push(json[j]);
                    assert(before + json@.take(j + 1) =~= (before + json@.take(j as int)).push(
                        json@[j as int],
                    ));
                    j = j + 1;
                }
                bytes.push(10u8);
                assert(json@.take(j as int) =~= json@);
                assert(bytes@ =~= before + json@.push(10u8));
            },
            Err(problem) => {
                proof {
                    lemma_nothing_after_failure(entries@, entries@.len() as int);
                }
                return JournalBatch {
                    bytes,
                    failure: Some(
                        thread_store::internal_error(
                            "failed to serialize journal entry: ",
                            problem.as_str(),
                        ),
                    ),
                };
            },
        }
        i = i + 1;
    }
    JournalBatch { bytes, failure: None }
}

proof fn lemma_failure_is_later(entries: Seq<Result<Vec<u8>, String>>, i: int)
    requires
        0 <= i <= entries.len(),
    ensures
        i <= first_failure(entries, i) <= entries.len(),
    decreases entries.len() - i,
{
    if i < entries.len() && !(entries[i] is Err) {
        lemma_failure_is_later(entries, i + 1);
    }
}

proof fn lemma_nothing_after_failure(entries: Seq<Result<Vec<u8>, String>>, n: int)
    requires
        first_failure(entries, 0) <= n <= entries.len(),
    ensures
        journal_bytes(entries, n) == journal_bytes(entries, first_failure(entries, 0)),
    decreases n,
{
    lemma_failure_is_later(entries, 0);
    if first_failure(entries, 0) < n {
        lemma_nothing_after_failure(entries, n - 1);
    }
}

/// What the worker does next.
#[derive(Debug)]
pub enum JournalAction {
    /// Nothing: an earlier failure stands.
    Ignore,
    /// Write a batch.
    Write(JournalBatch),
    /// Flush the writer and sync the file.
    FlushAndSync,
    /// Answer with the earlier failure.
    Answer(ThreadStoreError),
}

/// How a flush went.
#[derive(Debug)]
pub enum FlushOutcome {
    Synced,
    FlushFailed(String),
    SyncFailed(String),
}

/// The worker: the file that it writes, and the first thing that went wrong.
#[derive(Debug)]
pub struct JournalWorker {
    pub path: String,
    pub failure: Option<ThreadStoreError>,
    pub stopped: bool,
}

/// What a flush that failed is reported as.
pub open spec fn flush_failure(path: Seq<char>, outcome: FlushOutcome) -> Option<StoreErrorView> {
    match outcome {
        FlushOutcome::Synced => None,
        FlushOutcome::FlushFailed(problem) => Some(StoreErrorView::Internal(problem@)),
        FlushOutcome::SyncFailed(problem) => Some(
            StoreErrorView::Internal("failed to sync journal at "@ + path + ": "@ + problem@),
        ),
    }
}

impl JournalWorker {
    /// A worker for a file.
    pub fn new(path: String) -> (r: Self)
        ensures
            r.path == path && r.failure is None && !r.stopped,
    {
        JournalWorker { path, failure: None, stopped: false }
    }

    /// Takes a command. A worker that failed writes nothing more.
    pub fn receive(&mut self, command: JournalCommand) -> (r: JournalAction)
        ensures
            final(self).path == old(self).path,
            failure_view(final(self).failure) == failure_view(old(self).failure),
            final(self).stopped == (old(self).stopped || command is Shutdown || command is Closed),
            match command {
                JournalCommand::Append(entries) => if old(self).failure is Some {
                    r is Ignore
                } else {
                    r matches JournalAction::Write(batch) && batch.bytes@ == journal_bytes(
                        entries@,
                        entries@.len() as int,
                    ) && failure_view(batch.failure) == batch_failure(entries@)
                },
                _ => if old(self).failure is Some {
                    r matches JournalAction::Answer(e) && Some(e@) == failure_view(
                        old(self).failure,
                    )
                } else {
                    r is FlushAndSync
                },
            },
    {
        match command {
            JournalCommand::Append(entries) => if self.failure.is_some() {
                JournalAction::Ignore
            } else {
                JournalAction::Write(append_entries(entries.as_slice()))
            },
            JournalCommand::Flush => self.flush_action(),
            JournalCommand::Shutdown => {
                self.stopped = true;
                self.flush_action()
            },
            JournalCommand::Closed => {
                self.stopped = true;
                self.flush_action()
            },
        }
    }

    fn flush_action(&self) -> (r: JournalAction)
        ensures
            if self.failure is Some {
                r matches JournalAction::Answer(e) && Some(e@) == failure_view(self.failure)
            } else {
                r is FlushAndSync
            },
    {
        match &self.failure {
            Some(e) => JournalAction::Answer(e.duplicate()),
            None => JournalAction::FlushAndSync,
        }
    }

    /// A batch was written, or not. The first failure stands.
    pub fn written(&mut self, reported: Option<ThreadStoreError>, outcome: Result<(), String>)
        ensures
            final(self).path == old(self).path,
            final(self).stopped == old(self).stopped,
            failure_view(final(self).failure) == failure_after_write(
                failure_view(old(self).failure),
                failure_view(reported),
                outcome,
            ),
    {
        if self.failure.is_none() {
            self.failure = match outcome {
                Err(problem) => Some(ThreadStoreError::Internal { message: problem }),
                Ok(()) => reported,
            };
        }
    }

    /// A flush was made, or not: the answer, which stands as a failure where it is one.
    pub fn flushed(&mut self, outcome: FlushOutcome) -> (r: Result<(), ThreadStoreError>)
        requires
            old(self).failure is None,
        ensures
            final(self).path == old(self).path,
            final(self).stopped == old(self).stopped,
            failure_view(final(self).failure) == flush_failure(old(self).path@, outcome),
            match r {
                Ok(()) => flush_failure(old(self).path@, outcome) is None,
                Err(e) => flush_failure(old(self).path@, outcome) == Some(e@),
            },
    {
        match outcome {
            FlushOutcome::Synced => Ok(()),
            FlushOutcome::FlushFailed(problem) => {
                let e = ThreadStoreError::Internal { message: problem };
                self.failure = Some(e.duplicate());
                Err(e)
            },
            FlushOutcome::SyncFailed(problem) => {
                let mut message = "failed to sync journal at ".to_owned();
                message.push_str(self.path.as_str());
                message.push_str(": ");
                message.push_str(problem.as_str());
                let e = ThreadStoreError::Internal { message };
                self.failure = Some(e.duplicate());
                Err(e)
            },
        }
    }
}

/// What a sender that found no worker is told.
pub fn send_error() -> (r: ThreadStoreError)
    ensures
        r@ == StoreErrorView::Internal("journal worker is not available"@),
{
    ThreadStoreError::Internal { message: "journal worker is not available".to_owned() }
}

/// What a sender that got no answer is told.
pub fn recv_error() -> (r: ThreadStoreError)
    ensures
        r@ == StoreErrorView::Internal("journal worker dropped its response channel"@),
{
    ThreadStoreError::Internal {
        message: "journal worker dropped its response channel".to_owned(),
    }
}

/// A result by its error's text.
pub open spec fn result_view(r: Result<(), ThreadStoreError>) -> Option<StoreErrorView> {
    match r {
        Ok(()) => None,
        Err(e) => Some(e@),
    }
}

/// The result of a shutdown: the answer to it comes before what the worker ended with.
/// `answer` is nothing where the worker dropped it, and `worker` is nothing where there is
/// none; a worker whose task failed is known by the problem.
pub fn shutdown_result(
    sent: bool,
    answer: Option<Result<(), ThreadStoreError>>,
    worker: Option<Result<Result<(), ThreadStoreError>, String>>,
) -> (r: Result<(), ThreadStoreError>)
    ensures
        result_view(r) == if !sent {
            Some(StoreErrorView::Internal("journal worker is not available"@))
        } else {
            match answer {
                None => Some(
                    StoreErrorView::Internal("journal worker dropped its response channel"@),
                ),
                Some(flushed) => match worker {
                    None => result_view(flushed),
                    Some(Err(problem)) => Some(
                        StoreErrorView::Internal("journal worker task failed: "@ + problem@),
                    ),
                    Some(Ok(ended)) => if flushed is Err {
                        result_view(flushed)
                    } else {
                        result_view(ended)
                    },
                },
            }
        },
{
    if !sent {
        return Err(send_error());
    }
    match answer {
        None => Err(recv_error()),
        Some(flushed) => match worker {
            None => flushed,
            Some(Err(problem)) => Err(
                thread_store::internal_error("journal worker task failed: ", problem.as_str()),
            ),
            Some(Ok(ended)) => match flushed {
                Err(e) => Err(e),
                Ok(()) => ended,
            },
        },
    }
}

/// Entries that can all be serialised are written in order, each on its own line: appending
/// one batch after another writes what appending them together would.
pub proof fn batches_keep_order(
    a: Seq<Result<Vec<u8>, String>>,
    b: Seq<Result<Vec<u8>, String>>,
)
    requires
        forall|i: int| 0 <= i < a.len() ==> (#[trigger] a[i]) is Ok,
        forall|i: int| 0 <= i < b.len() ==> (#[trigger] b[i]) is Ok,
    ensures
        journal_bytes(a + b, (a + b).len() as int) == journal_bytes(a, a.len() as int)
            + journal_bytes(b, b.len() as int),
    decreases b.len(),
{
    lemma_no_failure(a, 0);
    lemma_no_failure(b, 0);
    lemma_no_failure(a + b, 0);
    lemma_prefix_bytes(a, b, a.len() as int);
    lemma_suffix_bytes(a, b, b.len() as int);
}

proof fn lemma_no_failure(entries: Seq<Result<Vec<u8>, String>>, i: int)
    requires
        0 <= i <= entries.len(),
        forall|i: int| 0 <= i < entries.len() ==> (#[trigger] entries[i]) is Ok,
    ensures
        first_failure(entries, i) == entries.len(),
    decreases entries.len() - i,
{
    if i < entries.len() {
        lemma_no_failure(entries, i + 1);
    }
}

proof fn lemma_prefix_bytes(
    a: Seq<Result<Vec<u8>, String>>,
    b: Seq<Result<Vec<u8>, String>>,
    n: int,
)
    requires
        0 <= n <= a.len(),
        first_failure(a, 0) == a.len(),
        first_failure(a + b, 0) == (a + b).len(),
    ensures
        journal_bytes(a + b, n) == journal_bytes(a, n),
    decreases n,
{
    if n > 0 {
        lemma_prefix_bytes(a, b, n - 1);
        assert((a + b)[n - 1] == a[n - 1]);
    }
}

proof fn lemma_suffix_bytes(
    a: Seq<Result<Vec<u8>, String>>,
    b: Seq<Result<Vec<u8>, String>>,
    n: int,
)
    requires
        0 <= n <= b.len(),
        first_failure(b, 0) == b.len(),
        first_failure(a + b, 0) == (a + b).len(),
    ensures
        journal_bytes(a + b, a.len() + n) == journal_bytes(a + b, a.len() as int) + journal_bytes(
            b,
            n,
        ),
    decreases n,
{
    if n > 0 {
        lemma_suffix_bytes(a, b, n - 1);
        assert((a + b)[a.len() + n - 1] == b[n - 1]);
    }
    assert(journal_bytes(a + b, a.len() + n) =~= journal_bytes(a + b, a.len() as int)
        + journal_bytes(b, n));
}

// ---- a whole run ----

/// What happens to a journal: entries are appended, and the writing of the batch ends somehow; or
/// it is flushed, and where that is tried it ends somehow.
pub ghost enum JournalEvent {
    Append { entries: Seq<Result<Vec<u8>, String>>, outcome: Result<(), String> },
    Flush { flush: FlushOutcome },
}

/// A journal with its file. What a write that failed left behind is not said.
#[verifier::ext_equal]
pub ghost struct JournalState {
    /// What the worker holds as its failure.
    pub failure: Option<StoreErrorView>,
    /// What the file held at first, and what was written since.
    pub written: Seq<u8>,
    /// What is known to be durable.
    pub durable: Seq<u8>,
    /// What the last flush was answered.
    pub answer: Option<StoreErrorView>,
}

/// A journal whose file holds something, once it is opened.
pub open spec fn opened_journal(held: Seq<u8>) -> JournalState {
    JournalState { failure: None, written: held, durable: held, answer: None }
}

/// A journal after an event, as the worker takes it: `receive` says what is done, `written` and
/// `flushed` what is held of it.
pub open spec fn after_event(path: Seq<char>, s: JournalState, e: JournalEvent) -> JournalState {
    match e {
        JournalEvent::Append { entries, outcome } => if s.failure is Some {
            s
        } else {
            JournalState {
                failure: failure_after_write(s.failure, batch_failure(entries), outcome),
                written: if outcome is Ok {
                    s.written + journal_bytes(entries, entries.len() as int)
                } else {
                    s.written
                },
                ..s
            }
        },
        JournalEvent::Flush { flush: outcome } => if s.failure is Some {
            JournalState { answer: s.failure, ..s }
        } else {
            JournalState {
                failure: flush_failure(path, outcome),
                durable: if flush_failure(path, outcome) is None {
                    s.written
                } else {
                    s.durable
                },
                answer: flush_failure(path, outcome),
                ..s
            }
        },
    }
}

/// A journal after events.
pub open spec fn after_events(path: Seq<char>, held: Seq<u8>, events: Seq<JournalEvent>)
    -> JournalState
    decreases events.len(),
{
    if events.len() == 0 {
        opened_journal(held)
    } else {
        after_event(path, after_events(path, held, events.drop_last()), events.last())
    }
}

/// The entries that were appended, in order.
pub open spec fn appended(events: Seq<JournalEvent>) -> Seq<Result<Vec<u8>, String>>
    decreases events.len(),
{
    if events.len() == 0 {
        Seq::empty()
    } else {
        appended(events.drop_last()) + match events.last() {
            JournalEvent::Append { entries, .. } => entries,
            JournalEvent::Flush { .. } => Seq::empty(),
        }
    }
}

proof fn lemma_failure_exists(entries: Seq<Result<Vec<u8>, String>>, i: int)
    requires
        0 <= i <= entries.len(),
        first_failure(entries, i) == entries.len(),
    ensures
        forall|k: int| i <= k < entries.len() ==> (#[trigger] entries[k]) is Ok,
    decreases entries.len() - i,
{
    if i < entries.len() {
        lemma_failure_is_later(entries, i + 1);
        if !(entries[i] is Err) {
            lemma_failure_exists(entries, i + 1);
        }
    }
}

proof fn lemma_written(path: Seq<char>, held: Seq<u8>, events: Seq<JournalEvent>)
    requires
        after_events(path, held, events).failure is None,
    ensures
        forall|i: int| 0 <= i < appended(events).len() ==> (#[trigger] appended(events)[i]) is Ok,
        after_events(path, held, events).written == held + journal_bytes(
            appended(events),
            appended(events).len() as int,
        ),
    decreases events.len(),
{
    if events.len() == 0 {
        assert(held + Seq::<u8>::empty() =~= held);
    } else {
        let before = events.drop_last();
        lemma_written(path, held, before);
        let done = appended(before);
        match events.last() {
            JournalEvent::Append { entries, outcome } => {
                lemma_failure_is_later(entries, 0);
                lemma_failure_exists(entries, 0);
                batches_keep_order(done, entries);
                assert(held + (journal_bytes(done, done.len() as int) + journal_bytes(
                    entries,
                    entries.len() as int,
                )) =~= held + journal_bytes(done, done.len() as int) + journal_bytes(
                    entries,
                    entries.len() as int,
                ));
            },
            JournalEvent::Flush { .. } => {
                assert(done + Seq::<Result<Vec<u8>, String>>::empty() =~= done);
            },
        }
    }
}

/// A flush that succeeds says that every entry appended before it is durable: the file holds what
/// it held when the journal was opened, and behind it a line for each entry, in order.
pub proof fn flushed_entries_are_durable(
    path: Seq<char>,
    held: Seq<u8>,
    events: Seq<JournalEvent>,
    outcome: FlushOutcome,
)
    requires
        after_events(path, held, events.push(JournalEvent::Flush { flush: outcome })).answer is None,
    ensures
        forall|i: int| 0 <= i < appended(events).len() ==> (#[trigger] appended(events)[i]) is Ok,
        after_events(path, held, events.push(JournalEvent::Flush { flush: outcome })).durable == held
            + journal_bytes(appended(events), appended(events).len() as int),
{
    let all = events.push(JournalEvent::Flush { flush: outcome });
    assert(all.drop_last() =~= events);
    lemma_written(path, held, events);
}

/// Once something failed, nothing more is written, and every later flush is answered with that
/// failure.
pub proof fn failures_stay(
    path: Seq<char>,
    held: Seq<u8>,
    events: Seq<JournalEvent>,
    more: Seq<JournalEvent>,
    outcome: FlushOutcome,
)
    requires
        after_events(path, held, events).failure is Some,
    ensures
        ({
            let s = after_events(path, held, events);
            let t = after_events(path, held, (events + more).push(JournalEvent::Flush { flush: outcome }));
            &&& t.answer == s.failure
            &&& t.failure == s.failure
            &&& t.written == s.written
            &&& t.durable == s.durable
        }),
{
    let all = (events + more).push(JournalEvent::Flush { flush: outcome });
    assert(all.drop_last() =~= events + more);
    lemma_failure_stays(path, held, events, more);
}

proof fn lemma_failure_stays(
    path: Seq<char>,
    held: Seq<u8>,
    events: Seq<JournalEvent>,
    more: Seq<JournalEvent>,
)
    requires
        after_events(path, held, events).failure is Some,
    ensures
        ({
            let s = after_events(path, held, events);
            let t = after_events(path, held, events + more);
            &&& t.failure == s.failure
            &&& t.written == s.written
            &&& t.durable == s.durable
        }),
    decreases more.len(),
{
    if more.len() == 0 {
        assert(events + more =~= events);
    } else {
        assert((events + more).drop_last() =~= events + more.drop_last());
        lemma_failure_stays(path, held, events, more.drop_last());
    }
}

proof fn lemma_first_failure(entries: Seq<Result<Vec<u8>, String>>, i: int)
    requires
        0 <= i <= entries.len(),
    ensures
        ({
            let k = first_failure(entries, i);
            &&& i <= k <= entries.len()
            &&& k < entries.len() ==> entries[k] is Err
            &&& forall|j: int| i <= j < k ==> (#[trigger] entries[j]) is Ok
        }),
    decreases entries.len() - i,
{
    if i < entries.len() && entries[i] is Ok {
        lemma_first_failure(entries, i + 1);
    }
}

/// Each entry before the first that cannot be serialised is written as a line of its own, behind
/// all that come before it; nothing is written of what follows.
pub proof fn entries_are_written_as_lines(entries: Seq<Result<Vec<u8>, String>>, n: int)
    requires
        0 < n <= entries.len(),
    ensures
        (forall|j: int| 0 <= j < n ==> (#[trigger] entries[j]) is Ok) ==> journal_bytes(entries, n)
            == journal_bytes(entries, n - 1) + entries[n - 1]->Ok_0@ + seq![10u8],
        !(forall|j: int| 0 <= j < n ==> (#[trigger] entries[j]) is Ok) ==> journal_bytes(entries, n)
            == journal_bytes(entries, n - 1),
        journal_bytes(entries, 0).len() == 0,
{
    lemma_first_failure(entries, 0);
    let k = first_failure(entries, 0);
    if forall|j: int| 0 <= j < n ==> (#[trigger] entries[j]) is Ok {
        assert(k >= n);
        let line = entries[n - 1]->Ok_0@;
        assert(journal_bytes(entries, n - 1) + line.push(10u8) =~= journal_bytes(entries, n - 1)
            + line + seq![10u8]);
    } else {
        let j = choose|j: int| 0 <= j < n && !((#[trigger] entries[j]) is Ok);
        assert(k <= j);
    }
}

/// A batch fails exactly if an entry of it cannot be serialised, and for the first such entry.
pub proof fn batches_fail_for_their_first_failure(entries: Seq<Result<Vec<u8>, String>>)
    ensures
        batch_failure(entries) is None <==> forall|j: int|
            0 <= j < entries.len() ==> (#[trigger] entries[j]) is Ok,
        batch_failure(entries) is Some ==> exists|k: int|
            0 <= k < entries.len() && (#[trigger] entries[k]) is Err && (forall|j: int|
                0 <= j < k ==> (#[trigger] entries[j]) is Ok) && batch_failure(entries) == Some(
                StoreErrorView::Internal(
                    "failed to serialize journal entry: "@ + entries[k]->Err_0@,
                ),
            ),
{
    lemma_first_failure(entries, 0);
    let k = first_failure(entries, 0);
    if k < entries.len() {
        assert(entries[k] is Err);
    }
}

/// A journal keeps the first failure that it meets: an earlier one, or else that of writing, or else
/// that of what was written.
pub proof fn the_first_failure_is_kept(
    failure: Option<StoreErrorView>,
    batch: Option<StoreErrorView>,
    outcome: Result<(), String>,
)
    ensures
        failure is Some ==> failure_after_write(failure, batch, outcome) == failure,
        failure is None && outcome is Ok ==> failure_after_write(failure, batch, outcome) == batch,
        failure is None && outcome is Err ==> failure_after_write(failure, batch, outcome) == Some(
            StoreErrorView::Internal(outcome->Err_0@),
        ),
{
}

} // verus!
