//! The writers of live threads: which file each thread is written to, how a thread moves on
//! to a new segment, and how a thread is taken up again.

use std::collections::HashMap;

use vstd::prelude::*;

use crate::paths;
use crate::text;
use crate::thread_id;
use crate::thread_id::ThreadId;

verus! {

broadcast use vstd::std_specs::hash::group_hash_axioms;

/// Why the thread store refuses or fails.
#[derive(Debug)]
pub enum ThreadStoreError {
    InvalidRequest { message: String },
    Internal { message: String },
    Conflict { message: String },
    ThreadNotFound { thread_id: ThreadId },
}

/// An error of the thread store, by its text.
pub ghost enum StoreErrorView {
    InvalidRequest(Seq<char>),
    Internal(Seq<char>),
    Conflict(Seq<char>),
    ThreadNotFound(ThreadId),
}

impl View for ThreadStoreError {
    type V = StoreErrorView;

    open spec fn view(&self) -> StoreErrorView {
        match self {
            ThreadStoreError::InvalidRequest { message } => StoreErrorView::InvalidRequest(
                message@,
            ),
            ThreadStoreError::Internal { message } => StoreErrorView::Internal(message@),
            ThreadStoreError::Conflict { message } => StoreErrorView::Conflict(message@),
            ThreadStoreError::ThreadNotFound { thread_id } => StoreErrorView::ThreadNotFound(
                *thread_id,
            ),
        }
    }
}

impl ThreadStoreError {
    /// The same error again.
    pub fn duplicate(&self) -> (r: ThreadStoreError)
        ensures
            r@ == self@,
    {
        match self {
            ThreadStoreError::InvalidRequest { message } => ThreadStoreError::InvalidRequest {
                message: message.clone(),
            },
            ThreadStoreError::Internal { message } => ThreadStoreError::Internal {
                message: message.clone(),
            },
            ThreadStoreError::Conflict { message } => ThreadStoreError::Conflict {
                message: message.clone(),
            },
            ThreadStoreError::ThreadNotFound { thread_id } => ThreadStoreError::ThreadNotFound {
                thread_id: *thread_id,
            },
        }
    }
}

/// An internal error: `prefix` and what went wrong.
pub fn internal_error(prefix: &str, problem: &str) -> (r: ThreadStoreError)
    ensures
        r@ == StoreErrorView::Internal(prefix@ + problem@),
{
    let mut message = prefix.to_owned();
    message.push_str(problem);
    ThreadStoreError::Internal { message }
}

// ---- live writers ----

/// The file that each live thread is written to.
#[derive(Debug)]
pub struct LiveRecorders {
    recorders: HashMap<u128, String>,
}

/// What the refusal of a thread that is live already says.
pub open spec fn already_live(thread_id: ThreadId) -> Seq<char> {
    "thread "@ + thread_id::uuid_text(thread_id.value) + " already has a live local writer"@
}

impl LiveRecorders {
    /// The files by thread.
    pub closed spec fn files(&self) -> Map<u128, Seq<char>> {
        Map::new(|k: u128| self.recorders@.contains_key(k), |k: u128| self.recorders@[k]@)
    }

    /// No live thread.
    pub fn new() -> (r: Self)
        ensures
            r.files() == Map::<u128, Seq<char>>::empty(),
    {
        let r = LiveRecorders { recorders: HashMap::new() };
        assert(r.files() =~= Map::<u128, Seq<char>>::empty());
        r
    }

    /// The file that a thread is written to.
    pub fn rollout_path(&self, thread_id: ThreadId) -> (r: Result<String, ThreadStoreError>)
        ensures
            match r {
                Ok(path) => self.files().contains_key(thread_id.value)
                    && self.files()[thread_id.value] == path@,
                Err(e) => !self.files().contains_key(thread_id.value) && e@
                    == StoreErrorView::ThreadNotFound(thread_id),
            },
    {
        match self.recorders.get(&thread_id.value) {
            Some(path) => Ok(path.clone()),
            None => Err(ThreadStoreError::ThreadNotFound { thread_id }),
        }
    }

    /// Refuses a thread that is live already. The text of the refusal is a choice of this
    /// library.
    pub fn ensure_live_recorder_absent(&self, thread_id: ThreadId) -> (r: Result<
        (),
        ThreadStoreError,
    >)
        ensures
            match r {
                Ok(()) => !self.files().contains_key(thread_id.value),
                Err(e) => self.files().contains_key(thread_id.value) && e@
                    == StoreErrorView::InvalidRequest(already_live(thread_id)),
            },
    {
        if !self.recorders.contains_key(&thread_id.value) {
            return Ok(());
        }
        let mut message = "thread ".to_owned();
        message.push_str(thread_id.to_text().as_str());
        message.push_str(" already has a live local writer");
        Err(ThreadStoreError::InvalidRequest { message })
    }

    /// Makes a thread live, or moves it to another file.
    pub fn insert(&mut self, thread_id: ThreadId, path: String)
        ensures
            final(self).files() == old(self).files().insert(thread_id.value, path@),
    {
        let ghost before = self.files();
        self.recorders.insert(thread_id.value, path);
        assert(self.files() =~= before.insert(thread_id.value, path@));
    }

    /// Drops the writer of a thread.
    pub fn discard_thread(&mut self, thread_id: ThreadId) -> (r: Result<(), ThreadStoreError>)
        ensures
            final(self).files() == old(self).files().remove(thread_id.value),
            match r {
                Ok(()) => old(self).files().contains_key(thread_id.value),
                Err(e) => !old(self).files().contains_key(thread_id.value) && e@
                    == StoreErrorView::ThreadNotFound(thread_id),
            },
    {
        let ghost before = self.files();
        let removed = self.recorders.remove(&thread_id.value);
        assert(self.files() =~= before.remove(thread_id.value));
        match removed {
            Some(_) => Ok(()),
            None => Err(ThreadStoreError::ThreadNotFound { thread_id }),
        }
    }

    /// Drops the writer of a thread once it has been shut down; `shutdown` is how that went.
    pub fn shutdown_thread(&mut self, thread_id: ThreadId, shutdown: Result<(), String>) -> (r:
        Result<(), ThreadStoreError>)
        ensures
            match r {
                Ok(()) => old(self).files().contains_key(thread_id.value) && shutdown is Ok
                    && final(self).files() == old(self).files().remove(thread_id.value),
                Err(e) => final(self).files() == old(self).files() && if old(self).files().contains_key(thread_id.value) {
                    shutdown matches Err(problem) && e@ == StoreErrorView::Internal(problem@)
                } else {
                    e@ == StoreErrorView::ThreadNotFound(thread_id)
                },
            },
    {
        if !self.recorders.contains_key(&thread_id.value) {
            return Err(ThreadStoreError::ThreadNotFound { thread_id });
        }
        match shutdown {
            Err(problem) => Err(ThreadStoreError::Internal { message: problem }),
            Ok(()) => self.discard_thread(thread_id),
        }
    }
}

// ---- what a recorder is opened with ----

/// Where the store keeps its files.
#[derive(Debug)]
pub struct StoreConfig {
    pub codex_home: String,
    pub sqlite_home: String,
}

/// What a caller says of a thread.
#[derive(Debug)]
pub struct ThreadMetadata {
    pub cwd: Option<String>,
    pub model_provider: String,
    pub memory_enabled: bool,
}

/// What a recorder is opened with.
#[derive(Debug)]
pub struct RolloutConfig {
    pub codex_home: String,
    pub sqlite_home: String,
    pub cwd: String,
    pub model_provider_id: String,
    pub generate_memories: bool,
}

/// Whether a recorder's configuration is the store's, with what a caller says of the thread.
pub open spec fn configured(
    c: RolloutConfig,
    store: StoreConfig,
    metadata: ThreadMetadata,
) -> bool {
    &&& c.codex_home@ == store.codex_home@
    &&& c.sqlite_home@ == store.sqlite_home@
    &&& text::option_view(metadata.cwd) == Some(c.cwd@)
    &&& c.model_provider_id@ == metadata.model_provider@
    &&& c.generate_memories == metadata.memory_enabled
}

/// What a recorder is opened with; a thread without a working directory is refused.
pub fn rollout_config(store: &StoreConfig, metadata: &ThreadMetadata) -> (r: Result<
    RolloutConfig,
    ThreadStoreError,
>)
    ensures
        match r {
            Ok(c) => configured(c, *store, *metadata),
            Err(e) => metadata.cwd is None && e@ == StoreErrorView::InvalidRequest(
                "local thread store requires a cwd"@,
            ),
        },
{
    match &metadata.cwd {
        None => Err(
            ThreadStoreError::InvalidRequest {
                message: "local thread store requires a cwd".to_owned(),
            },
        ),
        Some(cwd) => Ok(
            RolloutConfig {
                codex_home: store.codex_home.clone(),
                sqlite_home: store.sqlite_home.clone(),
                cwd: cwd.clone(),
                model_provider_id: metadata.model_provider.clone(),
                generate_memories: metadata.memory_enabled,
            },
        ),
    }
}

// ---- moving on to a new segment ----

/// An item of a thread's file.
#[derive(Debug)]
pub enum RolloutItem {
    /// The file goes on from another one.
    Reference {
        rollout_path: String,
        thread_id: ThreadId,
        segment_id: Option<String>,
        max_depth: Option<u64>,
    },
    /// Any other item, serialised.
    Entry(String),
}

/// What the first line of a thread's file says.
#[derive(Debug)]
pub struct SegmentMeta {
    pub id: ThreadId,
    pub segment_id: Option<String>,
    pub forked_from_id: Option<ThreadId>,
}

/// How far a move to a new segment has come: what is to be done next.
#[derive(Clone, Copy, Debug, PartialEq, Eq, Structural)]
pub enum RotationStage {
    FlushOld,
    ReadMeta,
    OpenNew,
    RecordItems,
    FlushNew,
    CloseOld,
    Replace,
    Done,
}

/// A move of a thread to a new segment.
#[derive(Debug)]
pub struct SegmentRotation {
    pub thread_id: ThreadId,
    pub old_path: String,
    pub new_path: Option<String>,
    pub stage: RotationStage,
}

/// What the new segment is opened with, and what it starts with.
#[derive(Debug)]
pub struct NewSegment {
    pub config: RolloutConfig,
    pub forked_from_id: Option<ThreadId>,
    pub initial_items: Vec<RolloutItem>,
}

/// The text of a thread that is written to another thread's file.
pub open spec fn foreign_file(path: Seq<char>, owner: ThreadId, thread: ThreadId) -> Seq<char> {
    "live rollout "@ + path + " belongs to thread "@ + thread_id::uuid_text(owner.value)
        + " instead of "@ + thread_id::uuid_text(thread.value)
}

impl SegmentRotation {
    /// Whether the new segment is known exactly from its opening on.
    pub open spec fn inv(&self) -> bool {
        self.new_path is Some <==> !(self.stage == RotationStage::FlushOld || self.stage
            == RotationStage::ReadMeta || self.stage == RotationStage::OpenNew)
    }

    /// Starts to move a thread on. Its file is flushed first.
    pub fn begin(live: &LiveRecorders, thread_id: ThreadId) -> (r: Result<Self, ThreadStoreError>)
        ensures
            match r {
                Ok(s) => s.inv() && s.stage == RotationStage::FlushOld && s.thread_id == thread_id
                    && live.files().contains_key(thread_id.value)
                    && live.files()[thread_id.value] == s.old_path@,
                Err(e) => !live.files().contains_key(thread_id.value) && e@
                    == StoreErrorView::ThreadNotFound(thread_id),
            },
    {
        match live.rollout_path(thread_id) {
            Ok(old_path) => Ok(
                SegmentRotation {
                    thread_id,
                    old_path,
                    new_path: None,
                    stage: RotationStage::FlushOld,
                },
            ),
            Err(e) => Err(e),
        }
    }

    /// The old file was flushed, or not. Its first line is read next.
    pub fn old_flushed(&mut self, outcome: Result<(), String>) -> (r: Result<(), ThreadStoreError>)
        requires
            old(self).inv(),
            old(self).stage == RotationStage::FlushOld,
        ensures
            final(self).inv(),
            final(self).thread_id == old(self).thread_id,
            final(self).old_path == old(self).old_path,
            final(self).new_path == old(self).new_path,
            match outcome {
                Ok(()) => r is Ok && final(self).stage == RotationStage::ReadMeta,
                Err(problem) => r is Err && r->Err_0@ == StoreErrorView::Internal(problem@)
                    && final(self).stage == RotationStage::FlushOld,
            },
    {
        match outcome {
            Ok(()) => {
                self.stage = RotationStage::ReadMeta;
                Ok(())
            },
            Err(problem) => Err(ThreadStoreError::Internal { message: problem }),
        }
    }

    /// The first line of the old file was read, or not. It must be that of the thread. The new
    /// segment starts with a reference to the old one.
    pub fn meta_read(
        &mut self,
        outcome: Result<SegmentMeta, String>,
        store: &StoreConfig,
        metadata: &ThreadMetadata,
        previous_segment_reference_depth: Option<u64>,
        initial_items: Vec<RolloutItem>,
    ) -> (r: Result<NewSegment, ThreadStoreError>)
        requires
            old(self).inv(),
            old(self).stage == RotationStage::ReadMeta,
        ensures
            final(self).inv(),
            final(self).thread_id == old(self).thread_id,
            final(self).old_path == old(self).old_path,
            final(self).new_path == old(self).new_path,
            final(self).stage == if r is Ok {
                RotationStage::OpenNew
            } else {
                RotationStage::ReadMeta
            },
            match outcome {
                Err(problem) => r is Err && r->Err_0@ == StoreErrorView::Internal(
                    "failed to read current rollout metadata from "@ + old(self).old_path@ + ": "@
                        + problem@,
                ),
                Ok(meta) => if meta.id != old(self).thread_id {
                    r is Err && r->Err_0@ == StoreErrorView::Internal(
                        foreign_file(old(self).old_path@, meta.id, old(self).thread_id),
                    )
                } else if metadata.cwd is None {
                    r is Err && r->Err_0@ == StoreErrorView::InvalidRequest(
                        "local thread store requires a cwd"@,
                    )
                } else {
                    r matches Ok(segment) && configured(segment.config, *store, *metadata)
                        && segment.forked_from_id == meta.forked_from_id
                        && segment.initial_items@.len() == initial_items@.len() + 1
                        && segment.initial_items@.skip(1) == initial_items@
                        && segment.initial_items@[0] == (RolloutItem::Reference {
                        rollout_path: segment.initial_items@[0]->rollout_path,
                        thread_id: old(self).thread_id,
                        segment_id: meta.segment_id,
                        max_depth: previous_segment_reference_depth,
                    }) && segment.initial_items@[0]->rollout_path@ == old(self).old_path@
                },
            },
    {
        let meta = match outcome {
            Ok(meta) => meta,
            Err(problem) => {
                let mut message = "failed to read current rollout metadata from ".to_owned();
                message.push_str(self.old_path.as_str());
                message.push_str(": ");
                message.push_str(problem.as_str());
                return Err(ThreadStoreError::Internal { message });
            },
        };
        if meta.id != self.thread_id {
            let mut message = "live rollout ".to_owned();
            message.push_str(self.old_path.as_str());
            message.push_str(" belongs to thread ");
            message.push_str(meta.id.to_text().as_str());
            message.push_str(" instead of ");
            message.push_str(self.thread_id.to_text().as_str());
            return Err(ThreadStoreError::Internal { message });
        }
        let config = match rollout_config(store, metadata) {
            Ok(config) => config,
            Err(e) => {
                return Err(e);
            },
        };
        let mut items: Vec<RolloutItem> = Vec::new();
        items.push(
            RolloutItem::Reference {
                rollout_path: self.old_path.clone(),
                thread_id: self.thread_id,
                segment_id: meta.segment_id,
                max_depth: previous_segment_reference_depth,
            },
        );
        let mut rest = initial_items;
        items.append(&mut rest);
        assert(items@.skip(1) =~= initial_items@);
        self.stage = RotationStage::OpenNew;
        Ok(NewSegment { config, forked_from_id: meta.forked_from_id, initial_items: items })
    }

    /// The new segment was opened at a path, or not. Its first items are recorded next.
    pub fn opened(&mut self, outcome: Result<String, String>) -> (r: Result<(), ThreadStoreError>)
        requires
            old(self).inv(),
            old(self).stage == RotationStage::OpenNew,
        ensures
            final(self).inv(),
            final(self).thread_id == old(self).thread_id,
            final(self).old_path == old(self).old_path,
            match outcome {
                Ok(path) => r is Ok && final(self).stage == RotationStage::RecordItems && final(self).new_path == Some(path),
                Err(problem) => r is Err && r->Err_0@ == StoreErrorView::Internal(
                    "failed to initialize rotated local thread recorder: "@ + problem@,
                ) && *final(self) == *old(self),
            },
    {
        match outcome {
            Ok(path) => {
                self.new_path = Some(path);
                self.stage = RotationStage::RecordItems;
                Ok(())
            },
            Err(problem) => Err(
                internal_error(
                    "failed to initialize rotated local thread recorder: ",
                    problem.as_str(),
                ),
            ),
        }
    }

    /// The first items of the new segment were recorded, or it was flushed, or not.
    pub fn new_written(&mut self, outcome: Result<(), String>) -> (r: Result<(), ThreadStoreError>)
        requires
            old(self).inv(),
            old(self).stage == RotationStage::RecordItems || old(self).stage
                == RotationStage::FlushNew,
        ensures
            final(self).inv(),
            final(self).thread_id == old(self).thread_id,
            final(self).old_path == old(self).old_path,
            final(self).new_path == old(self).new_path,
            match outcome {
                Ok(()) => r is Ok && final(self).stage == if old(self).stage
                    == RotationStage::RecordItems {
                    RotationStage::FlushNew
                } else {
                    RotationStage::CloseOld
                },
                Err(problem) => r is Err && r->Err_0@ == StoreErrorView::Internal(problem@)
                    && final(self).stage == old(self).stage,
            },
    {
        match outcome {
            Ok(()) => {
                self.stage = if self.stage == RotationStage::RecordItems {
                    RotationStage::FlushNew
                } else {
                    RotationStage::CloseOld
                };
                Ok(())
            },
            Err(problem) => Err(ThreadStoreError::Internal { message: problem }),
        }
    }

    /// The old file was closed, or not, which is only worth a warning.
    pub fn old_closed(&mut self, outcome: Result<(), String>) -> (r: Option<String>)
        requires
            old(self).inv(),
            old(self).stage == RotationStage::CloseOld,
        ensures
            final(self).inv(),
            final(self).thread_id == old(self).thread_id,
            final(self).old_path == old(self).old_path,
            final(self).new_path == old(self).new_path,
            final(self).stage == RotationStage::Replace,
            text::option_view(r) == match outcome {
                Ok(()) => None,
                Err(problem) => Some(
                    "failed to close previous rollout segment "@ + old(self).old_path@
                        + " for thread "@ + thread_id::uuid_text(old(self).thread_id.value) + ": "@
                        + problem@,
                ),
            },
    {
        self.stage = RotationStage::Replace;
        match outcome {
            Ok(()) => None,
            Err(problem) => {
                let mut message = "failed to close previous rollout segment ".to_owned();
                message.push_str(self.old_path.as_str());
                message.push_str(" for thread ");
                message.push_str(self.thread_id.to_text().as_str());
                message.push_str(": ");
                message.push_str(problem.as_str());
                Some(message)
            },
        }
    }

    /// Makes the thread live on its new segment, unless its writer was taken away or moved in
    /// the meantime.
    pub fn replace(&mut self, live: &mut LiveRecorders) -> (r: Result<(), ThreadStoreError>)
        requires
            old(self).inv(),
            old(self).stage == RotationStage::Replace,
        ensures
            final(self).inv(),
            final(self).thread_id == old(self).thread_id,
            final(self).old_path == old(self).old_path,
            final(self).new_path == old(self).new_path,
            ({
                let id = old(self).thread_id;
                let files = old(live).files();
                match r {
                    Ok(()) => {
                        &&& final(self).stage == RotationStage::Done
                        &&& files.contains_key(id.value)
                        &&& paths::same_path(files[id.value], old(self).old_path@)
                        &&& final(live).files() == files.insert(id.value, old(self).new_path->0@)
                    },
                    Err(e) => {
                        &&& final(self).stage == RotationStage::Replace
                        &&& final(live).files() == files
                        &&& if !files.contains_key(id.value) {
                            e@ == StoreErrorView::ThreadNotFound(id)
                        } else {
                            !paths::same_path(files[id.value], old(self).old_path@) && e@
                                == StoreErrorView::Conflict(
                                "live writer for thread "@ + thread_id::uuid_text(id.value)
                                    + " changed during segment rotation"@,
                            )
                        }
                    },
                }
            }),
    {
        let current = match live.rollout_path(self.thread_id) {
            Ok(path) => path,
            Err(e) => {
                return Err(e);
            },
        };
        if !paths::is_same_path(current.as_str(), self.old_path.as_str()) {
            let mut message = "live writer for thread ".to_owned();
            message.push_str(self.thread_id.to_text().as_str());
            message.push_str(" changed during segment rotation");
            return Err(ThreadStoreError::Conflict { message });
        }
        match &self.new_path {
            Some(path) => {
                live.insert(self.thread_id, path.clone());
            },
            None => {},
        }
        self.stage = RotationStage::Done;
        Ok(())
    }
}

// ---- taking a thread up again ----

/// What a caller asks of a thread to be taken up again.
#[derive(Debug)]
pub struct ResumeThreadParams {
    pub thread_id: ThreadId,
    pub rollout_path: Option<String>,
    pub history: Option<Vec<String>>,
    pub include_archived: bool,
    pub metadata: ThreadMetadata,
}

/// What the store has to be asked for.
#[derive(Clone, Copy, Debug, PartialEq, Eq, Structural)]
pub struct ReadThreadParams {
    pub thread_id: ThreadId,
    pub include_archived: bool,
    pub include_history: bool,
}

/// What the store knows of a thread.
#[derive(Debug)]
pub struct StoredThread {
    pub rollout_path: Option<String>,
    pub history: Option<Vec<String>>,
}

/// What a thread is taken up again with.
#[derive(Debug)]
pub struct ResumePlan {
    pub rollout_path: String,
    pub history: Option<Vec<String>>,
    pub config: RolloutConfig,
}

/// What has to be read before a thread can be taken up again: nothing where its file is
/// known, and otherwise the thread, with its history where that is not known. A thread that is
/// live already is refused.
pub fn resume_read(live: &LiveRecorders, params: &ResumeThreadParams) -> (r: Result<
    Option<ReadThreadParams>,
    ThreadStoreError,
>)
    ensures
        match r {
            Ok(read) => !live.files().contains_key(params.thread_id.value) && read
                == if params.rollout_path is Some {
                None
            } else {
                Some(
                    ReadThreadParams {
                        thread_id: params.thread_id,
                        include_archived: params.include_archived,
                        include_history: params.history is None,
                    },
                )
            },
            Err(e) => live.files().contains_key(params.thread_id.value) && e@
                == StoreErrorView::InvalidRequest(already_live(params.thread_id)),
        },
{
    match live.ensure_live_recorder_absent(params.thread_id) {
        Ok(()) => {},
        Err(e) => {
            return Err(e);
        },
    }
    match &params.rollout_path {
        Some(_) => Ok(None),
        None => Ok(
            Some(
                ReadThreadParams {
                    thread_id: params.thread_id,
                    include_archived: params.include_archived,
                    include_history: params.history.is_none(),
                },
            ),
        ),
    }
}

/// The plan to take a thread up again. `stored` is what was read, where something had to be.
pub fn resume_thread(
    store: &StoreConfig,
    params: ResumeThreadParams,
    stored: Option<StoredThread>,
) -> (r: Result<ResumePlan, ThreadStoreError>)
    requires
        params.rollout_path is None ==> stored is Some,
    ensures
        ({
            let path = if params.rollout_path is Some {
                params.rollout_path
            } else {
                stored->0.rollout_path
            };
            let history = if params.history is Some || params.rollout_path is Some {
                params.history
            } else {
                stored->0.history
            };
            match r {
                Ok(plan) => path == Some(plan.rollout_path) && plan.history == history
                    && configured(plan.config, *store, params.metadata),
                Err(e) => if path is None {
                    e@ == StoreErrorView::Internal(
                        "thread "@ + thread_id::uuid_text(params.thread_id.value)
                            + " does not have a rollout path"@,
                    )
                } else {
                    params.metadata.cwd is None && e@ == StoreErrorView::InvalidRequest(
                        "local thread store requires a cwd"@,
                    )
                },
            }
        }),
        r is Ok <==> params.metadata.cwd is Some && (params.rollout_path is Some
            || stored->0.rollout_path is Some),
{
    let (rollout_path, history) = match (params.rollout_path, params.history) {
        (Some(path), history) => (path, history),
        (None, history) => match stored {
            Some(thread) => match thread.rollout_path {
                Some(path) => (
                    path,
                    if history.is_some() {
                        history
                    } else {
                        thread.history
                    },
                ),
                None => {
                    let mut message = "thread ".to_owned();
                    message.push_str(params.thread_id.to_text().as_str());
                    message.push_str(" does not have a rollout path");
                    return Err(ThreadStoreError::Internal { message });
                },
            },
            None => {
                return Err(ThreadStoreError::ThreadNotFound { thread_id: params.thread_id });
            },
        },
    };
    match rollout_config(store, &params.metadata) {
        Ok(config) => Ok(ResumePlan { rollout_path, history, config }),
        Err(e) => Err(e),
    }
}

/// What a thread's recorder that could not be opened is reported as.
pub fn resume_failure(problem: &str) -> (r: ThreadStoreError)
    ensures
        r@ == StoreErrorView::Internal("failed to resume local thread recorder: "@ + problem@),
{
    internal_error("failed to resume local thread recorder: ", problem)
}

/// A thread is recorded where the store keeps its files, for the directory and the provider of the
/// thread, and remembers only what the thread may.
pub proof fn threads_are_recorded_as_configured(
    c: RolloutConfig,
    store: StoreConfig,
    metadata: ThreadMetadata,
)
    requires
        configured(c, store, metadata),
    ensures
        c.codex_home@ == store.codex_home@,
        c.sqlite_home@ == store.sqlite_home@,
        metadata.cwd is Some && c.cwd@ == metadata.cwd->0@,
        c.model_provider_id@ == metadata.model_provider@,
        c.generate_memories == metadata.memory_enabled,
{
}

} // verus!
