//! The state of a live session, as it is kept beside the session's record file: what
//! each event does to it, and how the file is replaced.

use vstd::prelude::*;

use crate::paths;
use crate::text;
use crate::thread_id::ThreadId;

verus! {

/// The version of the state file.
pub const SESSION_STATE_SCHEMA_VERSION: u32 = 2;

/// How long a running turn counts as live after it was last seen, in seconds.
pub const ROOT_TURN_LEASE_SECONDS: i64 = 900;

/// The terminal that a session is attached to.
#[derive(Debug)]
pub struct TerminalAttachment {
    pub provider: String,
    pub session_id: Option<String>,
    pub tty: Option<String>,
}

/// The persisted state of a session.
#[derive(Debug)]
pub struct SessionStateSidecar {
    pub schema_version: u32,
    pub updated_at: String,
    pub terminal: Option<TerminalAttachment>,
    pub root_turn: SessionStateRootTurn,
    pub background_exec: SessionStateBackgroundExec,
    pub owner_watchdogs: SessionStateOwnerWatchdogs,
    pub subagent: Option<SessionStateSubagent>,
}

/// What the session's own turn is doing.
#[derive(Debug)]
pub enum SessionStateRootTurn {
    Idle,
    Running { turn_id: String, started_at: String, updated_at: String, lease_expires_at: String },
    Completed { turn_id: String, started_at: String, completed_at: String },
    Aborted { turn_id: String, started_at: String, aborted_at: String },
}

/// The processes that a session keeps in the background.
#[derive(Debug)]
pub struct SessionStateBackgroundExec {
    pub processes: Vec<SessionStateBackgroundExecProcess>,
}

/// The watchdogs that a session owns.
#[derive(Clone, Copy, Debug)]
pub struct SessionStateOwnerWatchdogs {
    pub active_count: usize,
}

/// One background process.
#[derive(Debug)]
pub struct SessionStateBackgroundExecProcess {
    pub process_id: String,
    pub call_id: String,
    pub command: String,
    pub cwd: String,
    pub started_at: String,
    pub updated_at: String,
    pub tty: bool,
}

/// How a spawned session hangs on its parent.
#[derive(Debug)]
pub struct SessionStateSubagent {
    pub parent_thread_id: ThreadId,
    pub depth: i32,
    pub edge_status: SessionStateSubagentEdgeStatus,
    pub agent_path: Option<String>,
    pub agent_nickname: Option<String>,
    pub agent_role: Option<String>,
}

/// Whether the parent still waits for the spawned session.
#[derive(Clone, Copy, Debug, PartialEq, Eq, Structural)]
pub enum SessionStateSubagentEdgeStatus {
    Open,
    Closed,
}

/// Where a session comes from.
#[derive(Debug)]
pub enum SessionSource {
    Cli,
    VSCode,
    Exec,
    Mcp,
    Internal,
    Custom(String),
    SubAgent(SubAgentSource),
    Unknown,
}

/// Where a spawned session comes from.
#[derive(Debug)]
pub enum SubAgentSource {
    ThreadSpawn {
        parent_thread_id: ThreadId,
        depth: i32,
        agent_path: Option<String>,
        agent_nickname: Option<String>,
        agent_role: Option<String>,
    },
    Other,
}

// ---- times ----

/// The times that the calendar covers, in seconds since the Unix epoch.
pub open spec fn is_calendar_time(secs: int) -> bool {
    -8_334_601_228_800 <= secs <= 8_210_266_876_799
}

/// A time in RFC 3339 form, with whole seconds and `Z`, as `chrono` writes it.
pub uninterp spec fn rfc3339(secs: i64) -> Seq<char>;

/// Calls `chrono::DateTime::from_timestamp`, which succeeds for every calendar time, and
/// `to_rfc3339_opts`. Claims only that the text depends on the time alone.
#[verifier::external_body]
pub(crate) fn format_timestamp(secs: i64) -> (r: String)
    requires
        is_calendar_time(secs as int),
    ensures
        r@ == rfc3339(secs),
{
    match chrono::DateTime::from_timestamp(secs, 0) {
        Some(time) => time.to_rfc3339_opts(chrono::SecondsFormat::Secs, true),
        None => String::new(),
    }
}

/// When the lease of a turn ends that was last seen at `secs`.
pub fn root_turn_lease_expires_at(secs: i64) -> (r: i64)
    requires
        is_calendar_time(secs + ROOT_TURN_LEASE_SECONDS),
    ensures
        r == secs + ROOT_TURN_LEASE_SECONDS,
{
    secs + ROOT_TURN_LEASE_SECONDS
}

// ---- views ----

/// The view of a turn.
pub ghost enum TurnView {
    Idle,
    Running {
        turn_id: Seq<char>,
        started_at: Seq<char>,
        updated_at: Seq<char>,
        lease_expires_at: Seq<char>,
    },
    Completed { turn_id: Seq<char>, started_at: Seq<char>, completed_at: Seq<char> },
    Aborted { turn_id: Seq<char>, started_at: Seq<char>, aborted_at: Seq<char> },
}

impl View for SessionStateRootTurn {
    type V = TurnView;

    open spec fn view(&self) -> TurnView {
        match self {
            SessionStateRootTurn::Idle => TurnView::Idle,
            SessionStateRootTurn::Running { turn_id, started_at, updated_at, lease_expires_at } =>
            TurnView::Running {
                turn_id: turn_id@,
                started_at: started_at@,
                updated_at: updated_at@,
                lease_expires_at: lease_expires_at@,
            },
            SessionStateRootTurn::Completed { turn_id, started_at, completed_at } =>
            TurnView::Completed {
                turn_id: turn_id@,
                started_at: started_at@,
                completed_at: completed_at@,
            },
            SessionStateRootTurn::Aborted { turn_id, started_at, aborted_at } =>
            TurnView::Aborted {
                turn_id: turn_id@,
                started_at: started_at@,
                aborted_at: aborted_at@,
            },
        }
    }
}

/// When the turn `turn_id` started, if `turn` is that turn; otherwise `fallback`.
pub open spec fn turn_start(turn: TurnView, id: Seq<char>, fallback: Seq<char>) -> Seq<char> {
    match turn {
        TurnView::Running { turn_id, started_at, .. } if turn_id == id => started_at,
        TurnView::Completed { turn_id, started_at, .. } if turn_id == id => started_at,
        TurnView::Aborted { turn_id, started_at, .. } if turn_id == id => started_at,
        _ => fallback,
    }
}

/// Whether two states agree on everything but the time, the turn and the parent edge.
pub open spec fn same_rest(a: SessionStateSidecar, b: SessionStateSidecar) -> bool {
    &&& a.terminal == b.terminal
    &&& a.background_exec == b.background_exec
    &&& a.owner_watchdogs == b.owner_watchdogs
}

/// The parent edge after the session's turn has ended: closed.
pub open spec fn closed_edge(s: Option<SessionStateSubagent>) -> Option<SessionStateSubagent> {
    match s {
        Some(x) => Some(
            SessionStateSubagent { edge_status: SessionStateSubagentEdgeStatus::Closed, ..x },
        ),
        None => None,
    }
}

/// When the turn `turn_id` started.
pub fn root_turn_started_at(
    root_turn: &SessionStateRootTurn,
    turn_id: &str,
    fallback: &str,
) -> (r: String)
    ensures
        r@ == turn_start(root_turn@, turn_id@, fallback@),
{
    match root_turn {
        SessionStateRootTurn::Running { turn_id: current, started_at, .. } => {
            if text::same_str(current.as_str(), turn_id) {
                return started_at.clone();
            }
        },
        SessionStateRootTurn::Completed { turn_id: current, started_at, .. } => {
            if text::same_str(current.as_str(), turn_id) {
                return started_at.clone();
            }
        },
        SessionStateRootTurn::Aborted { turn_id: current, started_at, .. } => {
            if text::same_str(current.as_str(), turn_id) {
                return started_at.clone();
            }
        },
        SessionStateRootTurn::Idle => {},
    }
    fallback.to_owned()
}

// ---- sources ----

/// The sources that a user talks to directly.
pub open spec fn interactive(source: SessionSource) -> bool {
    source is Cli || source is VSCode
}

/// The sources whose state is kept beside the record.
pub open spec fn keeps_state(source: SessionSource) -> bool {
    interactive(source) || (source matches SessionSource::SubAgent(s) && s is ThreadSpawn)
}

/// Decides `interactive`.
pub fn is_interactive_source(source: &SessionSource) -> (r: bool)
    ensures
        r == interactive(*source),
{
    matches!(source, SessionSource::Cli | SessionSource::VSCode)
}

/// Decides `keeps_state`.
pub fn writes_session_state_sidecar_for_source(source: &SessionSource) -> (r: bool)
    ensures
        r == keeps_state(*source),
{
    match source {
        SessionSource::Cli => true,
        SessionSource::VSCode => true,
        SessionSource::SubAgent(SubAgentSource::ThreadSpawn { .. }) => true,
        _ => false,
    }
}

/// How a session of `source` hangs on its parent: with an open edge where it was spawned.
pub open spec fn spawned_edge(source: SessionSource) -> Option<SessionStateSubagent> {
    match source {
        SessionSource::SubAgent(
            SubAgentSource::ThreadSpawn {
                parent_thread_id,
                depth,
                agent_path,
                agent_nickname,
                agent_role,
            },
        ) => Some(
            SessionStateSubagent {
                parent_thread_id,
                depth,
                edge_status: SessionStateSubagentEdgeStatus::Open,
                agent_path,
                agent_nickname,
                agent_role,
            },
        ),
        _ => None,
    }
}

/// How a session of `source` hangs on its parent.
pub fn subagent_metadata(source: &SessionSource) -> (r: Option<SessionStateSubagent>)
    ensures
        r == spawned_edge(*source),
{
    match source {
        SessionSource::SubAgent(
            SubAgentSource::ThreadSpawn {
                parent_thread_id,
                depth,
                agent_path,
                agent_nickname,
                agent_role,
            },
        ) => Some(
            SessionStateSubagent {
                parent_thread_id: *parent_thread_id,
                depth: *depth,
                edge_status: SessionStateSubagentEdgeStatus::Open,
                agent_path: text::clone_option(agent_path),
                agent_nickname: text::clone_option(agent_nickname),
                agent_role: text::clone_option(agent_role),
            },
        ),
        _ => None,
    }
}

// ---- the state over time ----

/// Whether a state is that of a session that has done nothing yet.
pub open spec fn is_idle_state(
    s: SessionStateSidecar,
    terminal: Option<TerminalAttachment>,
    subagent: Option<SessionStateSubagent>,
    now: i64,
) -> bool {
    &&& s.schema_version == SESSION_STATE_SCHEMA_VERSION
    &&& s.updated_at@ == rfc3339(now)
    &&& s.terminal == terminal
    &&& s.root_turn@ == TurnView::Idle
    &&& s.background_exec.processes@.len() == 0
    &&& s.owner_watchdogs.active_count == 0
    &&& s.subagent == subagent
}

/// The state of a session that has done nothing yet.
pub fn build_idle_session_state_sidecar(
    terminal: Option<TerminalAttachment>,
    subagent: Option<SessionStateSubagent>,
    now: i64,
) -> (r: SessionStateSidecar)
    requires
        is_calendar_time(now as int),
    ensures
        is_idle_state(r, terminal, subagent, now),
{
    SessionStateSidecar {
        schema_version: SESSION_STATE_SCHEMA_VERSION,
        updated_at: format_timestamp(now),
        terminal,
        root_turn: SessionStateRootTurn::Idle,
        background_exec: SessionStateBackgroundExec { processes: Vec::new() },
        owner_watchdogs: SessionStateOwnerWatchdogs { active_count: 0 },
        subagent,
    }
}

/// The state of one session, and the record file that it belongs to. Without a record file
/// the state is kept in memory only.
#[derive(Debug)]
pub struct SessionStateTracker {
    pub rollout_path: Option<String>,
    pub sidecar: SessionStateSidecar,
}

impl SessionStateTracker {
    /// A tracker for a new session; it writes only for sources whose state is kept.
    pub fn new(
        rollout_path: Option<String>,
        session_source: &SessionSource,
        terminal: Option<TerminalAttachment>,
        now: i64,
    ) -> (r: Self)
        requires
            is_calendar_time(now as int),
        ensures
            r.rollout_path == if keeps_state(*session_source) {
                rollout_path
            } else {
                None
            },
            is_idle_state(r.sidecar, terminal, spawned_edge(*session_source), now),
    {
        let path = if writes_session_state_sidecar_for_source(session_source) {
            rollout_path
        } else {
            None
        };
        SessionStateTracker {
            rollout_path: path,
            sidecar: build_idle_session_state_sidecar(
                terminal,
                subagent_metadata(session_source),
                now,
            ),
        }
    }

    /// A tracker that never writes.
    pub fn disabled(now: i64) -> (r: Self)
        requires
            is_calendar_time(now as int),
        ensures
            r.rollout_path is None,
            is_idle_state(r.sidecar, None, None, now),
    {
        SessionStateTracker {
            rollout_path: None,
            sidecar: build_idle_session_state_sidecar(None, None, now),
        }
    }

    /// Where the current state is to be written, if anywhere.
    pub fn write_current(&self) -> (r: Option<String>)
        ensures
            text::option_view(r) == match self.rollout_path {
                Some(p) => Some(sidecar_path(p@)),
                None => None,
            },
    {
        match &self.rollout_path {
            Some(p) => Some(session_state_sidecar_path(p.as_str())),
            None => None,
        }
    }

    fn refresh(&mut self, now: i64, root_turn: SessionStateRootTurn)
        requires
            is_calendar_time(now as int),
        ensures
            final(self).rollout_path == old(self).rollout_path,
            final(self).sidecar.schema_version == SESSION_STATE_SCHEMA_VERSION,
            final(self).sidecar.updated_at@ == rfc3339(now),
            final(self).sidecar.root_turn == root_turn,
            final(self).sidecar.subagent == old(self).sidecar.subagent,
            same_rest(final(self).sidecar, old(self).sidecar),
    {
        self.sidecar.schema_version = SESSION_STATE_SCHEMA_VERSION;
        self.sidecar.updated_at = format_timestamp(now);
        self.sidecar.root_turn = root_turn;
    }

    fn close_subagent_edge(&mut self)
        ensures
            final(self).rollout_path == old(self).rollout_path,
            final(self).sidecar == (SessionStateSidecar {
                subagent: closed_edge(old(self).sidecar.subagent),
                ..old(self).sidecar
            }),
    {
        match self.sidecar.subagent.take() {
            Some(s) => {
                self.sidecar.subagent = Some(
                    SessionStateSubagent {
                        parent_thread_id: s.parent_thread_id,
                        depth: s.depth,
                        edge_status: SessionStateSubagentEdgeStatus::Closed,
                        agent_path: s.agent_path,
                        agent_nickname: s.agent_nickname,
                        agent_role: s.agent_role,
                    },
                );
            },
            None => {
                self.sidecar.subagent = None;
            },
        }
    }

    /// The turn `turn_id` started now. Returns whether the state is to be written.
    pub fn note_root_turn_started(&mut self, turn_id: &str, now: i64) -> (r: bool)
        requires
            is_calendar_time(now as int),
            is_calendar_time(now + ROOT_TURN_LEASE_SECONDS),
        ensures
            r == old(self).rollout_path is Some,
            final(self).rollout_path == old(self).rollout_path,
            final(self).sidecar.schema_version == SESSION_STATE_SCHEMA_VERSION,
            final(self).sidecar.updated_at@ == rfc3339(now),
            final(self).sidecar.root_turn@ == (TurnView::Running {
                turn_id: turn_id@,
                started_at: rfc3339(now),
                updated_at: rfc3339(now),
                lease_expires_at: rfc3339((now + ROOT_TURN_LEASE_SECONDS) as i64),
            }),
            final(self).sidecar.subagent == old(self).sidecar.subagent,
            same_rest(final(self).sidecar, old(self).sidecar),
    {
        let turn = SessionStateRootTurn::Running {
            turn_id: turn_id.to_owned(),
            started_at: format_timestamp(now),
            updated_at: format_timestamp(now),
            lease_expires_at: format_timestamp(root_turn_lease_expires_at(now)),
        };
        self.refresh(now, turn);
        self.rollout_path.is_some()
    }

    /// The turn `turn_id` was seen alive now: its lease is renewed if it is the running
    /// one. Returns whether the state is to be written.
    pub fn note_root_turn_observed(&mut self, turn_id: &str, now: i64) -> (r: bool)
        requires
            is_calendar_time(now as int),
            is_calendar_time(now + ROOT_TURN_LEASE_SECONDS),
        ensures
            r == old(self).rollout_path is Some,
            final(self).rollout_path == old(self).rollout_path,
            final(self).sidecar.schema_version == SESSION_STATE_SCHEMA_VERSION,
            final(self).sidecar.updated_at@ == rfc3339(now),
            final(self).sidecar.root_turn@ == match old(self).sidecar.root_turn@ {
                TurnView::Running { turn_id: id, started_at, .. } if id == turn_id@ =>
                TurnView::Running {
                    turn_id: id,
                    started_at,
                    updated_at: rfc3339(now),
                    lease_expires_at: rfc3339((now + ROOT_TURN_LEASE_SECONDS) as i64),
                },
                other => other,
            },
            final(self).sidecar.subagent == old(self).sidecar.subagent,
            same_rest(final(self).sidecar, old(self).sidecar),
    {
        let renewed = match &self.sidecar.root_turn {
            SessionStateRootTurn::Running { turn_id: current, started_at, .. } => {
                if text::same_str(current.as_str(), turn_id) {
                    Some(started_at.clone())
                } else {
                    None
                }
            },
            _ => None,
        };
        match renewed {
            Some(started_at) => {
                let turn = SessionStateRootTurn::Running {
                    turn_id: turn_id.to_owned(),
                    started_at,
                    updated_at: format_timestamp(now),
                    lease_expires_at: format_timestamp(root_turn_lease_expires_at(now)),
                };
                self.refresh(now, turn);
            },
            None => {
                self.sidecar.schema_version = SESSION_STATE_SCHEMA_VERSION;
                self.sidecar.updated_at = format_timestamp(now);
            },
        }
        self.rollout_path.is_some()
    }

    /// The turn `turn_id` completed now, which closes the edge to a parent. Returns whether
    /// the state is to be written.
    pub fn note_root_turn_completed(&mut self, turn_id: &str, now: i64) -> (r: bool)
        requires
            is_calendar_time(now as int),
        ensures
            r == old(self).rollout_path is Some,
            final(self).rollout_path == old(self).rollout_path,
            final(self).sidecar.schema_version == SESSION_STATE_SCHEMA_VERSION,
            final(self).sidecar.updated_at@ == rfc3339(now),
            final(self).sidecar.root_turn@ == (TurnView::Completed {
                turn_id: turn_id@,
                started_at: turn_start(old(self).sidecar.root_turn@, turn_id@, rfc3339(now)),
                completed_at: rfc3339(now),
            }),
            final(self).sidecar.subagent == closed_edge(old(self).sidecar.subagent),
            same_rest(final(self).sidecar, old(self).sidecar),
    {
        let timestamp = format_timestamp(now);
        let started_at = root_turn_started_at(
            &self.sidecar.root_turn,
            turn_id,
            timestamp.as_str(),
        );
        let turn = SessionStateRootTurn::Completed {
            turn_id: turn_id.to_owned(),
            started_at,
            completed_at: timestamp,
        };
        self.refresh(now, turn);
        self.close_subagent_edge();
        self.rollout_path.is_some()
    }

    /// The turn `turn_id` was aborted now, which closes the edge to a parent. Returns
    /// whether the state is to be written.
    pub fn note_root_turn_aborted(&mut self, turn_id: &str, now: i64) -> (r: bool)
        requires
            is_calendar_time(now as int),
        ensures
            r == old(self).rollout_path is Some,
            final(self).rollout_path == old(self).rollout_path,
            final(self).sidecar.schema_version == SESSION_STATE_SCHEMA_VERSION,
            final(self).sidecar.updated_at@ == rfc3339(now),
            final(self).sidecar.root_turn@ == (TurnView::Aborted {
                turn_id: turn_id@,
                started_at: turn_start(old(self).sidecar.root_turn@, turn_id@, rfc3339(now)),
                aborted_at: rfc3339(now),
            }),
            final(self).sidecar.subagent == closed_edge(old(self).sidecar.subagent),
            same_rest(final(self).sidecar, old(self).sidecar),
    {
        let timestamp = format_timestamp(now);
        let started_at = root_turn_started_at(
            &self.sidecar.root_turn,
            turn_id,
            timestamp.as_str(),
        );
        let turn = SessionStateRootTurn::Aborted {
            turn_id: turn_id.to_owned(),
            started_at,
            aborted_at: timestamp,
        };
        self.refresh(now, turn);
        self.close_subagent_edge();
        self.rollout_path.is_some()
    }

    /// Replaces the background processes. Returns whether the state is to be written.
    pub fn set_background_exec_processes(
        &mut self,
        processes: Vec<SessionStateBackgroundExecProcess>,
        now: i64,
    ) -> (r: bool)
        requires
            is_calendar_time(now as int),
        ensures
            r == old(self).rollout_path is Some,
            final(self).rollout_path == old(self).rollout_path,
            final(self).sidecar.updated_at@ == rfc3339(now),
            final(self).sidecar == (SessionStateSidecar {
                schema_version: SESSION_STATE_SCHEMA_VERSION,
                updated_at: final(self).sidecar.updated_at,
                background_exec: SessionStateBackgroundExec { processes },
                ..old(self).sidecar
            }),
    {
        self.sidecar.schema_version = SESSION_STATE_SCHEMA_VERSION;
        self.sidecar.updated_at = format_timestamp(now);
        self.sidecar.background_exec = SessionStateBackgroundExec { processes };
        self.rollout_path.is_some()
    }

    /// Replaces the number of watchdogs. Returns whether the state is to be written.
    pub fn set_owner_watchdog_count(&mut self, active_count: usize, now: i64) -> (r: bool)
        requires
            is_calendar_time(now as int),
        ensures
            r == old(self).rollout_path is Some,
            final(self).rollout_path == old(self).rollout_path,
            final(self).sidecar.updated_at@ == rfc3339(now),
            final(self).sidecar == (SessionStateSidecar {
                schema_version: SESSION_STATE_SCHEMA_VERSION,
                updated_at: final(self).sidecar.updated_at,
                owner_watchdogs: SessionStateOwnerWatchdogs { active_count },
                ..old(self).sidecar
            }),
    {
        self.sidecar.schema_version = SESSION_STATE_SCHEMA_VERSION;
        self.sidecar.updated_at = format_timestamp(now);
        self.sidecar.owner_watchdogs = SessionStateOwnerWatchdogs { active_count };
        self.rollout_path.is_some()
    }
}

/// A session whose turn has ended keeps no open edge to its parent, and the turn keeps the
/// time at which it started, however often its end is reported.
pub proof fn ended_turn_keeps_its_start(id: Seq<char>, start: Seq<char>, end: Seq<char>, now: Seq<char>)
    ensures
        turn_start(
            TurnView::Completed { turn_id: id, started_at: start, completed_at: end },
            id,
            now,
        ) == start,
        turn_start(
            TurnView::Aborted { turn_id: id, started_at: start, aborted_at: end },
            id,
            now,
        ) == start,
        forall|s: Option<SessionStateSubagent>|
            #![trigger closed_edge(s)]
            (closed_edge(s) matches Some(e) ==> e.edge_status
                == SessionStateSubagentEdgeStatus::Closed) && closed_edge(closed_edge(s))
                == closed_edge(s),
{
}

// ---- the file ----

/// The state file that belongs to a record file.
pub open spec fn sidecar_path(rollout: Seq<char>) -> Seq<char> {
    paths::replace_extension(rollout, "session-state.json"@)
}

/// The state file that belongs to a record file.
pub fn session_state_sidecar_path(rollout_path: &str) -> (r: String)
    ensures
        r@ == sidecar_path(rollout_path@),
{
    paths::with_extension(rollout_path, "session-state.json")
}

/// The state to write for an interactive session with a record file, and where.
pub fn refresh_interactive_session_state_sidecar(
    rollout_path: Option<&str>,
    session_source: &SessionSource,
    terminal: Option<TerminalAttachment>,
    now: i64,
) -> (r: Option<(String, SessionStateSidecar)>)
    requires
        is_calendar_time(now as int),
    ensures
        match r {
            Some((path, sidecar)) => interactive(*session_source) && (rollout_path matches Some(p)
                && path@ == sidecar_path(p@)) && is_idle_state(sidecar, terminal, None, now),
            None => rollout_path is None || !interactive(*session_source),
        },
{
    match rollout_path {
        None => None,
        Some(p) => {
            if !is_interactive_source(session_source) {
                return None;
            }
            Some(
                (
                    session_state_sidecar_path(p),
                    build_idle_session_state_sidecar(terminal, None, now),
                ),
            )
        },
    }
}

/// How a file operation ended.
#[derive(Clone, Copy, Debug, PartialEq, Eq, Structural)]
pub enum FileOutcome {
    Done,
    NotFound,
    Failed,
}

/// What went wrong while a state file was moved.
#[derive(Clone, Copy, Debug, PartialEq, Eq, Structural)]
pub enum MoveFailure {
    Directory,
    Rename,
    Lookup,
    RemoveTarget,
    RenameAgain,
}

/// What is to be done next to move a state file.
#[derive(Clone, Copy, Debug, PartialEq, Eq, Structural)]
pub enum MoveStep {
    CreateDirectory,
    Rename,
    /// Look whether the source is there.
    LookAtSource,
    /// Look whether the target is there.
    LookAtTarget,
    RemoveTarget,
    RenameAgain,
    Settled,
    Failed(MoveFailure),
}

/// The step after `step`, which ended with an outcome. A missing source is nothing to move. Where
/// a file cannot be renamed onto an existing one, the target is removed first.
pub open spec fn next_move(step: MoveStep, outcome: FileOutcome, removes_target: bool) -> MoveStep {
    let ok = outcome == FileOutcome::Done;
    match step {
        MoveStep::CreateDirectory => if ok {
            MoveStep::Rename
        } else {
            MoveStep::Failed(MoveFailure::Directory)
        },
        MoveStep::Rename => match outcome {
            FileOutcome::Done => MoveStep::Settled,
            FileOutcome::NotFound => MoveStep::LookAtSource,
            FileOutcome::Failed => if removes_target {
                MoveStep::LookAtTarget
            } else {
                MoveStep::Failed(MoveFailure::Rename)
            },
        },
        MoveStep::LookAtSource => match outcome {
            FileOutcome::Done => MoveStep::Failed(MoveFailure::Rename),
            FileOutcome::NotFound => MoveStep::Settled,
            FileOutcome::Failed => MoveStep::Failed(MoveFailure::Lookup),
        },
        MoveStep::LookAtTarget => if ok {
            MoveStep::RemoveTarget
        } else {
            MoveStep::Failed(MoveFailure::Rename)
        },
        MoveStep::RemoveTarget => if ok {
            MoveStep::RenameAgain
        } else {
            MoveStep::Failed(MoveFailure::RemoveTarget)
        },
        MoveStep::RenameAgain => if ok {
            MoveStep::Settled
        } else {
            MoveStep::Failed(MoveFailure::RenameAgain)
        },
        MoveStep::Settled => MoveStep::Settled,
        MoveStep::Failed(f) => MoveStep::Failed(f),
    }
}

/// How moving a state file goes on after a step; it begins with creating the directory.
pub fn move_session_state_sidecar_if_present(
    step: MoveStep,
    outcome: FileOutcome,
    removes_target: bool,
) -> (r: MoveStep)
    ensures
        r == next_move(step, outcome, removes_target),
{
    let ok = outcome == FileOutcome::Done;
    match step {
        MoveStep::CreateDirectory => if ok {
            MoveStep::Rename
        } else {
            MoveStep::Failed(MoveFailure::Directory)
        },
        MoveStep::Rename => match outcome {
            FileOutcome::Done => MoveStep::Settled,
            FileOutcome::NotFound => MoveStep::LookAtSource,
            FileOutcome::Failed => if removes_target {
                MoveStep::LookAtTarget
            } else {
                MoveStep::Failed(MoveFailure::Rename)
            },
        },
        MoveStep::LookAtSource => match outcome {
            FileOutcome::Done => MoveStep::Failed(MoveFailure::Rename),
            FileOutcome::NotFound => MoveStep::Settled,
            FileOutcome::Failed => MoveStep::Failed(MoveFailure::Lookup),
        },
        MoveStep::LookAtTarget => if ok {
            MoveStep::RemoveTarget
        } else {
            MoveStep::Failed(MoveFailure::Rename)
        },
        MoveStep::RemoveTarget => if ok {
            MoveStep::RenameAgain
        } else {
            MoveStep::Failed(MoveFailure::RemoveTarget)
        },
        MoveStep::RenameAgain => if ok {
            MoveStep::Settled
        } else {
            MoveStep::Failed(MoveFailure::RenameAgain)
        },
        MoveStep::Settled => MoveStep::Settled,
        MoveStep::Failed(f) => MoveStep::Failed(f),
    }
}

// ---- fixtures of the file format ----

/// Whether the session itself is still open.
#[derive(Debug)]
pub enum SessionStateSession {
    Open { lease_expires_at: String },
    Closed,
}

/// A canonical example of the state file: its name, and what is in it.
#[derive(Debug)]
pub struct ContractFixture {
    pub file_name: &'static str,
    pub session: SessionStateSession,
    pub sidecar: SessionStateSidecar,
}

fn completed_root_turn() -> (r: SessionStateRootTurn)
    ensures
        r@ == (TurnView::Completed {
            turn_id: "turn-1"@,
            started_at: "2026-04-07T17:58:00Z"@,
            completed_at: "2026-04-07T18:00:00Z"@,
        }),
{
    SessionStateRootTurn::Completed {
        turn_id: "turn-1".to_owned(),
        started_at: "2026-04-07T17:58:00Z".to_owned(),
        completed_at: "2026-04-07T18:00:00Z".to_owned(),
    }
}

fn completed_sidecar() -> (r: SessionStateSidecar)
    ensures
        is_completed_example(r),
{
    SessionStateSidecar {
        schema_version: SESSION_STATE_SCHEMA_VERSION,
        updated_at: "2026-04-07T18:00:00Z".to_owned(),
        terminal: None,
        root_turn: completed_root_turn(),
        background_exec: SessionStateBackgroundExec { processes: Vec::new() },
        owner_watchdogs: SessionStateOwnerWatchdogs { active_count: 0 },
        subagent: None,
    }
}

/// Whether a state is the example of a session with one completed turn.
pub open spec fn is_completed_example(s: SessionStateSidecar) -> bool {
    &&& s.schema_version == SESSION_STATE_SCHEMA_VERSION
    &&& s.updated_at@ == "2026-04-07T18:00:00Z"@
    &&& s.terminal is None
    &&& s.root_turn@ == (TurnView::Completed {
        turn_id: "turn-1"@,
        started_at: "2026-04-07T17:58:00Z"@,
        completed_at: "2026-04-07T18:00:00Z"@,
    })
    &&& s.background_exec.processes@.len() == 0
    &&& s.owner_watchdogs.active_count == 0
    &&& s.subagent is None
}

/// The canonical examples of the state file: one of an open and one of a closed session.
pub fn contract_fixtures() -> (r: Vec<ContractFixture>)
    ensures
        r@.len() == 2,
        r@[0].file_name@ == "session-state-v2-open-completed.json"@,
        r@[0].session matches SessionStateSession::Open { lease_expires_at } && lease_expires_at@
            == "2026-04-07T18:01:00Z"@,
        is_completed_example(r@[0].sidecar),
        r@[1].file_name@ == "session-state-v2-closed-completed.json"@,
        r@[1].session is Closed,
        is_completed_example(r@[1].sidecar),
{
    let mut r: Vec<ContractFixture> = Vec::new();
    r.push(
        ContractFixture {
            file_name: "session-state-v2-open-completed.json",
            session: SessionStateSession::Open {
                lease_expires_at: "2026-04-07T18:01:00Z".to_owned(),
            },
            sidecar: completed_sidecar(),
        },
    );
    r.push(
        ContractFixture {
            file_name: "session-state-v2-closed-completed.json",
            session: SessionStateSession::Closed,
            sidecar: completed_sidecar(),
        },
    );
    r
}

/// A turn that is known under an identifier began when it is known to have begun, whether it runs
/// or has ended; one under another identifier began now.
pub proof fn turns_begin_when_they_began(
    id: Seq<char>,
    other: Seq<char>,
    began: Seq<char>,
    a: Seq<char>,
    b: Seq<char>,
    now: Seq<char>,
)
    ensures
        ({
            let running = TurnView::Running {
                turn_id: id,
                started_at: began,
                updated_at: a,
                lease_expires_at: b,
            };
            let completed = TurnView::Completed { turn_id: id, started_at: began, completed_at: a };
            let aborted = TurnView::Aborted { turn_id: id, started_at: began, aborted_at: a };
            &&& turn_start(running, id, now) == began
            &&& turn_start(completed, id, now) == began
            &&& turn_start(aborted, id, now) == began
            &&& other != id ==> turn_start(running, other, now) == now && turn_start(
                completed,
                other,
                now,
            ) == now && turn_start(aborted, other, now) == now
            &&& turn_start(TurnView::Idle, id, now) == now
        }),
{
}

/// State is kept of what a person works in and of spawned agents, and of nothing else; an agent's
/// edge leads to the thread that spawned it, with the depth and the names it was spawned with, and
/// is open.
pub proof fn state_is_kept_of_people_and_spawned_agents(source: SessionSource)
    ensures
        source is Cli || source is VSCode ==> keeps_state(source) && spawned_edge(source) is None,
        source is Exec || source is Mcp || source is Internal || source is Custom || source
            is Unknown ==> !keeps_state(source) && spawned_edge(source) is None,
        source matches SessionSource::SubAgent(s) && s is Other ==> !keeps_state(source)
            && spawned_edge(source) is None,
        source matches SessionSource::SubAgent(
            SubAgentSource::ThreadSpawn {
                parent_thread_id,
                depth,
                agent_path,
                agent_nickname,
                agent_role,
            },
        ) ==> {
            &&& keeps_state(source)
            &&& spawned_edge(source) matches Some(edge)
            &&& edge.parent_thread_id == parent_thread_id
            &&& edge.depth == depth
            &&& edge.agent_path == agent_path
            &&& edge.agent_nickname == agent_nickname
            &&& edge.agent_role == agent_role
            &&& edge.edge_status is Open
        },
{
}

/// To close an edge changes nothing of it but that it is closed, and there is one after only if
/// there was one before.
pub proof fn closing_only_closes(edge: SessionStateSubagent)
    ensures
        closed_edge(None) is None,
        closed_edge(Some(edge)) matches Some(e) && e.edge_status is Closed && e.parent_thread_id
            == edge.parent_thread_id && e.depth == edge.depth && e.agent_path == edge.agent_path
            && e.agent_nickname == edge.agent_nickname && e.agent_role == edge.agent_role,
{
}

} // verus!
