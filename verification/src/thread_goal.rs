//! The goal of a thread: what it works toward, how far it may go, and where it stands.

use vstd::prelude::*;

use crate::session_state;
use crate::spans;
use crate::spans::Span;
use crate::spans::Tone;
use crate::text;
use crate::thread_id;
use crate::thread_id::ThreadId;

verus! {

// ---- status ----

/// Where a goal stands.
#[derive(Clone, Copy, Debug, PartialEq, Eq, Structural)]
pub enum ThreadGoalStatus {
    Active,
    Paused,
    BudgetLimited,
    Complete,
}

/// The name that a status is stored under.
pub open spec fn status_name(status: ThreadGoalStatus) -> Seq<char> {
    match status {
        ThreadGoalStatus::Active => "active"@,
        ThreadGoalStatus::Paused => "paused"@,
        ThreadGoalStatus::BudgetLimited => "budget_limited"@,
        ThreadGoalStatus::Complete => "complete"@,
    }
}

/// The status that is stored under a name.
pub open spec fn named_status(name: Seq<char>) -> Option<ThreadGoalStatus> {
    if name == "active"@ {
        Some(ThreadGoalStatus::Active)
    } else if name == "paused"@ {
        Some(ThreadGoalStatus::Paused)
    } else if name == "budget_limited"@ {
        Some(ThreadGoalStatus::BudgetLimited)
    } else if name == "complete"@ {
        Some(ThreadGoalStatus::Complete)
    } else {
        None
    }
}

impl ThreadGoalStatus {
    /// The name that the status is stored under.
    pub fn as_str(self) -> (r: &'static str)
        ensures
            r@ == status_name(self),
    {
        match self {
            ThreadGoalStatus::Active => "active",
            ThreadGoalStatus::Paused => "paused",
            ThreadGoalStatus::BudgetLimited => "budget_limited",
            ThreadGoalStatus::Complete => "complete",
        }
    }

    /// Whether the goal is worked on.
    pub fn is_active(self) -> (r: bool)
        ensures
            r == (self == ThreadGoalStatus::Active),
    {
        self == ThreadGoalStatus::Active
    }

    /// Whether the goal is no longer worked on.
    pub fn is_terminal(self) -> (r: bool)
        ensures
            r == (self == ThreadGoalStatus::BudgetLimited || self == ThreadGoalStatus::Complete),
    {
        match self {
            ThreadGoalStatus::BudgetLimited => true,
            ThreadGoalStatus::Complete => true,
            _ => false,
        }
    }

    /// The status that is stored under a name.
    pub fn from_name(value: &str) -> (r: Result<ThreadGoalStatus, ThreadGoalError>)
        ensures
            match r {
                Ok(status) => named_status(value@) == Some(status),
                Err(e) => named_status(value@) is None && (e matches ThreadGoalError::UnknownStatus(
                    name,
                ) && name@ == value@),
            },
    {
        if text::same_str(value, "active") {
            Ok(ThreadGoalStatus::Active)
        } else if text::same_str(value, "paused") {
            Ok(ThreadGoalStatus::Paused)
        } else if text::same_str(value, "budget_limited") {
            Ok(ThreadGoalStatus::BudgetLimited)
        } else if text::same_str(value, "complete") {
            Ok(ThreadGoalStatus::Complete)
        } else {
            Err(ThreadGoalError::UnknownStatus(value.to_owned()))
        }
    }
}

/// A status that is stored is read back.
pub proof fn statuses_are_read_back(status: ThreadGoalStatus)
    ensures
        named_status(status_name(status)) == Some(status),
{
    reveal_strlit("active");
    reveal_strlit("paused");
    reveal_strlit("budget_limited");
    reveal_strlit("complete");
    assert("active"@[0] == 'a');
    assert("paused"@[0] == 'p');
    assert("budget_limited"@[0] == 'b');
    assert("complete"@[0] == 'c');
}

// ---- stored goals ----

/// Why a stored goal cannot be read.
#[derive(Debug)]
pub enum ThreadGoalError {
    UnknownStatus(String),
    MissingTokenBudget,
    MissingLimitId,
    MissingPercent,
    MissingBaseline,
    UnknownBudgetKind(String),
    InvalidThreadId(String),
    InvalidTime(i64),
}

impl ThreadGoalError {
    /// What the error reads like.
    pub fn message(&self) -> (r: String)
        ensures
            r@ == match self {
                ThreadGoalError::UnknownStatus(s) => "unknown thread goal status `"@ + s@ + "`"@,
                ThreadGoalError::MissingTokenBudget => "token goal budget missing token_budget"@,
                ThreadGoalError::MissingLimitId => "5h goal budget missing budget_limit_id"@,
                ThreadGoalError::MissingPercent => "5h goal budget missing budget_percent"@,
                ThreadGoalError::MissingBaseline =>
                "5h goal budget missing budget_baseline_used_percent"@,
                ThreadGoalError::UnknownBudgetKind(s) => "unknown thread goal budget kind `"@ + s@
                    + "`"@,
                ThreadGoalError::InvalidThreadId(s) => "invalid thread id `"@ + s@ + "`"@,
                ThreadGoalError::InvalidTime(ms) => "invalid time in milliseconds: "@
                    + text::decimal_int(*ms as int),
            },
    {
        match self {
            ThreadGoalError::UnknownStatus(s) => quoted("unknown thread goal status `", s.as_str()),
            ThreadGoalError::MissingTokenBudget =>
            "token goal budget missing token_budget".to_owned(),
            ThreadGoalError::MissingLimitId => "5h goal budget missing budget_limit_id".to_owned(),
            ThreadGoalError::MissingPercent => "5h goal budget missing budget_percent".to_owned(),
            ThreadGoalError::MissingBaseline =>
            "5h goal budget missing budget_baseline_used_percent".to_owned(),
            ThreadGoalError::UnknownBudgetKind(s) => quoted(
                "unknown thread goal budget kind `",
                s.as_str(),
            ),
            ThreadGoalError::InvalidThreadId(s) => quoted("invalid thread id `", s.as_str()),
            ThreadGoalError::InvalidTime(ms) => {
                let mut m = "invalid time in milliseconds: ".to_owned();
                m.push_str(text::decimal_i64(*ms).as_str());
                m
            },
        }
    }
}

fn quoted(prefix: &str, s: &str) -> (r: String)
    ensures
        r@ == prefix@ + s@ + "`"@,
{
    let mut m = prefix.to_owned();
    m.push_str(s);
    m.push_str("`");
    m
}

/// How far a goal may go: a number of tokens, or a share of the five-hour limit. The shares
/// are floating-point numbers, kept by their bits.
#[derive(Debug)]
pub enum ThreadGoalBudget {
    Tokens { token_budget: i64 },
    FiveHourLimitPercent {
        limit_id: String,
        percent_bits: u64,
        baseline_used_percent_bits: u64,
        baseline_resets_at: Option<i64>,
        latest_used_percent_bits: u64,
        latest_resets_at: Option<i64>,
    },
}

/// The tokens that a budget allows.
pub open spec fn tokens_of(budget: Option<ThreadGoalBudget>) -> Option<i64> {
    match budget {
        Some(ThreadGoalBudget::Tokens { token_budget }) => Some(token_budget),
        _ => None,
    }
}

impl ThreadGoalBudget {
    /// The tokens that the budget allows.
    pub fn token_budget(&self) -> (r: Option<i64>)
        ensures
            r == tokens_of(Some(*self)),
    {
        match self {
            ThreadGoalBudget::Tokens { token_budget } => Some(*token_budget),
            ThreadGoalBudget::FiveHourLimitPercent { .. } => None,
        }
    }
}

/// A goal. Times are milliseconds since the Unix epoch.
#[derive(Debug)]
pub struct ThreadGoal {
    pub thread_id: ThreadId,
    pub goal_id: String,
    pub objective: String,
    pub status: ThreadGoalStatus,
    pub budget: Option<ThreadGoalBudget>,
    pub token_budget: Option<i64>,
    pub tokens_used: i64,
    pub time_used_seconds: i64,
    pub created_at_ms: i64,
    pub updated_at_ms: i64,
}

/// A goal as it is stored.
#[derive(Debug)]
pub struct ThreadGoalRow {
    pub thread_id: String,
    pub goal_id: String,
    pub objective: String,
    pub status: String,
    pub budget_kind: Option<String>,
    pub budget_limit_id: Option<String>,
    pub budget_percent_bits: Option<u64>,
    pub budget_baseline_used_percent_bits: Option<u64>,
    pub budget_baseline_resets_at: Option<i64>,
    pub budget_latest_used_percent_bits: Option<u64>,
    pub budget_latest_resets_at: Option<i64>,
    pub token_budget: Option<i64>,
    pub tokens_used: i64,
    pub time_used_seconds: i64,
    pub created_at_ms: i64,
    pub updated_at_ms: i64,
}

/// Whether a row's budget is stored as a share of the five-hour limit.
pub open spec fn is_share(row: ThreadGoalRow) -> bool {
    row.budget_kind is Some && row.budget_kind->0@ == "five_hour_limit_percent"@
}

/// Whether a row's budget is stored as a number of tokens.
pub open spec fn is_tokens(row: ThreadGoalRow) -> bool {
    row.budget_kind is Some && row.budget_kind->0@ == "tokens"@
}

/// What is wrong with a row's budget.
pub open spec fn budget_problem(row: ThreadGoalRow) -> Option<ThreadGoalError> {
    if is_tokens(row) {
        if row.token_budget is None {
            Some(ThreadGoalError::MissingTokenBudget)
        } else {
            None
        }
    } else if is_share(row) {
        if row.budget_limit_id is None {
            Some(ThreadGoalError::MissingLimitId)
        } else if row.budget_percent_bits is None {
            Some(ThreadGoalError::MissingPercent)
        } else if row.budget_baseline_used_percent_bits is None {
            Some(ThreadGoalError::MissingBaseline)
        } else {
            None
        }
    } else if row.budget_kind is Some {
        Some(ThreadGoalError::UnknownBudgetKind(row.budget_kind->0))
    } else {
        None
    }
}

/// The value that is there, or else another.
pub open spec fn or_else<T>(a: Option<T>, b: Option<T>) -> Option<T> {
    match a {
        Some(x) => Some(x),
        None => b,
    }
}

/// Whether a budget is that of a row that has nothing wrong with it. What was last seen of a
/// limit is what was seen first where nothing else is stored.
pub open spec fn is_budget_of(row: ThreadGoalRow, budget: Option<ThreadGoalBudget>) -> bool {
    if is_share(row) {
        &&& budget matches Some(
            ThreadGoalBudget::FiveHourLimitPercent {
                limit_id,
                percent_bits,
                baseline_used_percent_bits,
                baseline_resets_at,
                latest_used_percent_bits,
                latest_resets_at,
            },
        )
        &&& Some(limit_id@) == text::option_view(row.budget_limit_id)
        &&& Some(percent_bits) == row.budget_percent_bits
        &&& Some(baseline_used_percent_bits) == row.budget_baseline_used_percent_bits
        &&& baseline_resets_at == row.budget_baseline_resets_at
        &&& Some(latest_used_percent_bits) == or_else(
            row.budget_latest_used_percent_bits,
            row.budget_baseline_used_percent_bits,
        )
        &&& latest_resets_at == or_else(row.budget_latest_resets_at, row.budget_baseline_resets_at)
    } else {
        budget == (match row.token_budget {
            Some(token_budget) => Some(ThreadGoalBudget::Tokens { token_budget }),
            None => None,
        })
    }
}

/// The error with the same texts.
pub open spec fn same_error(a: ThreadGoalError, b: ThreadGoalError) -> bool {
    match (a, b) {
        (ThreadGoalError::UnknownBudgetKind(x), ThreadGoalError::UnknownBudgetKind(y)) => x@ == y@,
        _ => a == b,
    }
}

/// The budget of a row.
pub fn thread_goal_budget_from_row(row: &ThreadGoalRow) -> (r: Result<
    Option<ThreadGoalBudget>,
    ThreadGoalError,
>)
    ensures
        match r {
            Ok(budget) => budget_problem(*row) is None && is_budget_of(*row, budget),
            Err(e) => budget_problem(*row) is Some && same_error(budget_problem(*row)->0, e),
        },
{
    proof {
        reveal_strlit("tokens");
        reveal_strlit("five_hour_limit_percent");
        assert("tokens"@.len() != "five_hour_limit_percent"@.len());
    }
    match &row.budget_kind {
        None => Ok(
            match row.token_budget {
                Some(token_budget) => Some(ThreadGoalBudget::Tokens { token_budget }),
                None => None,
            },
        ),
        Some(kind) => {
            if text::same_str(kind.as_str(), "tokens") {
                return match row.token_budget {
                    Some(token_budget) => Ok(Some(ThreadGoalBudget::Tokens { token_budget })),
                    None => Err(ThreadGoalError::MissingTokenBudget),
                };
            }
            if !text::same_str(kind.as_str(), "five_hour_limit_percent") {
                return Err(ThreadGoalError::UnknownBudgetKind(kind.clone()));
            }
            let limit_id = match &row.budget_limit_id {
                Some(id) => id.clone(),
                None => {
                    return Err(ThreadGoalError::MissingLimitId);
                },
            };
            let percent_bits = match row.budget_percent_bits {
                Some(bits) => bits,
                None => {
                    return Err(ThreadGoalError::MissingPercent);
                },
            };
            let baseline_used_percent_bits = match row.budget_baseline_used_percent_bits {
                Some(bits) => bits,
                None => {
                    return Err(ThreadGoalError::MissingBaseline);
                },
            };
            let latest_used_percent_bits = match row.budget_latest_used_percent_bits {
                Some(bits) => bits,
                None => baseline_used_percent_bits,
            };
            let latest_resets_at = match row.budget_latest_resets_at {
                Some(at) => Some(at),
                None => row.budget_baseline_resets_at,
            };
            Ok(
                Some(
                    ThreadGoalBudget::FiveHourLimitPercent {
                        limit_id,
                        percent_bits,
                        baseline_used_percent_bits,
                        baseline_resets_at: row.budget_baseline_resets_at,
                        latest_used_percent_bits,
                        latest_resets_at,
                    },
                ),
            )
        },
    }
}

/// Calls `chrono::DateTime::from_timestamp_millis`, which gives a time where the calendar
/// covers its second and nothing for others. Claims when it does.
#[verifier::external_body]
fn millis_exist(ms: i64) -> (r: bool)
    ensures
        r == session_state::is_calendar_time(ms as int / 1000),
{
    chrono::DateTime::from_timestamp_millis(ms).is_some()
}

/// What keeps a row with a sound budget from being read: its thread, its status, or one of
/// its times.
pub open spec fn row_problem(row: ThreadGoalRow) -> Option<ThreadGoalError> {
    if thread_id::uuid_value(row.thread_id@) is None {
        Some(ThreadGoalError::InvalidThreadId(row.thread_id))
    } else if named_status(row.status@) is None {
        Some(ThreadGoalError::UnknownStatus(row.status))
    } else if !session_state::is_calendar_time(row.created_at_ms as int / 1000) {
        Some(ThreadGoalError::InvalidTime(row.created_at_ms))
    } else if !session_state::is_calendar_time(row.updated_at_ms as int / 1000) {
        Some(ThreadGoalError::InvalidTime(row.updated_at_ms))
    } else {
        None
    }
}

impl ThreadGoal {
    /// The goal of a row.
    pub fn from_row(row: ThreadGoalRow) -> (r: Result<ThreadGoal, ThreadGoalError>)
        ensures
            match r {
                Ok(goal) => {
                    &&& budget_problem(row) is None
                    &&& row_problem(row) is None
                    &&& thread_id::uuid_value(row.thread_id@) == Some(goal.thread_id.value)
                    &&& goal.goal_id == row.goal_id
                    &&& goal.objective == row.objective
                    &&& named_status(row.status@) == Some(goal.status)
                    &&& is_budget_of(row, goal.budget)
                    &&& goal.token_budget == or_else(tokens_of(goal.budget), row.token_budget)
                    &&& goal.tokens_used == row.tokens_used
                    &&& goal.time_used_seconds == row.time_used_seconds
                    &&& goal.created_at_ms == row.created_at_ms
                    &&& goal.updated_at_ms == row.updated_at_ms
                },
                Err(e) => if budget_problem(row) is Some {
                    same_error(budget_problem(row)->0, e)
                } else {
                    row_problem(row) is Some && match row_problem(row)->0 {
                        ThreadGoalError::UnknownStatus(s) => e matches
                            ThreadGoalError::UnknownStatus(t) && t@ == s@,
                        problem => e == problem,
                    }
                },
            },
    {
        let budget = match thread_goal_budget_from_row(&row) {
            Ok(budget) => budget,
            Err(e) => {
                return Err(e);
            },
        };
        let of_budget = match &budget {
            Some(b) => b.token_budget(),
            None => None,
        };
        let token_budget = match of_budget {
            Some(n) => Some(n),
            None => row.token_budget,
        };
        let id = match ThreadId::from_string(row.thread_id.as_str()) {
            Some(id) => id,
            None => {
                return Err(ThreadGoalError::InvalidThreadId(row.thread_id));
            },
        };
        let status = match ThreadGoalStatus::from_name(row.status.as_str()) {
            Ok(status) => status,
            Err(e) => {
                return Err(e);
            },
        };
        if !millis_exist(row.created_at_ms) {
            return Err(ThreadGoalError::InvalidTime(row.created_at_ms));
        }
        if !millis_exist(row.updated_at_ms) {
            return Err(ThreadGoalError::InvalidTime(row.updated_at_ms));
        }
        Ok(
            ThreadGoal {
                thread_id: id,
                goal_id: row.goal_id,
                objective: row.objective,
                status,
                budget,
                token_budget,
                tokens_used: row.tokens_used,
                time_used_seconds: row.time_used_seconds,
                created_at_ms: row.created_at_ms,
                updated_at_ms: row.updated_at_ms,
            },
        )
    }
}

// ---- summaries ----

/// What a summary says of a goal; numbers and times as they are shown.
#[derive(Debug)]
pub struct GoalSummary {
    pub status: ThreadGoalStatus,
    pub objective: String,
    pub time_used: String,
    pub tokens_used: String,
    pub token_budget: Option<String>,
    pub five_hour_progress: Option<String>,
}

/// How a status is shown.
pub open spec fn status_label(status: ThreadGoalStatus) -> Seq<char> {
    match status {
        ThreadGoalStatus::Active => "active"@,
        ThreadGoalStatus::Paused => "paused"@,
        ThreadGoalStatus::BudgetLimited => "limited by budget"@,
        ThreadGoalStatus::Complete => "complete"@,
    }
}

/// How a status is shown.
pub fn goal_status_label(status: ThreadGoalStatus) -> (r: &'static str)
    ensures
        r@ == status_label(status),
{
    match status {
        ThreadGoalStatus::Active => "active",
        ThreadGoalStatus::Paused => "paused",
        ThreadGoalStatus::BudgetLimited => "limited by budget",
        ThreadGoalStatus::Complete => "complete",
    }
}

/// The commands that a goal can be given.
pub open spec fn goal_commands(status: ThreadGoalStatus) -> Seq<char> {
    match status {
        ThreadGoalStatus::Active => "Commands: /goal pause, /goal clear"@,
        ThreadGoalStatus::Paused => "Commands: /goal resume, /goal clear"@,
        _ => "Commands: /goal clear"@,
    }
}

/// The summary of a goal. The five-hour limit is shown only without a token budget.
pub open spec fn summary_view(goal: GoalSummary) -> Seq<Seq<spans::SpanView>> {
    seq![
        seq![("Goal"@, Tone::Bold)],
        seq![("Status: "@, Tone::Dim), (status_label(goal.status), Tone::Plain)],
        seq![("Objective: "@, Tone::Dim), (goal.objective@, Tone::Plain)],
        seq![("Time used: "@, Tone::Dim), (goal.time_used@, Tone::Plain)],
        seq![("Tokens used: "@, Tone::Dim), (goal.tokens_used@, Tone::Plain)],
    ] + (match (goal.token_budget, goal.five_hour_progress) {
        (Some(b), _) => seq![seq![("Token budget: "@, Tone::Dim), (b@, Tone::Plain)]],
        (None, Some(p)) => seq![seq![("5h limit: "@, Tone::Dim), (p@, Tone::Plain)]],
        (None, None) => Seq::empty(),
    }) + seq![Seq::<spans::SpanView>::empty(), seq![(goal_commands(goal.status), Tone::Dim)]]
}

fn single(s: &str, tone: Tone) -> (r: Vec<Span>)
    ensures
        spans::line_view(r@) == seq![(s@, tone)],
{
    let mut line = spans::empty_line();
    spans::push_span(&mut line, s.to_owned(), tone);
    assert(spans::line_view(line@) =~= seq![(s@, tone)]);
    line
}

fn labelled(label: &str, value: &str) -> (r: Vec<Span>)
    ensures
        spans::line_view(r@) == seq![(label@, Tone::Dim), (value@, Tone::Plain)],
{
    spans::two_spans(label, Tone::Dim, value.to_owned(), Tone::Plain)
}

/// The summary of a goal.
pub fn goal_summary_lines(goal: &GoalSummary) -> (r: Vec<Vec<Span>>)
    ensures
        spans::lines_view(r@) == summary_view(*goal),
{
    let mut lines = spans::one_line(single("Goal", Tone::Bold));
    spans::push_line(&mut lines, labelled("Status: ", goal_status_label(goal.status)));
    spans::push_line(&mut lines, labelled("Objective: ", goal.objective.as_str()));
    spans::push_line(&mut lines, labelled("Time used: ", goal.time_used.as_str()));
    spans::push_line(&mut lines, labelled("Tokens used: ", goal.tokens_used.as_str()));
    let ghost head = spans::lines_view(lines@);
    let ghost mut budget: Seq<Seq<spans::SpanView>> = Seq::empty();
    if let Some(b) = &goal.token_budget {
        spans::push_line(&mut lines, labelled("Token budget: ", b.as_str()));
        proof {
            budget = seq![seq![("Token budget: "@, Tone::Dim), (b@, Tone::Plain)]];
        }
    } else if let Some(p) = &goal.five_hour_progress {
        spans::push_line(&mut lines, labelled("5h limit: ", p.as_str()));
        proof {
            budget = seq![seq![("5h limit: "@, Tone::Dim), (p@, Tone::Plain)]];
        }
    }
    assert(spans::lines_view(lines@) =~= head + budget);
    let commands = match goal.status {
        ThreadGoalStatus::Active => "Commands: /goal pause, /goal clear",
        ThreadGoalStatus::Paused => "Commands: /goal resume, /goal clear",
        ThreadGoalStatus::BudgetLimited => "Commands: /goal clear",
        ThreadGoalStatus::Complete => "Commands: /goal clear",
    };
    spans::push_line(&mut lines, spans::empty_line());
    spans::push_line(&mut lines, single(commands, Tone::Dim));
    assert(spans::lines_view(lines@) =~= summary_view(*goal));
    lines
}

/// Whether a goal that was cleared is that of the thread in front.
pub fn is_active_thread(active: Option<ThreadId>, thread: &str) -> (r: bool)
    ensures
        r == match active {
            Some(id) => thread_id::uuid_text(id.value) == thread@,
            None => false,
        },
{
    match active {
        Some(id) => text::same_str(id.to_text().as_str(), thread),
        None => false,
    }
}

/// Each status has a name of its own, and no other text names one.
pub proof fn names_tell_statuses_apart(a: ThreadGoalStatus, b: ThreadGoalStatus, name: Seq<char>)
    ensures
        status_name(a) == status_name(b) ==> a == b,
        named_status(name) == Some(a) <==> name == status_name(a),
        status_label(a) == status_label(b) ==> a == b,
{
    statuses_are_read_back(a);
    statuses_are_read_back(b);
    reveal_strlit("active");
    reveal_strlit("paused");
    reveal_strlit("limited by budget");
    reveal_strlit("complete");
    assert("active"@.len() == 6 && "paused"@.len() == 6 && "complete"@.len() == 8
        && "limited by budget"@.len() == 17);
    assert("active"@[0] == 'a' && "paused"@[0] == 'p');
}

/// A budget read from a row holds what the row holds: its tokens, or its share of the limit with
/// where it started and where it stands, which is where it started until that is known.
pub proof fn budgets_hold_what_their_rows_hold(row: ThreadGoalRow, budget: Option<ThreadGoalBudget>)
    requires
        budget_problem(row) is None,
        is_budget_of(row, budget),
    ensures
        row.budget_kind is None || row.budget_kind->0@ == "tokens"@ || row.budget_kind->0@
            == "five_hour_limit_percent"@,
        budget is None <==> row.budget_kind is None && row.token_budget is None,
        budget matches Some(ThreadGoalBudget::Tokens { token_budget }) ==> row.token_budget == Some(
            token_budget,
        ) && (row.budget_kind is None || row.budget_kind->0@ == "tokens"@),
        budget matches Some(
            ThreadGoalBudget::FiveHourLimitPercent {
                limit_id,
                percent_bits,
                baseline_used_percent_bits,
                baseline_resets_at,
                latest_used_percent_bits,
                latest_resets_at,
            },
        ) ==> {
            &&& row.budget_kind is Some && row.budget_kind->0@ == "five_hour_limit_percent"@
            &&& row.budget_limit_id is Some && row.budget_limit_id->0@ == limit_id@
            &&& row.budget_percent_bits == Some(percent_bits)
            &&& row.budget_baseline_used_percent_bits == Some(baseline_used_percent_bits)
            &&& row.budget_baseline_resets_at == baseline_resets_at
            &&& row.budget_latest_used_percent_bits == Some(latest_used_percent_bits)
                || row.budget_latest_used_percent_bits is None && latest_used_percent_bits
                == baseline_used_percent_bits
            &&& row.budget_latest_resets_at is Some && row.budget_latest_resets_at
                == latest_resets_at || row.budget_latest_resets_at is None && latest_resets_at
                == baseline_resets_at
        },
{
    reveal_strlit("tokens");
    reveal_strlit("five_hour_limit_percent");
    assert("tokens"@.len() == 6);
    assert("five_hour_limit_percent"@.len() == 23);
}

/// A row is refused for its budget exactly where its kind is unknown or something that the kind
/// needs is missing, and the error names what is missing.
pub proof fn budgets_need_what_their_kind_needs(row: ThreadGoalRow)
    ensures
        row.budget_kind is None ==> budget_problem(row) is None,
        row.budget_kind matches Some(kind) && kind@ == "tokens"@ ==> (budget_problem(row) is None
            <==> row.token_budget is Some),
        row.budget_kind matches Some(kind) && kind@ == "five_hour_limit_percent"@ ==> (
        budget_problem(row) is None <==> row.budget_limit_id is Some && row.budget_percent_bits is Some
            && row.budget_baseline_used_percent_bits is Some),
        row.budget_kind matches Some(kind) && kind@ != "tokens"@ && kind@
            != "five_hour_limit_percent"@ ==> budget_problem(row) == Some(
            ThreadGoalError::UnknownBudgetKind(row.budget_kind->0),
        ),
        budget_problem(row) matches Some(ThreadGoalError::MissingTokenBudget)
            ==> row.token_budget is None,
        budget_problem(row) matches Some(ThreadGoalError::MissingLimitId)
            ==> row.budget_limit_id is None,
        budget_problem(row) matches Some(ThreadGoalError::MissingPercent)
            ==> row.budget_percent_bits is None,
        budget_problem(row) matches Some(ThreadGoalError::MissingBaseline)
            ==> row.budget_baseline_used_percent_bits is None,
{
    reveal_strlit("tokens");
    reveal_strlit("five_hour_limit_percent");
    assert("tokens"@.len() == 6);
    assert("five_hour_limit_percent"@.len() == 23);
}

/// A row with a valid budget becomes a goal exactly where its thread, its status and both its times
/// can be read, and the error holds what could not be.
pub proof fn goals_need_a_thread_a_status_and_times(row: ThreadGoalRow)
    ensures
        row_problem(row) is None <==> thread_id::uuid_value(row.thread_id@) is Some && (exists|
            status: ThreadGoalStatus,
        |
            #[trigger] status_name(status) == row.status@) && session_state::is_calendar_time(
            row.created_at_ms as int / 1000,
        ) && session_state::is_calendar_time(row.updated_at_ms as int / 1000),
        row_problem(row) matches Some(ThreadGoalError::InvalidThreadId(id)) ==> id == row.thread_id
            && thread_id::uuid_value(id@) is None,
        row_problem(row) matches Some(ThreadGoalError::UnknownStatus(name)) ==> name == row.status
            && forall|status: ThreadGoalStatus| #[trigger] status_name(status) != name@,
        row_problem(row) matches Some(ThreadGoalError::InvalidTime(ms)) ==> (ms == row.created_at_ms
            || ms == row.updated_at_ms) && !session_state::is_calendar_time(ms as int / 1000),
{
    assert forall|status: ThreadGoalStatus|
        #[trigger] status_name(status) == row.status@ implies named_status(row.status@) is Some by {
        statuses_are_read_back(status);
    }
    if named_status(row.status@) is Some {
        assert(status_name(named_status(row.status@)->0) == row.status@);
    }
}

/// A summary of a goal shows each thing that is known of it once: its status, its objective, the
/// time and the tokens that it used, and its budget.
pub proof fn summaries_show_the_whole_goal(goal: GoalSummary)
    ensures
        ({
            let lines = summary_view(goal);
            &&& lines[1].last().0 == status_label(goal.status)
            &&& lines[2].last().0 == goal.objective@
            &&& lines[3].last().0 == goal.time_used@
            &&& lines[4].last().0 == goal.tokens_used@
            &&& goal.token_budget matches Some(b) ==> lines.len() == 8 && lines[5][0].0
                == "Token budget: "@ && lines[5].last().0 == b@
            &&& goal.token_budget is None && goal.five_hour_progress is Some ==> lines.len() == 8
                && lines[5][0].0 == "5h limit: "@ && lines[5].last().0
                == goal.five_hour_progress->0@
            &&& goal.token_budget is None && goal.five_hour_progress is None ==> lines.len() == 7
            &&& lines[lines.len() - 2].len() == 0
            &&& lines.last()[0].0 == goal_commands(goal.status)
        }),
{
}

} // verus!
