//! The sessions that a picker lists: what is known of each, how it is searched, and how its
//! recent transcript is cut down to a preview.

use vstd::prelude::*;

use crate::paths;
use crate::session_state;
use crate::text;
use crate::thread_id;
use crate::thread_id::ThreadId;

verus! {

/// How many sessions are asked for at a time.
pub const PAGE_SIZE: u32 = 25;

/// How many lines of a transcript a preview holds.
pub const MAX_PREVIEW_LINES: usize = 6;

/// A moment: seconds since the Unix epoch, and nanoseconds past them.
#[derive(Clone, Copy, Debug, PartialEq, Eq, Structural)]
pub struct Timestamp {
    pub secs: i64,
    pub nanos: u32,
}

/// By what sessions are sorted.
#[derive(Clone, Copy, Debug, PartialEq, Eq, Structural)]
pub enum ThreadSortKey {
    CreatedAt,
    UpdatedAt,
}

/// A session that was picked.
#[derive(Debug)]
pub struct SessionTarget {
    pub path: Option<String>,
    pub thread_id: ThreadId,
}

impl SessionTarget {
    /// How the session is called: by its file, or else by its thread.
    pub fn display_label(&self) -> (r: String)
        ensures
            r@ == match self.path {
                Some(path) => path@,
                None => "thread "@ + thread_id::uuid_text(self.thread_id.value),
            },
    {
        match &self.path {
            Some(path) => path.clone(),
            None => {
                let mut r = "thread ".to_owned();
                r.push_str(self.thread_id.to_text().as_str());
                r
            },
        }
    }
}

/// What a picker ends with.
#[derive(Debug)]
pub enum SessionSelection {
    StartFresh,
    Resume(SessionTarget),
    Fork(SessionTarget),
    Exit,
}

/// What is done with the session that is picked.
#[derive(Clone, Copy, Debug, PartialEq, Eq, Structural)]
pub enum SessionPickerAction {
    Resume,
    Fork,
}

impl SessionPickerAction {
    /// The title of the picker.
    pub fn title(self) -> (r: &'static str)
        ensures
            r@ == match self {
                SessionPickerAction::Resume => "Resume a previous session"@,
                SessionPickerAction::Fork => "Fork a previous session"@,
            },
    {
        match self {
            SessionPickerAction::Resume => "Resume a previous session",
            SessionPickerAction::Fork => "Fork a previous session",
        }
    }

    /// The name of the action.
    pub fn action_label(self) -> (r: &'static str)
        ensures
            r@ == match self {
                SessionPickerAction::Resume => "resume"@,
                SessionPickerAction::Fork => "fork"@,
            },
    {
        match self {
            SessionPickerAction::Resume => "resume",
            SessionPickerAction::Fork => "fork",
        }
    }

    /// What the picker ends with for a session.
    pub fn selection(self, path: Option<String>, thread_id: ThreadId) -> (r: SessionSelection)
        ensures
            r == match self {
                SessionPickerAction::Resume => SessionSelection::Resume(
                    SessionTarget { path, thread_id },
                ),
                SessionPickerAction::Fork => SessionSelection::Fork(
                    SessionTarget { path, thread_id },
                ),
            },
    {
        let target = SessionTarget { path, thread_id };
        match self {
            SessionPickerAction::Resume => SessionSelection::Resume(target),
            SessionPickerAction::Fork => SessionSelection::Fork(target),
        }
    }
}

/// The heading of a sort order.
pub open spec fn sort_label(sort_key: ThreadSortKey) -> Seq<char> {
    match sort_key {
        ThreadSortKey::CreatedAt => "Created"@,
        ThreadSortKey::UpdatedAt => "Updated"@,
    }
}

/// The heading of a sort order.
pub fn sort_key_label(sort_key: ThreadSortKey) -> (r: &'static str)
    ensures
        r@ == sort_label(sort_key),
{
    match sort_key {
        ThreadSortKey::CreatedAt => "Created",
        ThreadSortKey::UpdatedAt => "Updated",
    }
}

// ---- rows ----

/// A session in the list.
#[derive(Debug)]
pub struct Row {
    pub path: Option<String>,
    pub preview: String,
    pub thread_id: Option<ThreadId>,
    pub thread_name: Option<String>,
    pub created_at: Option<Timestamp>,
    pub updated_at: Option<Timestamp>,
    pub cwd: Option<String>,
    /// The working directory as it is shown.
    pub cwd_display: Option<String>,
    pub git_branch: Option<String>,
}

/// What a row is known by: its file, or else its thread.
pub ghost enum RowKey {
    Path(Seq<char>),
    Thread(ThreadId),
}

/// What a row is known by.
pub open spec fn row_key(row: Row) -> Option<RowKey> {
    match row.path {
        Some(path) => Some(RowKey::Path(path@)),
        None => match row.thread_id {
            Some(id) => Some(RowKey::Thread(id)),
            None => None,
        },
    }
}

/// Whether two rows are known by the same thing.
pub open spec fn same_row(a: Row, b: Row) -> bool {
    match (row_key(a), row_key(b)) {
        (Some(RowKey::Path(p)), Some(RowKey::Path(q))) => paths::same_path(p, q),
        (Some(RowKey::Thread(i)), Some(RowKey::Thread(j))) => i == j,
        _ => false,
    }
}

/// Whether some text that may be there holds a query, case aside.
pub open spec fn holds(field: Option<String>, query: Seq<char>) -> bool {
    match field {
        Some(f) => text::has_sub(text::unicode_lowercase(f@), query),
        None => false,
    }
}

/// Whether a row holds a query that is in lower case.
pub open spec fn row_matches(row: Row, query: Seq<char>) -> bool {
    ||| text::has_sub(text::unicode_lowercase(row.preview@), query)
    ||| holds(row.thread_name, query)
    ||| match row.thread_id {
        Some(id) => text::has_sub(
            text::unicode_lowercase(thread_id::uuid_text(id.value)),
            query,
        ),
        None => false,
    }
    ||| holds(row.git_branch, query)
    ||| holds(row.cwd, query)
}

fn lower_contains(s: &str, query: &[char]) -> (r: bool)
    ensures
        r == text::has_sub(text::unicode_lowercase(s@), query@),
{
    let lower = text::to_lowercase(s);
    let c = text::chars_of(lower.as_str());
    text::contains_sub(c.as_slice(), query)
}

fn field_contains(field: &Option<String>, query: &[char]) -> (r: bool)
    ensures
        r == holds(*field, query@),
{
    match field {
        Some(f) => lower_contains(f.as_str(), query),
        None => false,
    }
}

impl Row {
    /// Whether two rows are known by the same thing.
    pub fn is_same_row(&self, other: &Row) -> (r: bool)
        ensures
            r == same_row(*self, *other),
    {
        match (&self.path, &other.path) {
            (Some(p), Some(q)) => paths::is_same_path(p.as_str(), q.as_str()),
            (None, None) => match (self.thread_id, other.thread_id) {
                (Some(i), Some(j)) => i == j,
                _ => false,
            },
            _ => false,
        }
    }

    /// Whether the row is known by anything.
    pub fn has_key(&self) -> (r: bool)
        ensures
            r == row_key(*self) is Some,
    {
        self.path.is_some() || self.thread_id.is_some()
    }

    /// What the row shows: the name of the thread, or else its first message.
    pub fn display_preview(&self) -> (r: &str)
        ensures
            r@ == match self.thread_name {
                Some(name) => name@,
                None => self.preview@,
            },
    {
        match &self.thread_name {
            Some(name) => name.as_str(),
            None => self.preview.as_str(),
        }
    }

    /// Whether the row holds a query that is in lower case.
    pub fn matches_query(&self, query: &str) -> (r: bool)
        ensures
            r == row_matches(*self, query@),
    {
        let chars = text::chars_of(query);
        let q = chars.as_slice();
        if lower_contains(self.preview.as_str(), q) {
            return true;
        }
        if field_contains(&self.thread_name, q) {
            return true;
        }
        if let Some(id) = self.thread_id {
            if lower_contains(id.to_text().as_str(), q) {
                return true;
            }
        }
        if field_contains(&self.git_branch, q) {
            return true;
        }
        field_contains(&self.cwd, q)
    }
}

// ---- what the server is asked ----

/// Where sessions come from.
#[derive(Clone, Copy, Debug, PartialEq, Eq, Structural)]
pub enum ThreadSourceKind {
    Cli,
    VsCode,
}

/// Which providers' sessions are listed.
#[derive(Debug)]
pub enum ProviderFilter {
    Any,
    MatchDefault(String),
}

/// What the server is asked for.
#[derive(Debug)]
pub struct ThreadListParams {
    pub cursor: Option<String>,
    pub limit: u32,
    pub sort_key: ThreadSortKey,
    pub model_providers: Option<Vec<String>>,
    pub source_kinds: Option<Vec<ThreadSourceKind>>,
    pub archived: bool,
    pub cwd: Option<String>,
    pub use_state_db_only: bool,
    pub search_term: Option<String>,
}

/// The directory that the listed sessions worked in, unless all are listed: the local one,
/// or, of a remote server, the one that was asked for.
pub fn picker_cwd_filter(
    config_cwd: &str,
    show_all: bool,
    is_remote: bool,
    remote_cwd_override: Option<&str>,
) -> (r: Option<String>)
    ensures
        text::option_view(r) == if show_all {
            None
        } else if is_remote {
            match remote_cwd_override {
                Some(cwd) => Some(cwd@),
                None => None,
            }
        } else {
            Some(config_cwd@)
        },
{
    if show_all {
        None
    } else if is_remote {
        match remote_cwd_override {
            Some(cwd) => Some(cwd.to_owned()),
            None => None,
        }
    } else {
        Some(config_cwd.to_owned())
    }
}

/// The providers that sessions are asked for: of a remote server all, and otherwise the
/// configured one.
pub fn provider_filter(is_remote: bool, model_provider_id: &str) -> (r: ProviderFilter)
    ensures
        match r {
            ProviderFilter::Any => is_remote,
            ProviderFilter::MatchDefault(p) => !is_remote && p@ == model_provider_id@,
        },
{
    if is_remote {
        ProviderFilter::Any
    } else {
        ProviderFilter::MatchDefault(model_provider_id.to_owned())
    }
}

/// What the server is asked for.
pub fn thread_list_params(
    cursor: Option<String>,
    cwd_filter: Option<&str>,
    provider_filter: ProviderFilter,
    sort_key: ThreadSortKey,
    include_non_interactive: bool,
) -> (r: ThreadListParams)
    ensures
        r.cursor == cursor,
        r.limit == PAGE_SIZE,
        r.sort_key == sort_key,
        match provider_filter {
            ProviderFilter::Any => r.model_providers is None,
            ProviderFilter::MatchDefault(p) => r.model_providers is Some && r.model_providers->0@
                == seq![p],
        },
        if include_non_interactive {
            r.source_kinds is None
        } else {
            r.source_kinds is Some && r.source_kinds->0@ == seq![
                ThreadSourceKind::Cli,
                ThreadSourceKind::VsCode,
            ]
        },
        !r.archived,
        text::option_view(r.cwd) == match cwd_filter {
            Some(cwd) => Some(cwd@),
            None => None,
        },
        !r.use_state_db_only,
        r.search_term is None,
{
    ThreadListParams {
        cursor,
        limit: PAGE_SIZE,
        sort_key,
        model_providers: match provider_filter {
            ProviderFilter::Any => None,
            ProviderFilter::MatchDefault(p) => {
                let mut v: Vec<String> = Vec::new();
                v.push(p);
                assert(v@ =~= seq![p]);
                Some(v)
            },
        },
        source_kinds: if include_non_interactive {
            None
        } else {
            Some(vec![ThreadSourceKind::Cli, ThreadSourceKind::VsCode])
        },
        archived: false,
        cwd: match cwd_filter {
            Some(cwd) => Some(cwd.to_owned()),
            None => None,
        },
        use_state_db_only: false,
        search_term: None,
    }
}

// ---- what the server answers ----

/// What the server says of a thread.
#[derive(Debug)]
pub struct ThreadSummary {
    pub id: String,
    pub preview: String,
    pub path: Option<String>,
    pub name: Option<String>,
    pub created_at: i64,
    pub updated_at: i64,
    pub cwd: String,
    pub cwd_display: String,
    pub git_branch: Option<String>,
}

/// Calls `chrono::DateTime::from_timestamp`, which gives a time for the seconds that the
/// calendar covers and nothing for others. Claims when it does.
#[verifier::external_body]
fn time_exists(secs: i64) -> (r: bool)
    ensures
        r == session_state::is_calendar_time(secs as int),
{
    chrono::DateTime::from_timestamp(secs, 0).is_some()
}

/// The time of a number of seconds that the calendar covers.
pub open spec fn calendar_time(secs: i64) -> Option<Timestamp> {
    if session_state::is_calendar_time(secs as int) {
        Some(Timestamp { secs, nanos: 0 })
    } else {
        None
    }
}

fn time_of(secs: i64) -> (r: Option<Timestamp>)
    ensures
        r == calendar_time(secs),
{
    if time_exists(secs) {
        Some(Timestamp { secs, nanos: 0 })
    } else {
        None
    }
}

/// The first message of a thread as it is listed.
pub open spec fn listed_preview(preview: Seq<char>) -> Seq<char> {
    if text::trim(preview).len() == 0 {
        "(no message yet)"@
    } else {
        text::trim(preview)
    }
}

/// Whether a row is that of a thread with a valid identifier.
pub open spec fn is_row_of(row: Row, thread: ThreadSummary) -> bool {
    &&& row.thread_id is Some
    &&& thread_id::uuid_value(thread.id@) == Some(row.thread_id->0.value)
    &&& row.path == thread.path
    &&& row.preview@ == listed_preview(thread.preview@)
    &&& row.thread_name == thread.name
    &&& row.created_at == calendar_time(thread.created_at)
    &&& row.updated_at == calendar_time(thread.updated_at)
    &&& row.cwd == Some(thread.cwd)
    &&& row.cwd_display == Some(thread.cwd_display)
    &&& row.git_branch == thread.git_branch
}

/// The row of a thread; a thread without a valid identifier is not listed.
pub fn row_from_app_server_thread(thread: ThreadSummary) -> (r: Option<Row>)
    ensures
        match r {
            None => thread_id::uuid_value(thread.id@) is None,
            Some(row) => is_row_of(row, thread),
        },
{
    let id = match ThreadId::from_string(thread.id.as_str()) {
        Some(id) => id,
        None => {
            return None;
        },
    };
    let trimmed = text::trim_str(thread.preview.as_str());
    let chars = text::chars_of(trimmed.as_str());
    let preview = if chars.len() == 0 {
        "(no message yet)".to_owned()
    } else {
        trimmed
    };
    Some(
        Row {
            path: thread.path,
            preview,
            thread_id: Some(id),
            thread_name: thread.name,
            created_at: time_of(thread.created_at),
            updated_at: time_of(thread.updated_at),
            cwd: Some(thread.cwd),
            cwd_display: Some(thread.cwd_display),
            git_branch: thread.git_branch,
        },
    )
}

// ---- relative times ----

/// Whole seconds from one moment to another, none if it is earlier.
pub open spec fn seconds_between(reference: Timestamp, ts: Timestamp) -> int {
    let whole = reference.secs - ts.secs - (if reference.nanos < ts.nanos {
        1int
    } else {
        0int
    });
    if whole < 0 {
        0
    } else {
        whole
    }
}

/// How long ago a moment was, in the largest unit that fits.
pub open spec fn relative_time(reference: Timestamp, ts: Option<Timestamp>) -> Seq<char> {
    match ts {
        None => "-"@,
        Some(t) => {
            let seconds = seconds_between(reference, t);
            if seconds < 60 {
                text::decimal(seconds as nat) + "s ago"@
            } else if seconds < 3600 {
                text::decimal((seconds / 60) as nat) + "m ago"@
            } else if seconds < 86400 {
                text::decimal((seconds / 3600) as nat) + "h ago"@
            } else {
                text::decimal((seconds / 86400) as nat) + "d ago"@
            }
        },
    }
}

/// How long ago a moment was.
pub fn format_relative_time(reference: Timestamp, ts: Option<Timestamp>) -> (r: String)
    ensures
        r@ == relative_time(reference, ts),
{
    let t = match ts {
        None => {
            return "-".to_owned();
        },
        Some(t) => t,
    };
    let borrow: i128 = if reference.nanos < t.nanos {
        1
    } else {
        0
    };
    let whole: i128 = reference.secs as i128 - t.secs as i128 - borrow;
    let seconds: u64 = if whole < 0 {
        0
    } else {
        whole as u64
    };
    let (amount, unit) = if seconds < 60 {
        (seconds, "s ago")
    } else if seconds < 3600 {
        (seconds / 60, "m ago")
    } else if seconds < 86400 {
        (seconds / 3600, "h ago")
    } else {
        (seconds / 86400, "d ago")
    };
    let mut r = text::decimal_u64(amount);
    r.push_str(unit);
    r
}

// ---- transcript previews ----

/// Who said a line.
#[derive(Clone, Copy, Debug, PartialEq, Eq, Structural)]
pub enum TranscriptPreviewSpeaker {
    User,
    Assistant,
}

/// A part of a message to the assistant.
#[derive(Debug)]
pub enum UserInput {
    Text(String),
    Other,
}

/// An item of a turn.
#[derive(Debug)]
pub enum ThreadItem {
    UserMessage(Vec<UserInput>),
    AgentMessage(String),
    Other,
}

/// A line of a preview.
#[derive(Debug)]
pub struct TranscriptPreviewLine {
    pub speaker: TranscriptPreviewSpeaker,
    pub text: String,
}

/// A line of a preview by its text.
pub type LineView = (TranscriptPreviewSpeaker, Seq<char>);

/// Lines of a preview by their text.
pub open spec fn line_views(lines: Seq<TranscriptPreviewLine>) -> Seq<LineView> {
    Seq::new(lines.len(), |i: int| (lines[i].speaker, lines[i].text@))
}

/// The texts among the first `n` parts of a message.
pub open spec fn input_texts(content: Seq<UserInput>, n: int) -> Seq<Seq<char>>
    decreases n,
{
    if n <= 0 {
        Seq::empty()
    } else {
        match content[n - 1] {
            UserInput::Text(t) => input_texts(content, n - 1).push(t@),
            UserInput::Other => input_texts(content, n - 1),
        }
    }
}

/// The lines among the first `n` that are not blank, trimmed.
pub open spec fn spoken(
    speaker: TranscriptPreviewSpeaker,
    lines: Seq<Seq<char>>,
    n: int,
) -> Seq<LineView>
    decreases n,
{
    if n <= 0 {
        Seq::empty()
    } else if text::trim(lines[n - 1]).len() == 0 {
        spoken(speaker, lines, n - 1)
    } else {
        spoken(speaker, lines, n - 1).push((speaker, text::trim(lines[n - 1])))
    }
}

/// The lines of an item.
pub open spec fn item_lines(item: ThreadItem) -> Seq<LineView> {
    match item {
        ThreadItem::UserMessage(content) => {
            let t = text::join(input_texts(content@, content@.len() as int), " "@);
            let lines = text::text_lines(t);
            spoken(TranscriptPreviewSpeaker::User, lines, lines.len() as int)
        },
        ThreadItem::AgentMessage(t) => {
            let lines = text::text_lines(t@);
            spoken(TranscriptPreviewSpeaker::Assistant, lines, lines.len() as int)
        },
        ThreadItem::Other => Seq::empty(),
    }
}

/// The lines of the first `n` items.
pub open spec fn transcript_lines(items: Seq<ThreadItem>, n: int) -> Seq<LineView>
    decreases n,
{
    if n <= 0 {
        Seq::empty()
    } else {
        transcript_lines(items, n - 1) + item_lines(items[n - 1])
    }
}

/// The last lines of a transcript that a preview holds.
pub open spec fn last_lines(lines: Seq<LineView>) -> Seq<LineView> {
    if lines.len() > MAX_PREVIEW_LINES {
        lines.skip(lines.len() - MAX_PREVIEW_LINES)
    } else {
        lines
    }
}

fn push_spoken(out: &mut Vec<TranscriptPreviewLine>, speaker: TranscriptPreviewSpeaker, t: &str)
    ensures
        line_views(final(out)@) == line_views(old(out)@) + spoken(
            speaker,
            text::text_lines(t@),
            text::text_lines(t@).len() as int,
        ),
{
    let chars = text::chars_of(t);
    let lines = text::lines_of(chars.as_slice());
    let ghost views = text::char_views(lines@);
    let ghost before = line_views(out@);
    let mut i: usize = 0;
    assert(before + spoken(speaker, views, 0) =~= before);
    while i < lines.len()
        invariant
            i <= lines.len(),
            views == text::char_views(lines@),
            line_views(out@) == before + spoken(speaker, views, i as int),
        decreases lines.len() - i,
    {
        let trimmed = text::trimmed(lines[i].as_slice());
        assert(views[i as int] == lines@[i as int]@);
        if trimmed.len() > 0 {
            let ghost so_far = out@;
            let line = TranscriptPreviewLine { speaker, text: text::string_of(trimmed.as_slice()) };
            out.push(line);
            assert(line_views(out@) =~= line_views(so_far).push((speaker, trimmed@)));
            assert(before + spoken(speaker, views, i + 1) =~= (before + spoken(
                speaker,
                views,
                i as int,
            )).push((speaker, trimmed@)));
        }
        i = i + 1;
    }
}

fn joined_text(content: &[UserInput]) -> (r: String)
    ensures
        r@ == text::join(input_texts(content@, content@.len() as int), " "@),
{
    let mut parts: Vec<String> = Vec::new();
    let mut i: usize = 0;
    assert(text::string_views(parts@) =~= input_texts(content@, 0));
    while i < content.len()
        invariant
            i <= content.len(),
            text::string_views(parts@) == input_texts(content@, i as int),
        decreases content.len() - i,
    {
        if let UserInput::Text(t) = &content[i] {
            let ghost before = parts@;
            parts.push(t.clone());
            assert(text::string_views(parts@) =~= text::string_views(before).push(t@));
        }
        i = i + 1;
    }
    text::join_strings(parts.as_slice(), " ")
}

/// The preview of a transcript: its last lines that are not blank.
pub fn transcript_preview(items: &[ThreadItem]) -> (r: Vec<TranscriptPreviewLine>)
    ensures
        line_views(r@) == last_lines(transcript_lines(items@, items@.len() as int)),
{
    let mut lines: Vec<TranscriptPreviewLine> = Vec::new();
    let mut i: usize = 0;
    assert(line_views(lines@) =~= transcript_lines(items@, 0));
    while i < items.len()
        invariant
            i <= items.len(),
            line_views(lines@) == transcript_lines(items@, i as int),
        decreases items.len() - i,
    {
        match &items[i] {
            ThreadItem::UserMessage(content) => {
                let t = joined_text(content.as_slice());
                push_spoken(&mut lines, TranscriptPreviewSpeaker::User, t.as_str());
            },
            ThreadItem::AgentMessage(t) => {
                push_spoken(&mut lines, TranscriptPreviewSpeaker::Assistant, t.as_str());
            },
            ThreadItem::Other => {
                assert(line_views(lines@) + Seq::<LineView>::empty() =~= line_views(lines@));
            },
        }
        i = i + 1;
    }
    let n = lines.len();
    if n <= MAX_PREVIEW_LINES {
        return lines;
    }
    let ghost all = line_views(lines@);
    let kept = lines.split_off(n - MAX_PREVIEW_LINES);
    assert(line_views(kept@) =~= all.skip(n - MAX_PREVIEW_LINES));
    kept
}

/// A preview is short, and none of its lines is blank.
pub proof fn previews_are_short(items: Seq<ThreadItem>, n: int)
    requires
        0 <= n <= items.len(),
    ensures
        last_lines(transcript_lines(items, n)).len() <= MAX_PREVIEW_LINES,
        forall|i: int|
            0 <= i < last_lines(transcript_lines(items, n)).len() ==> (#[trigger] last_lines(
                transcript_lines(items, n),
            )[i]).1.len() > 0,
{
    lemma_no_blank_line(items, n);
}

proof fn lemma_no_blank_line(items: Seq<ThreadItem>, n: int)
    requires
        0 <= n <= items.len(),
    ensures
        forall|i: int|
            0 <= i < transcript_lines(items, n).len() ==> (#[trigger] transcript_lines(
                items,
                n,
            )[i]).1.len() > 0,
    decreases n,
{
    if n > 0 {
        lemma_no_blank_line(items, n - 1);
        match items[n - 1] {
            ThreadItem::UserMessage(content) => {
                let t = text::join(input_texts(content@, content@.len() as int), " "@);
                let lines = text::text_lines(t);
                lemma_spoken_is_not_blank(
                    TranscriptPreviewSpeaker::User,
                    lines,
                    lines.len() as int,
                );
            },
            ThreadItem::AgentMessage(t) => {
                let lines = text::text_lines(t@);
                lemma_spoken_is_not_blank(
                    TranscriptPreviewSpeaker::Assistant,
                    lines,
                    lines.len() as int,
                );
            },
            ThreadItem::Other => {},
        }
        let before = transcript_lines(items, n - 1);
        let own = item_lines(items[n - 1]);
        assert forall|i: int| 0 <= i < transcript_lines(items, n).len() implies (
        #[trigger] transcript_lines(items, n)[i]).1.len() > 0 by {
            if i < before.len() {
                assert(transcript_lines(items, n)[i] == before[i]);
            } else {
                assert(transcript_lines(items, n)[i] == own[i - before.len()]);
            }
        }
    }
}

proof fn lemma_spoken_is_not_blank(
    speaker: TranscriptPreviewSpeaker,
    lines: Seq<Seq<char>>,
    n: int,
)
    ensures
        forall|i: int|
            0 <= i < spoken(speaker, lines, n).len() ==> (#[trigger] spoken(
                speaker,
                lines,
                n,
            )[i]).1.len() > 0,
    decreases n,
{
    if n > 0 {
        lemma_spoken_is_not_blank(speaker, lines, n - 1);
        let before = spoken(speaker, lines, n - 1);
        assert forall|i: int| 0 <= i < spoken(speaker, lines, n).len() implies (
        #[trigger] spoken(speaker, lines, n)[i]).1.len() > 0 by {
            if i < before.len() {
                assert(spoken(speaker, lines, n)[i] == before[i]);
            }
        }
    }
}

// ---- laws ----

/// A session is found by what its row shows: by every part of its thread's name in lower case, or,
/// where the thread has none, of its first message.
pub proof fn rows_are_found_by_what_they_show(row: Row, query: Seq<char>)
    requires
        text::has_sub(
            text::unicode_lowercase(
                match row.thread_name {
                    Some(name) => name@,
                    None => row.preview@,
                },
            ),
            query,
        ),
    ensures
        row_matches(row, query),
{
}

/// A session is found by its first message, its name, its identifier, its branch and its
/// directory, and by nothing else.
pub proof fn rows_are_found_by_their_texts(row: Row, query: Seq<char>)
    ensures
        text::has_sub(text::unicode_lowercase(row.preview@), query) ==> row_matches(row, query),
        row.thread_name is Some && text::has_sub(
            text::unicode_lowercase(row.thread_name->0@),
            query,
        ) ==> row_matches(row, query),
        row.thread_id is Some && text::has_sub(
            text::unicode_lowercase(thread_id::uuid_text(row.thread_id->0.value)),
            query,
        ) ==> row_matches(row, query),
        row.git_branch is Some && text::has_sub(
            text::unicode_lowercase(row.git_branch->0@),
            query,
        ) ==> row_matches(row, query),
        row.cwd is Some && text::has_sub(text::unicode_lowercase(row.cwd->0@), query)
            ==> row_matches(row, query),
        row_matches(row, query) ==> {
            ||| text::has_sub(text::unicode_lowercase(row.preview@), query)
            ||| row.thread_name is Some && text::has_sub(
                text::unicode_lowercase(row.thread_name->0@),
                query,
            )
            ||| row.thread_id is Some && text::has_sub(
                text::unicode_lowercase(thread_id::uuid_text(row.thread_id->0.value)),
                query,
            )
            ||| row.git_branch is Some && text::has_sub(
                text::unicode_lowercase(row.git_branch->0@),
                query,
            )
            ||| row.cwd is Some && text::has_sub(text::unicode_lowercase(row.cwd->0@), query)
        },
{
}

/// Rows with a file are the same where their files are, and rows without one where their threads
/// are. Every row with either is the same as itself, and being the same goes both ways.
pub proof fn rows_are_told_apart_by_file_or_thread(a: Row, b: Row)
    ensures
        a.path is Some && b.path is Some ==> (same_row(a, b) <==> paths::same_path(
            a.path->0@,
            b.path->0@,
        )),
        a.path is None && b.path is None && a.thread_id is Some && b.thread_id is Some ==> (
        same_row(a, b) <==> a.thread_id->0.value == b.thread_id->0.value),
        a.path is Some && b.path is None ==> !same_row(a, b),
        a.path is Some || a.thread_id is Some ==> same_row(a, a),
        same_row(a, b) == same_row(b, a),
{
}

/// A time is told in the largest unit that it is one of at least: seconds, minutes, hours or days,
/// of which only the whole ones count. What lies ahead is told as now, and what is not known as a
/// dash.
pub proof fn times_are_told_in_whole_units(reference: Timestamp, t: Timestamp, n: nat)
    ensures
        ({
            let s = seconds_between(reference, t);
            let told = relative_time(reference, Some(t));
            &&& n < 60 && s == n ==> told == text::decimal(n) + "s ago"@
            &&& 0 < n < 60 && n * 60 <= s < (n + 1) * 60 ==> told == text::decimal(n) + "m ago"@
            &&& 0 < n < 24 && n * 3600 <= s < (n + 1) * 3600 ==> told == text::decimal(n)
                + "h ago"@
            &&& 0 < n && n * 86400 <= s < (n + 1) * 86400 ==> told == text::decimal(n) + "d ago"@
            &&& relative_time(reference, None) == "-"@
        }),
{
}

/// The time between two moments is counted in whole seconds that have passed, and none have before
/// the earlier one.
pub proof fn whole_seconds_are_counted(reference: Timestamp, t: Timestamp)
    requires
        reference.nanos < 1_000_000_000,
        t.nanos < 1_000_000_000,
    ensures
        ({
            let s = seconds_between(reference, t);
            let passed = (reference.secs - t.secs) * 1_000_000_000 + (reference.nanos - t.nanos);
            &&& passed >= 0 ==> s * 1_000_000_000 <= passed < (s + 1) * 1_000_000_000
            &&& passed < 0 ==> s == 0
        }),
{
}

/// A listed session always has something to show: its first message without white space around it,
/// or what says that there is none yet.
pub proof fn listed_previews_are_not_blank(preview: Seq<char>)
    ensures
        listed_preview(preview).len() > 0,
        text::trim(preview).len() > 0 ==> listed_preview(preview) == text::trim(preview),
{
    reveal_strlit("(no message yet)");
}

/// All texts of a message are joined, in their order.
pub proof fn every_text_of_a_message_is_taken(content: Seq<UserInput>, n: int, i: int)
    requires
        0 <= i < n <= content.len(),
    ensures
        content[i] matches UserInput::Text(t) ==> input_texts(content, n).contains(t@),
        (forall|k: int| 0 <= k < n ==> (#[trigger] content[k]) is Text) ==> input_texts(
            content,
            n,
        ).len() == n && input_texts(content, n)[i] == content[i]->Text_0@,
        input_texts(content, n).len() <= n,
    decreases n,
{
    let before = input_texts(content, n - 1);
    let after = input_texts(content, n);
    if n > 1 {
        every_text_of_a_message_is_taken(content, n - 1, if i < n - 1 {
            i
        } else {
            0
        });
    }
    if content[i] is Text {
        let t = content[i]->Text_0@;
        if i < n - 1 {
            assert(after[before.index_of(t)] == t);
        } else {
            assert(after[before.len() as int] == t);
        }
    }
    if forall|k: int| 0 <= k < n ==> (#[trigger] content[k]) is Text {
        assert(content[n - 1] is Text);
    }
}

/// Each line of a message that is not blank is shown, without white space around it and under its
/// speaker; in order, and nothing else.
pub proof fn every_spoken_line_is_shown(
    speaker: TranscriptPreviewSpeaker,
    lines: Seq<Seq<char>>,
    n: int,
    i: int,
)
    requires
        0 <= i < n <= lines.len(),
    ensures
        text::trim(lines[i]).len() > 0 ==> spoken(speaker, lines, n).contains(
            (speaker, text::trim(lines[i])),
        ),
        forall|k: int|
            0 <= k < spoken(speaker, lines, n).len() ==> (#[trigger] spoken(speaker, lines, n)[k]).0
                == speaker,
        spoken(speaker, lines, n).len() <= n,
        (forall|k: int| 0 <= k < n ==> text::trim(#[trigger] lines[k]).len() > 0) ==> spoken(
            speaker,
            lines,
            n,
        ).len() == n && spoken(speaker, lines, n)[i].1 == text::trim(lines[i]),
    decreases n,
{
    let before = spoken(speaker, lines, n - 1);
    let after = spoken(speaker, lines, n);
    let own = (speaker, text::trim(lines[i]));
    if n > 1 {
        every_spoken_line_is_shown(speaker, lines, n - 1, if i < n - 1 {
            i
        } else {
            0
        });
    }
    if i < n - 1 && before.contains(own) {
        assert(after[before.index_of(own)] == own);
    }
    if after.len() > before.len() {
        assert(after[before.len() as int] == (speaker, text::trim(lines[n - 1])));
    }
    assert forall|k: int| 0 <= k < after.len() implies (#[trigger] after[k]).0 == speaker by {
        if k < before.len() {
            assert(after[k] == before[k]);
        }
    }
    if forall|k: int| 0 <= k < n ==> text::trim(#[trigger] lines[k]).len() > 0 {
        assert(text::trim(lines[n - 1]).len() > 0);
    }
}

/// The lines of a transcript are those of its messages, one message behind the other; what is no
/// message has none.
pub proof fn transcripts_hold_every_message(items: Seq<ThreadItem>, n: int, i: int, k: int)
    requires
        0 <= i < n <= items.len(),
        0 <= k < item_lines(items[i]).len(),
    ensures
        transcript_lines(items, n).contains(item_lines(items[i])[k]),
        items[i] !is Other,
        items[i] matches ThreadItem::UserMessage(c) ==> item_lines(items[i])[k].0 is User,
        items[i] matches ThreadItem::AgentMessage(t) ==> item_lines(items[i])[k].0 is Assistant,
    decreases n,
{
    let line = item_lines(items[i])[k];
    let before = transcript_lines(items, n - 1);
    let after = transcript_lines(items, n);
    if i < n - 1 {
        transcripts_hold_every_message(items, n - 1, i, k);
        assert(after[before.index_of(line)] == line);
    } else {
        assert(after[before.len() + k] == line);
    }
    match items[i] {
        ThreadItem::UserMessage(content) => {
            let lines = text::text_lines(
                text::join(input_texts(content@, content@.len() as int), " "@),
            );
            assert(lines.len() > 0);
            every_spoken_line_is_shown(
                TranscriptPreviewSpeaker::User,
                lines,
                lines.len() as int,
                0,
            );
        },
        ThreadItem::AgentMessage(t) => {
            let lines = text::text_lines(t@);
            assert(lines.len() > 0);
            every_spoken_line_is_shown(
                TranscriptPreviewSpeaker::Assistant,
                lines,
                lines.len() as int,
                0,
            );
        },
        ThreadItem::Other => {},
    }
}

/// A preview shows the end of a transcript: its last six lines, or all if there are no more.
pub proof fn previews_show_the_end(lines: Seq<LineView>, i: int)
    requires
        0 <= i < last_lines(lines).len(),
    ensures
        lines.len() <= 6 ==> last_lines(lines) == lines,
        lines.len() > 6 ==> last_lines(lines).len() == 6,
        last_lines(lines)[last_lines(lines).len() - 1 - i] == lines[lines.len() - 1 - i],
{
}

/// The row of a thread tells of the thread what the thread tells: its identifier, its file, its
/// name, its first message, its times, its directory and its branch.
pub proof fn rows_tell_what_their_threads_tell(row: Row, thread: ThreadSummary)
    requires
        is_row_of(row, thread),
    ensures
        row.thread_id is Some && thread_id::uuid_value(thread.id@) == Some(row.thread_id->0.value),
        row.path == thread.path,
        row.thread_name == thread.name,
        text::trim(thread.preview@).len() > 0 ==> row.preview@ == text::trim(thread.preview@),
        row.created_at matches Some(t) ==> t.secs == thread.created_at && t.nanos == 0,
        row.updated_at matches Some(t) ==> t.secs == thread.updated_at && t.nanos == 0,
        session_state::is_calendar_time(thread.created_at as int) ==> row.created_at is Some,
        session_state::is_calendar_time(thread.updated_at as int) ==> row.updated_at is Some,
        row.cwd == Some(thread.cwd),
        row.cwd_display == Some(thread.cwd_display),
        row.git_branch == thread.git_branch,
{
}

} // verus!
