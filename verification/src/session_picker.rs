//! The session picker: a list of sessions that is loaded page by page, searched while it is
//! typed into, and scrolled so that the selected session is always visible.

use std::collections::HashMap;

use vstd::prelude::*;

use crate::paths;
use crate::session_lines;
use crate::session_lines::RenderedLine;
use crate::session_lines::Rendering;
use crate::session_lines::TranscriptPreviewState;
use crate::session_rows;
use crate::session_rows::ProviderFilter;
use crate::session_rows::Row;
use crate::session_rows::SessionPickerAction;
use crate::session_rows::SessionSelection;
use crate::session_rows::ThreadSortKey;
use crate::session_rows::ThreadSummary;
use crate::session_rows::Timestamp;
use crate::session_rows::TranscriptPreviewLine;
use crate::session_rows::TranscriptPreviewSpeaker;
use crate::spans;
use crate::text;
#[allow(unused_imports)]
use crate::thread_id;
use crate::thread_id::ThreadId;

verus! {

broadcast use vstd::std_specs::hash::group_hash_axioms;

/// How many rows below the selected one may be left before more are loaded.
pub const LOAD_NEAR_THRESHOLD: usize = 5;

/// How many lines of the terminal the picker needs around its list.
pub const CHROME_HEIGHT: u16 = 6;

/// How many lines the list has in a terminal of a height.
pub fn list_height(height: u16) -> (r: usize)
    ensures
        r == (if height >= CHROME_HEIGHT {
            height - CHROME_HEIGHT
        } else {
            0
        }),
{
    if height >= CHROME_HEIGHT {
        (height - CHROME_HEIGHT) as usize
    } else {
        0
    }
}

/// A page that is being loaded.
#[derive(Clone, Copy, Debug, PartialEq, Eq, Structural)]
pub struct PendingLoad {
    pub request_token: usize,
    pub search_token: Option<usize>,
}

/// Whether a page is being loaded.
#[derive(Clone, Copy, Debug, PartialEq, Eq, Structural)]
pub enum LoadingState {
    Idle,
    Pending(PendingLoad),
}

/// Whether pages are loaded until a search finds something.
#[derive(Clone, Copy, Debug, PartialEq, Eq, Structural)]
pub enum SearchState {
    Idle,
    Active { token: usize },
}

impl LoadingState {
    /// Whether a page is being loaded.
    pub fn is_pending(&self) -> (r: bool)
        ensures
            r == self is Pending,
    {
        match self {
            LoadingState::Pending(_) => true,
            LoadingState::Idle => false,
        }
    }
}

/// The token of a search.
pub open spec fn token_of(search: SearchState) -> Option<usize> {
    match search {
        SearchState::Idle => None,
        SearchState::Active { token } => Some(token),
    }
}

impl SearchState {
    /// The token of the search.
    pub fn active_token(&self) -> (r: Option<usize>)
        ensures
            r == token_of(*self),
    {
        match self {
            SearchState::Idle => None,
            SearchState::Active { token } => Some(*token),
        }
    }

    /// Whether a search goes on.
    pub fn is_active(&self) -> (r: bool)
        ensures
            r == self is Active,
    {
        self.active_token().is_some()
    }
}

/// What is to be loaded.
#[derive(Debug)]
pub enum PickerLoadRequest {
    Page {
        cursor: Option<String>,
        request_token: usize,
        search_token: Option<usize>,
        /// The provider whose sessions are listed; all are without one.
        provider: Option<String>,
        sort_key: ThreadSortKey,
    },
    Preview { thread_id: ThreadId },
}

/// A request by its texts.
pub ghost enum RequestView {
    Page {
        cursor: Option<Seq<char>>,
        request_token: usize,
        search_token: Option<usize>,
        provider: Option<Seq<char>>,
        sort_key: ThreadSortKey,
    },
    Preview { thread_id: ThreadId },
}

impl View for PickerLoadRequest {
    type V = RequestView;

    open spec fn view(&self) -> RequestView {
        match self {
            PickerLoadRequest::Page {
                cursor,
                request_token,
                search_token,
                provider,
                sort_key,
            } => RequestView::Page {
                cursor: text::option_view(*cursor),
                request_token: *request_token,
                search_token: *search_token,
                provider: text::option_view(*provider),
                sort_key: *sort_key,
            },
            PickerLoadRequest::Preview { thread_id } => RequestView::Preview {
                thread_id: *thread_id,
            },
        }
    }
}

/// Requests by their texts.
pub open spec fn request_views(requests: Seq<PickerLoadRequest>) -> Seq<RequestView> {
    Seq::new(requests.len(), |i: int| requests[i]@)
}

/// A page that was loaded.
#[derive(Debug)]
pub struct PickerPage {
    pub rows: Vec<Row>,
    pub next_cursor: Option<String>,
    pub num_scanned_files: usize,
    pub reached_scan_cap: bool,
}

/// The positions of the threads among the first `n` that can be listed.
pub open spec fn listed(threads: Seq<ThreadSummary>, n: int) -> Seq<int>
    decreases n,
{
    if n <= 0 {
        Seq::empty()
    } else if thread_id::uuid_value(threads[n - 1].id@) is Some {
        listed(threads, n - 1).push(n - 1)
    } else {
        listed(threads, n - 1)
    }
}

/// Whether rows are those of the threads at some positions, in order.
pub open spec fn are_rows_of(rows: Seq<Row>, threads: Seq<ThreadSummary>, at: Seq<int>) -> bool {
    rows.len() == at.len() && forall|i: int|
        0 <= i < rows.len() ==> session_rows::is_row_of(#[trigger] rows[i], threads[at[i]])
}

/// The page that an answer of the server makes: the rows of the threads that can be listed. All
/// of its threads count as scanned, and there is no cap.
pub fn picker_page(threads: Vec<ThreadSummary>, next_cursor: Option<String>) -> (r: PickerPage)
    ensures
        are_rows_of(r.rows@, threads@, listed(threads@, threads@.len() as int)),
        r.num_scanned_files == threads@.len(),
        r.next_cursor == next_cursor,
        !r.reached_scan_cap,
{
    let ghost all = threads@;
    let num_scanned_files = threads.len();
    let mut rows: Vec<Row> = Vec::new();
    for thread in it: threads
        invariant
            it.seq() == all,
            are_rows_of(rows@, all, listed(all, it.index() as int)),
    {
        let ghost i = it.index() as int;
        assert(thread == all[i]);
        let ghost before = rows@;
        match session_rows::row_from_app_server_thread(thread) {
            Some(row) => {
                rows.push(row);
            },
            None => {},
        }
        assert forall|k: int| 0 <= k < rows@.len() implies session_rows::is_row_of(
            #[trigger] rows@[k],
            all[listed(all, i + 1)[k]],
        ) by {
            if k < before.len() {
                assert(rows@[k] == before[k]);
            }
        }
    }
    PickerPage { rows, next_cursor, num_scanned_files, reached_scan_cap: false }
}

/// What happened in the background.
#[derive(Debug)]
pub enum BackgroundEvent {
    PageLoaded {
        request_token: usize,
        search_token: Option<usize>,
        page: Result<PickerPage, String>,
    },
    PreviewLoaded { thread_id: ThreadId, preview: Result<Vec<TranscriptPreviewLine>, String> },
}

/// The picker. Rows are loaded into `all_rows`; `filtered_rows` are the positions of those
/// that are shown. What is to be loaded is put into `requests`, and `frame_requested` says
/// that something changed on the screen.
#[derive(Debug)]
pub struct PickerState {
    /// The time now.
    pub clock: Timestamp,
    pub relative_time_reference: Option<Timestamp>,
    pub next_cursor: Option<String>,
    pub num_scanned_files: usize,
    pub reached_scan_cap: bool,
    pub loading: LoadingState,
    pub all_rows: Vec<Row>,
    pub filtered_rows: Vec<usize>,
    pub selected: usize,
    pub scroll_top: usize,
    pub query: String,
    pub search_state: SearchState,
    pub next_request_token: usize,
    pub next_search_token: usize,
    pub view_rows: Option<usize>,
    pub view_width: Option<u16>,
    pub provider_filter: ProviderFilter,
    pub show_all: bool,
    pub filter_cwd: Option<String>,
    pub action: SessionPickerAction,
    pub sort_key: ThreadSortKey,
    pub inline_error: Option<String>,
    pub expanded_thread_id: Option<ThreadId>,
    pub transcript_previews: HashMap<u128, TranscriptPreviewState>,
    /// What Markdown of the previews was rendered to, by source and width.
    pub renderings: Vec<Rendering>,
    pub requests: Vec<PickerLoadRequest>,
    pub frame_requested: bool,
}

// ---- which rows are shown ----

/// Whether a row worked in the directory that the list is limited to.
pub open spec fn in_directory(show_all: bool, filter_cwd: Option<String>, row: Row) -> bool {
    show_all || match filter_cwd {
        None => true,
        Some(f) => match row.cwd {
            Some(c) => paths::same_path(c@, f@),
            None => false,
        },
    }
}

/// Whether a row is shown.
pub open spec fn is_shown(s: PickerState, row: Row) -> bool {
    in_directory(s.show_all, s.filter_cwd, row) && (s.query@.len() == 0
        || session_rows::row_matches(row, text::unicode_lowercase(s.query@)))
}

/// The positions of the shown rows among the first `n`.
pub open spec fn shown_rows(s: PickerState, n: int) -> Seq<usize>
    decreases n,
{
    if n <= 0 {
        Seq::empty()
    } else if is_shown(s, s.all_rows@[n - 1]) {
        shown_rows(s, n - 1).push((n - 1) as usize)
    } else {
        shown_rows(s, n - 1)
    }
}

/// The positions of the rows that the picker shows for its query.
pub open spec fn matching(s: PickerState) -> Seq<usize> {
    shown_rows(s, s.all_rows@.len() as int)
}

// ---- how high rows are ----

/// The sum of two counts, as far as it can be counted.
pub open spec fn counted(a: int, b: int) -> int {
    if a + b > usize::MAX {
        usize::MAX as int
    } else {
        a + b
    }
}

fn count(a: usize, b: usize) -> (r: usize)
    ensures
        r == counted(a as int, b as int),
{
    if a > usize::MAX - b {
        usize::MAX
    } else {
        a + b
    }
}

/// The texts of the assistant's among the first `n` lines of a preview that were not rendered
/// for a list of a width.
pub open spec fn unrendered_among(
    lines: Seq<TranscriptPreviewLine>,
    renderings: Seq<Rendering>,
    n: int,
    width: int,
) -> Seq<Seq<char>>
    decreases n,
{
    if n <= 0 {
        Seq::empty()
    } else {
        let before = unrendered_among(lines, renderings, n - 1, width);
        let line = lines[n - 1];
        if line.speaker == TranscriptPreviewSpeaker::Assistant && session_lines::rendering_of(
            renderings,
            line.text@,
            session_lines::left_of(width, 4),
        ) is None {
            before.push(line.text@)
        } else {
            before
        }
    }
}

impl PickerState {
    /// The `i`th shown row.
    pub open spec fn row(&self, i: int) -> Row {
        self.all_rows@[self.filtered_rows@[i] as int]
    }

    /// Whether the shown rows are rows, and one of them is selected if there are any.
    pub open spec fn wf(&self) -> bool {
        &&& forall|i: int|
            0 <= i < self.filtered_rows@.len() ==> (#[trigger] self.filtered_rows@[i])
                < self.all_rows@.len()
        &&& if self.filtered_rows@.len() == 0 {
            self.selected == 0
        } else {
            self.selected < self.filtered_rows@.len()
        }
    }

    /// The time that ages are counted from.
    pub open spec fn reference(&self) -> Timestamp {
        match self.relative_time_reference {
            Some(t) => t,
            None => self.clock,
        }
    }

    /// The width that rows are counted with.
    pub open spec fn width(&self) -> u16 {
        match self.view_width {
            Some(w) => w,
            None => u16::MAX,
        }
    }

    /// What is known of a row's transcript.
    pub open spec fn preview(&self, row: Row) -> Option<TranscriptPreviewState> {
        match row.thread_id {
            Some(id) => if self.transcript_previews@.contains_key(id.value) {
                Some(self.transcript_previews@[id.value])
            } else {
                None
            },
            None => None,
        }
    }

    /// The texts of a thread's preview that are still to be rendered for a list of a width.
    pub open spec fn unrendered(&self, thread_id: ThreadId, width: int) -> Seq<Seq<char>> {
        if self.transcript_previews@.contains_key(thread_id.value) {
            match self.transcript_previews@[thread_id.value] {
                TranscriptPreviewState::Loaded(lines) => unrendered_among(
                    lines@,
                    self.renderings@,
                    lines@.len() as int,
                    width,
                ),
                _ => Seq::empty(),
            }
        } else {
            Seq::empty()
        }
    }

    /// Whether the `i`th shown row is expanded.
    pub open spec fn is_expanded(&self, i: int) -> bool {
        i == self.selected && self.row(i).thread_id is Some && self.expanded_thread_id == self.row(
            i,
        ).thread_id
    }

    /// The lines of the `i`th shown row.
    pub open spec fn lines(&self, i: int, width: u16) -> Seq<Seq<spans::SpanView>> {
        session_lines::session_view(
            self.row(i),
            self.preview(self.row(i)),
            self.renderings@,
            self.sort_key,
            self.reference(),
            i == self.selected,
            self.is_expanded(i),
            width as int,
        )
    }

    /// The lines of the shown rows from `from` up to `to`, without what stands between them.
    pub open spec fn row_lines_between(&self, from: int, to: int) -> int
        decreases to - from,
    {
        if from >= to {
            0
        } else {
            counted(
                self.row_lines_between(from, to - 1),
                self.lines(to - 1, self.width()).len() as int,
            )
        }
    }

    /// The lines of the shown rows from `from` to `last`, with one between each two.
    pub open spec fn height_between(&self, from: int, last: int) -> int {
        counted(self.row_lines_between(from, last + 1), last - from)
    }

    /// The lines that a view has for rows: without those that say that there are more above
    /// or below.
    pub open spec fn content_rows(&self, viewport: int) -> int {
        let above = session_lines::left_of(
            viewport,
            if self.scroll_top > 0 {
                1
            } else {
                0
            },
        );
        let below = session_lines::left_of(
            above,
            if self.next_cursor is Some || self.selected + 1 < self.filtered_rows@.len() {
                1
            } else {
                0
            },
        );
        if below < 1 {
            1
        } else {
            below
        }
    }

    /// The lines of the view.
    pub open spec fn viewport(&self) -> int {
        match self.view_rows {
            Some(n) => if n < 1 {
                1
            } else {
                n as int
            },
            None => usize::MAX as int,
        }
    }

    /// Whether the rows from a top to the selected one fit into the view.
    pub open spec fn fits_from(&self, top: int) -> bool {
        self.height_between(top, self.selected as int) <= (PickerState {
            scroll_top: top as usize,
            ..*self
        }).content_rows(self.viewport())
    }

    /// The first top from `top` on from which the selected row is visible.
    pub open spec fn first_fitting(&self, top: int) -> int
        decreases self.selected - top,
    {
        if top >= self.selected || self.fits_from(top) {
            top
        } else {
            self.first_fitting(top + 1)
        }
    }

    /// Where the list starts so that the selected row is visible, moved as little as needed.
    pub open spec fn visible_top(&self) -> int {
        if self.filtered_rows@.len() == 0 {
            0
        } else {
            self.first_fitting(
                if self.selected < self.scroll_top {
                    self.selected as int
                } else {
                    self.scroll_top as int
                },
            )
        }
    }

    /// The picker with its selected row visible.
    pub open spec fn made_visible(&self) -> PickerState {
        PickerState { scroll_top: self.visible_top() as usize, ..*self }
    }

    /// A picker without rows.
    pub fn new(
        clock: Timestamp,
        provider_filter: ProviderFilter,
        show_all: bool,
        filter_cwd: Option<String>,
        action: SessionPickerAction,
    ) -> (r: Self)
        ensures
            r.wf(),
            r.clock == clock && r.relative_time_reference is None,
            r.next_cursor is None && r.num_scanned_files == 0 && !r.reached_scan_cap,
            r.loading == LoadingState::Idle,
            r.all_rows@.len() == 0 && r.filtered_rows@.len() == 0,
            r.selected == 0 && r.scroll_top == 0,
            r.query@.len() == 0 && r.search_state == SearchState::Idle,
            r.next_request_token == 0 && r.next_search_token == 0,
            r.view_rows is None && r.view_width is None,
            r.provider_filter == provider_filter && r.show_all == show_all,
            r.filter_cwd == filter_cwd && r.action == action,
            r.sort_key == ThreadSortKey::UpdatedAt,
            r.inline_error is None && r.expanded_thread_id is None,
            r.transcript_previews@ == Map::<u128, TranscriptPreviewState>::empty(),
            r.renderings@.len() == 0,
            r.requests@.len() == 0 && !r.frame_requested,
    {
        PickerState {
            clock,
            relative_time_reference: None,
            next_cursor: None,
            num_scanned_files: 0,
            reached_scan_cap: false,
            loading: LoadingState::Idle,
            all_rows: Vec::new(),
            filtered_rows: Vec::new(),
            selected: 0,
            scroll_top: 0,
            query: String::new(),
            search_state: SearchState::Idle,
            next_request_token: 0,
            next_search_token: 0,
            view_rows: None,
            view_width: None,
            provider_filter,
            show_all,
            filter_cwd,
            action,
            sort_key: ThreadSortKey::UpdatedAt,
            inline_error: None,
            expanded_thread_id: None,
            transcript_previews: HashMap::new(),
            renderings: Vec::new(),
            requests: Vec::new(),
            frame_requested: false,
        }
    }

    /// The texts of a thread's preview that are still to be rendered for a list of a width.
    pub fn unrendered_texts(&self, thread_id: ThreadId, width: u16) -> (r: Vec<String>)
        ensures
            text::string_views(r@) == self.unrendered(thread_id, width as int),
    {
        let mut r: Vec<String> = Vec::new();
        assert(text::string_views(r@) =~= Seq::<Seq<char>>::empty());
        let lines = match self.transcript_previews.get(&thread_id.value) {
            Some(TranscriptPreviewState::Loaded(lines)) => lines,
            _ => {
                return r;
            },
        };
        let room = session_lines::preview_width(width);
        let mut i: usize = 0;
        while i < lines.len()
            invariant
                i <= lines.len(),
                room == session_lines::left_of(width as int, 4),
                text::string_views(r@) == unrendered_among(
                    lines@,
                    self.renderings@,
                    i as int,
                    width as int,
                ),
            decreases lines.len() - i,
        {
            let line = &lines[i];
            if line.speaker == TranscriptPreviewSpeaker::Assistant
                && session_lines::find_rendering(
                &self.renderings,
                line.text.as_str(),
                room,
            ).is_none() {
                let ghost before = r@;
                r.push(line.text.clone());
                assert(text::string_views(r@) =~= text::string_views(before).push(line.text@));
            }
            i = i + 1;
        }
        r
    }

    /// Takes over what a Markdown source renders to in a width, unless that is known already.
    pub fn take_rendering(&mut self, source: String, width: usize, lines: Vec<RenderedLine>)
        requires
            old(self).wf(),
        ensures
            final(self).wf(),
            *final(self) == (PickerState { renderings: final(self).renderings, ..*old(self) }),
            forall|s: Seq<char>, w: int|
                #[trigger] session_lines::rendering_of(final(self).renderings@, s, w) == (
                match session_lines::rendering_of(old(self).renderings@, s, w) {
                    Some(known) => Some(known),
                    None => if s == source@ && w == width {
                        Some(lines@)
                    } else {
                        None
                    },
                }),
    {
        let ghost before = self.renderings@;
        let rendering = Rendering { source, width, lines };
        self.renderings.push(rendering);
        assert forall|s: Seq<char>, w: int|
            #[trigger] session_lines::rendering_of(self.renderings@, s, w) == (
            match session_lines::rendering_of(before, s, w) {
                Some(known) => Some(known),
                None => if s == source@ && w == width {
                    Some(lines@)
                } else {
                    None
                },
            }) by {
            session_lines::lemma_rendering_added(before, rendering, s, w, 0);
        }
    }

    /// The lines of the `i`th shown row.
    pub fn render_row(&self, i: usize, width: u16) -> (r: Vec<Vec<spans::Span>>)
        requires
            self.wf(),
            i < self.filtered_rows@.len(),
        ensures
            spans::lines_view(r@) == self.lines(i as int, width),
    {
        let row = &self.all_rows[self.filtered_rows[i]];
        let is_selected = i == self.selected;
        let is_expanded = is_selected && row.thread_id.is_some() && self.expanded_thread_id
            == row.thread_id;
        let preview = match row.thread_id {
            Some(id) => self.transcript_previews.get(&id.value),
            None => None,
        };
        let reference = match self.relative_time_reference {
            Some(t) => t,
            None => self.clock,
        };
        session_lines::render_session_lines(
            row,
            preview,
            &self.renderings,
            self.sort_key,
            reference,
            is_selected,
            is_expanded,
            width,
        )
    }

    /// The lines of the shown rows from `start` to `end`, with one between each two.
    pub fn rendered_height_between(&self, start: usize, end: usize) -> (r: usize)
        requires
            self.wf(),
            start <= end < self.filtered_rows@.len(),
        ensures
            r == self.height_between(start as int, end as int),
    {
        let width = match self.view_width {
            Some(w) => w,
            None => u16::MAX,
        };
        let mut sum: usize = 0;
        let mut i: usize = start;
        while i <= end
            invariant
                self.wf(),
                start <= i <= end + 1,
                end < self.filtered_rows.len(),
                width == self.width(),
                sum == self.row_lines_between(start as int, i as int),
            decreases end + 1 - i,
        {
            let lines = self.render_row(i, width);
            assert(spans::lines_view(lines@).len() == lines@.len());
            sum = count(sum, lines.len());
            i = i + 1;
        }
        count(sum, end - start)
    }

    /// Whether rows stand above the list.
    pub fn has_more_above(&self) -> (r: bool)
        ensures
            r == (self.scroll_top > 0),
    {
        self.scroll_top > 0
    }

    /// The lines that a view has for rows.
    pub fn available_content_rows(&self, viewport_height: usize) -> (r: usize)
        requires
            self.wf(),
        ensures
            r == self.content_rows(viewport_height as int),
    {
        let mut rows: usize = viewport_height;
        if self.has_more_above() && rows > 0 {
            rows = rows - 1;
        }
        let more = self.next_cursor.is_some() || (self.filtered_rows.len() > 0 && self.selected + 1
            < self.filtered_rows.len());
        if more && rows > 0 {
            rows = rows - 1;
        }
        if rows < 1 {
            1
        } else {
            rows
        }
    }

    /// The rows from `from` on that do not fit into what is left of a view.
    pub open spec fn overflows(&self, from: int, used: int, capacity: int) -> bool
        decreases self.filtered_rows@.len() - from,
    {
        if from >= self.filtered_rows@.len() {
            false
        } else {
            let needed = used + (if from > self.scroll_top {
                1int
            } else {
                0int
            }) + self.lines(from, self.width()).len();
            needed > capacity || self.overflows(from + 1, needed, capacity)
        }
    }

    /// Whether rows stand below the list, or can be loaded.
    pub open spec fn more_below(&self, viewport: int) -> bool {
        self.filtered_rows@.len() > 0 && (self.next_cursor is Some || self.overflows(
            self.scroll_top as int,
            0,
            self.content_rows(viewport),
        ))
    }

    /// Whether rows stand below the list, or can be loaded.
    pub fn has_more_below(&self, viewport_height: usize) -> (r: bool)
        requires
            self.wf(),
        ensures
            r == self.more_below(viewport_height as int),
    {
        if self.filtered_rows.len() == 0 {
            return false;
        }
        if self.next_cursor.is_some() {
            return true;
        }
        let capacity = self.available_content_rows(viewport_height);
        let width = match self.view_width {
            Some(w) => w,
            None => u16::MAX,
        };
        let mut used: usize = 0;
        let mut i: usize = self.scroll_top;
        while i < self.filtered_rows.len()
            invariant
                self.wf(),
                self.scroll_top <= i,
                self.filtered_rows@.len() > 0,
                self.next_cursor is None,
                capacity == self.content_rows(viewport_height as int),
                width == self.width(),
                used <= capacity,
                self.overflows(self.scroll_top as int, 0, capacity as int) == self.overflows(
                    i as int,
                    used as int,
                    capacity as int,
                ),
            decreases self.filtered_rows.len() - i,
        {
            let lines = self.render_row(i, width);
            assert(spans::lines_view(lines@).len() == lines@.len());
            let separator: usize = if i > self.scroll_top {
                1
            } else {
                0
            };
            let left: usize = capacity - used;
            if separator > left || lines.len() > left - separator {
                return true;
            }
            used = used + separator + lines.len();
            i = i + 1;
        }
        false
    }

    /// Scrolls as little as needed to make the selected row visible.
    pub fn ensure_selected_visible(&mut self)
        requires
            old(self).wf(),
        ensures
            final(self).wf(),
            *final(self) == old(self).made_visible(),
            final(self).filtered_rows@.len() > 0 ==> final(self).scroll_top <= final(self).selected,
    {
        if self.filtered_rows.len() == 0 {
            self.scroll_top = 0;
            return;
        }
        let viewport: usize = match self.view_rows {
            Some(n) => if n < 1 {
                1
            } else {
                n
            },
            None => usize::MAX,
        };
        if self.selected < self.scroll_top {
            self.scroll_top = self.selected;
        }
        let ghost first = self.scroll_top;
        while self.scroll_top < self.selected && self.rendered_height_between(
            self.scroll_top,
            self.selected,
        ) > self.available_content_rows(viewport)
            invariant
                self.wf(),
                old(self).wf(),
                self.filtered_rows@.len() > 0,
                *self == (PickerState { scroll_top: self.scroll_top, ..*old(self) }),
                first <= self.scroll_top <= self.selected,
                viewport == old(self).viewport(),
                old(self).first_fitting(first as int) == old(self).first_fitting(
                    self.scroll_top as int,
                ),
            decreases self.selected - self.scroll_top,
        {
            proof {
                lemma_same_heights(
                    *old(self),
                    *self,
                    self.scroll_top as int,
                    self.selected as int + 1,
                );
            }
            self.scroll_top = self.scroll_top + 1;
        }
        proof {
            lemma_same_heights(*old(self), *self, self.scroll_top as int, self.selected as int + 1);
        }
    }
}

/// Where the list starts changes nothing about how high rows are.
proof fn lemma_same_heights(a: PickerState, b: PickerState, from: int, to: int)
    requires
        b == (PickerState { scroll_top: b.scroll_top, ..a }),
    ensures
        a.row_lines_between(from, to) == b.row_lines_between(from, to),
    decreases to - from,
{
    if from < to {
        lemma_same_heights(a, b, from, to - 1);
    }
}

// ---- loading and filtering ----

/// The picker with other rows shown: the selection stays where it is if it can, and is
/// visible.
pub open spec fn refiltered(s: PickerState, filtered_rows: Vec<usize>) -> PickerState {
    let shown = PickerState {
        filtered_rows,
        selected: if s.selected < filtered_rows@.len() {
            s.selected
        } else {
            session_lines::left_of(filtered_rows@.len() as int, 1) as usize
        },
        scroll_top: if filtered_rows@.len() == 0 {
            0
        } else {
            s.scroll_top
        },
        ..s
    };
    PickerState { frame_requested: true, ..shown.made_visible() }
}

/// Whether more can be loaded now.
pub open spec fn can_load(s: PickerState) -> bool {
    !(s.loading is Pending) && s.next_cursor is Some
}

/// The provider whose sessions are listed.
pub open spec fn listed_provider(f: ProviderFilter) -> Option<Seq<char>> {
    match f {
        ProviderFilter::Any => None,
        ProviderFilter::MatchDefault(p) => Some(p@),
    }
}

/// The request for the page at a cursor.
pub open spec fn page_request(s: PickerState, cursor: Option<Seq<char>>, search: Option<usize>)
    -> RequestView {
    RequestView::Page {
        cursor,
        request_token: s.next_request_token,
        search_token: search,
        provider: listed_provider(s.provider_filter),
        sort_key: s.sort_key,
    }
}

/// The picker with the next page asked for, where there is one and none is being loaded.
pub open spec fn asked_for_more(
    s: PickerState,
    search: Option<usize>,
    requests: Vec<PickerLoadRequest>,
) -> PickerState {
    if can_load(s) {
        PickerState {
            requests,
            next_request_token: s.next_request_token.wrapping_add(1),
            loading: LoadingState::Pending(
                PendingLoad { request_token: s.next_request_token, search_token: search },
            ),
            frame_requested: true,
            ..s
        }
    } else {
        s
    }
}

/// Whether the requests are those of a picker that asks for its next page, where there is one
/// and none is being loaded.
pub open spec fn asks_for_more(
    s: PickerState,
    search: Option<usize>,
    requests: Vec<PickerLoadRequest>,
) -> bool {
    if can_load(s) {
        request_views(requests@) == request_views(s.requests@).push(
            page_request(s, text::option_view(s.next_cursor), search),
        )
    } else {
        requests == s.requests
    }
}

/// Whether a search has to look further: nothing was found, and there is more.
pub open spec fn looks_further(s: PickerState) -> bool {
    s.filtered_rows@.len() == 0 && !s.reached_scan_cap && s.next_cursor is Some
}

/// The picker with its search carried on, or ended.
pub open spec fn search_continued(s: PickerState, requests: Vec<PickerLoadRequest>) -> PickerState {
    match s.search_state {
        SearchState::Idle => s,
        SearchState::Active { token } => if looks_further(s) {
            asked_for_more(s, Some(token), requests)
        } else {
            PickerState { search_state: SearchState::Idle, ..s }
        },
    }
}

/// Whether the requests are those of a picker that carries its search on.
pub open spec fn continues_search(s: PickerState, requests: Vec<PickerLoadRequest>) -> bool {
    match s.search_state {
        SearchState::Idle => requests == s.requests,
        SearchState::Active { token } => if looks_further(s) {
            asks_for_more(s, Some(token), requests)
        } else {
            requests == s.requests
        },
    }
}

/// Rows with the first `n` new ones that are not there yet.
pub open spec fn merged(rows: Seq<Row>, new: Seq<Row>, n: int) -> Seq<Row>
    decreases n,
{
    if n <= 0 {
        rows
    } else {
        let before = merged(rows, new, n - 1);
        if session_rows::row_key(new[n - 1]) is Some && has_row(before, new[n - 1]) {
            before
        } else {
            before.push(new[n - 1])
        }
    }
}

/// Whether a row is among rows.
pub open spec fn has_row(rows: Seq<Row>, row: Row) -> bool {
    exists|i: int| 0 <= i < rows.len() && session_rows::same_row(#[trigger] rows[i], row)
}

fn is_listed(rows: &Vec<Row>, row: &Row) -> (r: bool)
    ensures
        r == has_row(rows@, *row),
{
    let mut i: usize = 0;
    while i < rows.len()
        invariant
            i <= rows.len(),
            forall|j: int| 0 <= j < i ==> !session_rows::same_row(#[trigger] rows@[j], *row),
        decreases rows.len() - i,
    {
        if rows[i].is_same_row(row) {
            return true;
        }
        i = i + 1;
    }
    false
}

/// The picker with a page's position taken over.
pub open spec fn page_taken(s: PickerState, page: PickerPage, all_rows: Vec<Row>) -> PickerState {
    PickerState {
        next_cursor: page.next_cursor,
        num_scanned_files: counted(
            s.num_scanned_files as int,
            page.num_scanned_files as int,
        ) as usize,
        reached_scan_cap: s.reached_scan_cap || page.reached_scan_cap,
        all_rows,
        ..s
    }
}

impl PickerState {
    /// Whether a row worked in the directory that the list is limited to.
    pub fn row_matches_filter(&self, row: &Row) -> (r: bool)
        ensures
            r == in_directory(self.show_all, self.filter_cwd, *row),
    {
        if self.show_all {
            return true;
        }
        match &self.filter_cwd {
            None => true,
            Some(f) => match &row.cwd {
                Some(c) => paths::is_same_path(c.as_str(), f.as_str()),
                None => false,
            },
        }
    }

    /// Shows the rows that match the query.
    pub fn apply_filter(&mut self)
        ensures
            final(self).wf(),
            final(self).filtered_rows@ == matching(*old(self)),
            *final(self) == refiltered(*old(self), final(self).filtered_rows),
    {
        let query_len = text::chars_of(self.query.as_str()).len();
        let lower = text::to_lowercase(self.query.as_str());
        let mut filtered: Vec<usize> = Vec::new();
        let mut i: usize = 0;
        while i < self.all_rows.len()
            invariant
                i <= self.all_rows.len(),
                query_len == self.query@.len(),
                lower@ == text::unicode_lowercase(self.query@),
                filtered@ == shown_rows(*self, i as int),
                forall|j: int|
                    0 <= j < filtered@.len() ==> (#[trigger] filtered@[j]) < self.all_rows@.len(),
            decreases self.all_rows.len() - i,
        {
            let row = &self.all_rows[i];
            if self.row_matches_filter(row) && (query_len == 0 || row.matches_query(
                lower.as_str(),
            )) {
                filtered.push(i);
            }
            i = i + 1;
        }
        self.filtered_rows = filtered;
        if self.selected >= self.filtered_rows.len() {
            self.selected = if self.filtered_rows.len() > 0 {
                self.filtered_rows.len() - 1
            } else {
                0
            };
        }
        if self.filtered_rows.len() == 0 {
            self.scroll_top = 0;
        }
        self.ensure_selected_visible();
        self.frame_requested = true;
    }

    /// The next request's token.
    pub fn allocate_request_token(&mut self) -> (r: usize)
        ensures
            r == old(self).next_request_token,
            *final(self) == (PickerState {
                next_request_token: old(self).next_request_token.wrapping_add(1),
                ..*old(self)
            }),
    {
        let token = self.next_request_token;
        self.next_request_token = self.next_request_token.wrapping_add(1);
        token
    }

    /// The next search's token.
    pub fn allocate_search_token(&mut self) -> (r: usize)
        ensures
            r == old(self).next_search_token,
            *final(self) == (PickerState {
                next_search_token: old(self).next_search_token.wrapping_add(1),
                ..*old(self)
            }),
    {
        let token = self.next_search_token;
        self.next_search_token = self.next_search_token.wrapping_add(1);
        token
    }

    fn request_page(&mut self, cursor: Option<String>, search_token: Option<usize>)
        ensures
            request_views(final(self).requests@) == request_views(old(self).requests@).push(
                page_request(*old(self), text::option_view(cursor), search_token),
            ),
            *final(self) == (PickerState {
                requests: final(self).requests,
                next_request_token: old(self).next_request_token.wrapping_add(1),
                loading: LoadingState::Pending(
                    PendingLoad { request_token: old(self).next_request_token, search_token },
                ),
                frame_requested: true,
                ..*old(self)
            }),
    {
        let request_token = self.allocate_request_token();
        self.loading = LoadingState::Pending(PendingLoad { request_token, search_token });
        self.frame_requested = true;
        let provider = match &self.provider_filter {
            ProviderFilter::Any => None,
            ProviderFilter::MatchDefault(p) => Some(p.clone()),
        };
        let request = PickerLoadRequest::Page {
            cursor,
            request_token,
            search_token,
            provider,
            sort_key: self.sort_key,
        };
        self.requests.push(request);
        assert(request_views(self.requests@) =~= request_views(old(self).requests@).push(
            request@,
        ));
    }

    /// Asks for the next page, where there is one and none is being loaded.
    pub fn load_more_if_needed(&mut self, search_token: Option<usize>)
        ensures
            asks_for_more(*old(self), search_token, final(self).requests),
            *final(self) == asked_for_more(*old(self), search_token, final(self).requests),
    {
        if self.loading.is_pending() {
            return;
        }
        let cursor = match &self.next_cursor {
            Some(c) => Some(c.clone()),
            None => {
                return;
            },
        };
        self.request_page(cursor, search_token);
    }

    /// Forgets how far the list was loaded.
    pub fn reset_pagination(&mut self)
        ensures
            *final(self) == (PickerState {
                next_cursor: None,
                num_scanned_files: 0,
                reached_scan_cap: false,
                loading: LoadingState::Idle,
                ..*old(self)
            }),
    {
        self.next_cursor = None;
        self.num_scanned_files = 0;
        self.reached_scan_cap = false;
        self.loading = LoadingState::Idle;
    }

    /// Starts over: forgets all rows and asks for the first page.
    pub fn start_initial_load(&mut self)
        ensures
            final(self).wf(),
            is_restart(*old(self), *final(self)),
    {
        self.relative_time_reference = Some(self.clock);
        self.reset_pagination();
        self.all_rows = Vec::new();
        self.filtered_rows = Vec::new();
        self.selected = 0;
        let search_token = if text::chars_of(self.query.as_str()).len() == 0 {
            self.search_state = SearchState::Idle;
            None
        } else {
            let token = self.allocate_search_token();
            self.search_state = SearchState::Active { token };
            Some(token)
        };
        self.request_page(None, search_token);
    }

    /// Takes a page over: its rows that are not there yet come last.
    pub fn ingest_page(&mut self, page: PickerPage)
        ensures
            final(self).wf(),
            final(self).all_rows@ == merged(
                old(self).all_rows@,
                page.rows@,
                page.rows@.len() as int,
            ),
            ({
                let taken = page_taken(*old(self), page, final(self).all_rows);
                final(self).filtered_rows@ == matching(taken) && *final(self) == refiltered(
                    taken,
                    final(self).filtered_rows,
                )
            }),
    {
        self.next_cursor = page.next_cursor;
        self.num_scanned_files = count(self.num_scanned_files, page.num_scanned_files);
        if page.reached_scan_cap {
            self.reached_scan_cap = true;
        }
        let ghost new = page.rows@;
        let mut all_rows: Vec<Row> = Vec::new();
        std::mem::swap(&mut all_rows, &mut self.all_rows);
        for row in it: page.rows
            invariant
                it.seq() == new,
                all_rows@ == merged(old(self).all_rows@, new, it.index() as int),
        {
            if !row.has_key() || !is_listed(&all_rows, &row) {
                all_rows.push(row);
            }
        }
        self.all_rows = all_rows;
        self.apply_filter();
    }

    /// Carries a search on, or ends it.
    pub fn continue_search_if_needed(&mut self)
        ensures
            continues_search(*old(self), final(self).requests),
            *final(self) == search_continued(*old(self), final(self).requests),
    {
        let token = match self.search_state.active_token() {
            Some(token) => token,
            None => {
                return;
            },
        };
        if self.filtered_rows.len() > 0 || self.reached_scan_cap || self.next_cursor.is_none() {
            self.search_state = SearchState::Idle;
            return;
        }
        self.load_more_if_needed(Some(token));
    }

    /// Carries a search on after a page that was loaded for it, or for no search.
    pub fn continue_search_if_token_matches(&mut self, completed_token: Option<usize>)
        ensures
            if completed_token is Some && completed_token != token_of(old(self).search_state) {
                *final(self) == *old(self)
            } else {
                continues_search(*old(self), final(self).requests) && *final(self)
                    == search_continued(*old(self), final(self).requests)
            },
    {
        let active = match self.search_state.active_token() {
            Some(token) => token,
            None => {
                return;
            },
        };
        if let Some(token) = completed_token {
            if token != active {
                return;
            }
        }
        self.continue_search_if_needed();
    }

    /// Loads more when the selected row is near the end of the list.
    pub fn maybe_load_more_for_scroll(&mut self)
        requires
            old(self).wf(),
        ensures
            ({
                let s = *old(self);
                if s.filtered_rows@.len() > 0 && s.filtered_rows@.len() - (s.selected + 1)
                    <= LOAD_NEAR_THRESHOLD {
                    asks_for_more(s, None, final(self).requests) && *final(self) == asked_for_more(
                        s,
                        None,
                        final(self).requests,
                    )
                } else {
                    *final(self) == s
                }
            }),
    {
        if self.loading.is_pending() || self.next_cursor.is_none() || self.filtered_rows.len()
            == 0 {
            return;
        }
        let remaining: usize = self.filtered_rows.len() - (self.selected + 1);
        if remaining <= LOAD_NEAR_THRESHOLD {
            self.load_more_if_needed(None);
        }
    }

    /// Loads more when the list does not fill the view.
    pub fn ensure_minimum_rows_for_view(&mut self, minimum_rows: usize)
        ensures
            ({
                let s = *old(self);
                if s.filtered_rows@.len() < minimum_rows {
                    asks_for_more(s, token_of(s.search_state), final(self).requests) && *final(self)
                        == asked_for_more(s, token_of(s.search_state), final(self).requests)
                } else {
                    *final(self) == s
                }
            }),
    {
        if minimum_rows == 0 || self.filtered_rows.len() >= minimum_rows {
            return;
        }
        if self.loading.is_pending() || self.next_cursor.is_none() {
            return;
        }
        let token = self.search_state.active_token();
        self.load_more_if_needed(token);
    }

    /// Takes over the size of the view.
    pub fn update_viewport(&mut self, rows: usize, width: u16)
        requires
            old(self).wf(),
        ensures
            final(self).wf(),
            *final(self) == (PickerState {
                view_rows: if rows == 0 {
                    None
                } else {
                    Some(rows)
                },
                view_width: Some(width),
                ..*old(self)
            }).made_visible(),
    {
        self.view_rows = if rows == 0 {
            None
        } else {
            Some(rows)
        };
        self.view_width = Some(width);
        self.ensure_selected_visible();
    }
}

// ---- searching ----

/// The picker with another query typed and its rows shown.
pub open spec fn query_shown(s: PickerState, query: String, filtered_rows: Vec<usize>)
    -> PickerState {
    refiltered(PickerState { query, selected: 0, ..s }, filtered_rows)
}

/// Whether a picker starts to load pages for its query: it shows nothing and there is more.
pub open spec fn starts_search(s: PickerState) -> bool {
    s.query@.len() > 0 && looks_further(s)
}

/// The picker with a search started where one is needed.
pub open spec fn search_started(s: PickerState, requests: Vec<PickerLoadRequest>) -> PickerState {
    if starts_search(s) {
        asked_for_more(
            PickerState {
                search_state: SearchState::Active { token: s.next_search_token },
                next_search_token: s.next_search_token.wrapping_add(1),
                ..s
            },
            Some(s.next_search_token),
            requests,
        )
    } else {
        PickerState { search_state: SearchState::Idle, ..s }
    }
}

/// Whether the requests are those of a picker that starts a search where one is needed.
pub open spec fn asks_for_search(s: PickerState, requests: Vec<PickerLoadRequest>) -> bool {
    if starts_search(s) {
        asks_for_more(s, Some(s.next_search_token), requests)
    } else {
        requests == s.requests
    }
}

/// The first of the shown rows from `i` on that is known by the same thing as a row, or
/// their number.
pub open spec fn position_of(s: PickerState, row: Row, i: int) -> int
    decreases s.filtered_rows@.len() - i,
{
    if i < 0 || i >= s.filtered_rows@.len() {
        s.filtered_rows@.len() as int
    } else if session_rows::same_row(s.row(i), row) {
        i
    } else {
        position_of(s, row, i + 1)
    }
}

/// The picker with its query cleared, and the row selected that was.
pub open spec fn query_cleared(s: PickerState, query: String, filtered_rows: Vec<usize>)
    -> PickerState {
    let all = refiltered(
        PickerState { query, search_state: SearchState::Idle, ..s },
        filtered_rows,
    );
    if s.filtered_rows@.len() == 0 {
        all
    } else {
        let position = position_of(all, s.row(s.selected as int), 0);
        if position < filtered_rows@.len() {
            (PickerState { selected: position as usize, ..all }).made_visible()
        } else {
            all
        }
    }
}

impl PickerState {
    /// Searches for something else.
    pub fn set_query(&mut self, new_query: String)
        requires
            old(self).wf(),
        ensures
            final(self).wf(),
            if old(self).query@ == new_query@ {
                *final(self) == *old(self)
            } else {
                let shown = query_shown(*old(self), new_query, final(self).filtered_rows);
                &&& final(self).filtered_rows@ == matching(
                    PickerState { query: new_query, ..*old(self) },
                )
                &&& asks_for_search(shown, final(self).requests)
                &&& *final(self) == search_started(shown, final(self).requests)
            },
    {
        if text::same_str(self.query.as_str(), new_query.as_str()) {
            return;
        }
        let ghost typed = PickerState { query: new_query, selected: 0, ..*self };
        let ghost untouched = PickerState { query: new_query, ..*self };
        self.query = new_query;
        self.selected = 0;
        proof {
            lemma_same_rows_shown(typed, untouched, typed.all_rows@.len() as int);
        }
        self.apply_filter();
        if text::chars_of(self.query.as_str()).len() == 0 || self.filtered_rows.len() > 0
            || self.reached_scan_cap || self.next_cursor.is_none() {
            self.search_state = SearchState::Idle;
            return;
        }
        let token = self.allocate_search_token();
        self.search_state = SearchState::Active { token };
        self.load_more_if_needed(Some(token));
    }

    /// Ends a search, and selects the row that it had selected.
    pub fn clear_query_preserving_selection(&mut self)
        requires
            old(self).wf(),
        ensures
            final(self).wf(),
            final(self).query@.len() == 0,
            final(self).filtered_rows@ == matching(
                PickerState { query: final(self).query, ..*old(self) },
            ),
            *final(self) == query_cleared(
                *old(self),
                final(self).query,
                final(self).filtered_rows,
            ),
    {
        let had_selection = self.filtered_rows.len() > 0;
        let row_index: usize = if had_selection {
            self.filtered_rows[self.selected]
        } else {
            0
        };
        self.query = String::new();
        self.search_state = SearchState::Idle;
        let ghost cleared = *self;
        proof {
            lemma_same_rows_shown(
                cleared,
                PickerState { query: self.query, ..*old(self) },
                self.all_rows@.len() as int,
            );
        }
        self.apply_filter();
        let ghost all = *self;
        if had_selection {
            let mut i: usize = 0;
            while i < self.filtered_rows.len() && !self.all_rows[self.filtered_rows[i]].is_same_row(
                &self.all_rows[row_index],
            )
                invariant
                    i <= self.filtered_rows.len(),
                    *self == all,
                    self.wf(),
                    row_index < self.all_rows@.len(),
                    position_of(all, self.all_rows@[row_index as int], 0) == position_of(
                        all,
                        self.all_rows@[row_index as int],
                        i as int,
                    ),
                decreases self.filtered_rows.len() - i,
            {
                i = i + 1;
            }
            if i < self.filtered_rows.len() {
                self.selected = i;
                self.ensure_selected_visible();
            }
        }
    }

    /// Sorts by the other time, which starts the list over.
    pub fn toggle_sort_key(&mut self)
        ensures
            final(self).wf(),
            final(self).sort_key == match old(self).sort_key {
                ThreadSortKey::CreatedAt => ThreadSortKey::UpdatedAt,
                ThreadSortKey::UpdatedAt => ThreadSortKey::CreatedAt,
            },
            is_restart(
                PickerState { sort_key: final(self).sort_key, ..*old(self) },
                *final(self),
            ),
    {
        self.sort_key = match self.sort_key {
            ThreadSortKey::CreatedAt => ThreadSortKey::UpdatedAt,
            ThreadSortKey::UpdatedAt => ThreadSortKey::CreatedAt,
        };
        self.start_initial_load();
    }

    /// Expands the selected row, or folds it again. The transcript of a row is asked for
    /// once.
    pub fn toggle_selected_expansion(&mut self)
        requires
            old(self).wf(),
        ensures
            final(self).wf(),
            is_toggled(*old(self), *final(self)),
    {
        if self.filtered_rows.len() == 0 {
            return;
        }
        let thread_id = match self.all_rows[self.filtered_rows[self.selected]].thread_id {
            Some(id) => id,
            None => {
                return;
            },
        };
        if self.expanded_thread_id == Some(thread_id) {
            self.expanded_thread_id = None;
            self.frame_requested = true;
            return;
        }
        self.expanded_thread_id = Some(thread_id);
        if !self.transcript_previews.contains_key(&thread_id.value) {
            self.transcript_previews.insert(thread_id.value, TranscriptPreviewState::Loading);
            self.requests.push(PickerLoadRequest::Preview { thread_id });
            assert(request_views(self.requests@) =~= request_views(old(self).requests@).push(
                RequestView::Preview { thread_id },
            ));
        }
        self.frame_requested = true;
    }
}

/// Whether a picker is another one that was started over.
pub open spec fn is_restart(s: PickerState, t: PickerState) -> bool {
    let searching = s.query@.len() > 0;
    let token = if searching {
        Some(s.next_search_token)
    } else {
        None
    };
    &&& t.all_rows@.len() == 0
    &&& t.filtered_rows@.len() == 0
    &&& request_views(t.requests@) == request_views(s.requests@).push(page_request(s, None, token))
    &&& t == (PickerState {
        relative_time_reference: Some(s.clock),
        next_cursor: None,
        num_scanned_files: 0,
        reached_scan_cap: false,
        loading: LoadingState::Pending(
            PendingLoad { request_token: s.next_request_token, search_token: token },
        ),
        all_rows: t.all_rows,
        filtered_rows: t.filtered_rows,
        selected: 0,
        search_state: if searching {
            SearchState::Active { token: s.next_search_token }
        } else {
            SearchState::Idle
        },
        next_request_token: s.next_request_token.wrapping_add(1),
        next_search_token: if searching {
            s.next_search_token.wrapping_add(1)
        } else {
            s.next_search_token
        },
        requests: t.requests,
        frame_requested: true,
        ..s
    })
}

/// Whether a picker is another one with its selected row expanded, or folded again.
pub open spec fn is_toggled(s: PickerState, t: PickerState) -> bool {
    if s.filtered_rows@.len() == 0 || s.row(s.selected as int).thread_id is None {
        t == s
    } else {
        let id = s.row(s.selected as int).thread_id->0;
        if s.expanded_thread_id == Some(id) {
            t == (PickerState { expanded_thread_id: None, frame_requested: true, ..s })
        } else {
            &&& t == (PickerState {
                expanded_thread_id: Some(id),
                transcript_previews: t.transcript_previews,
                requests: t.requests,
                frame_requested: true,
                ..s
            })
            &&& if s.transcript_previews@.contains_key(id.value) {
                t.transcript_previews == s.transcript_previews && t.requests == s.requests
            } else {
                t.transcript_previews@ == s.transcript_previews@.insert(
                    id.value,
                    TranscriptPreviewState::Loading,
                ) && request_views(t.requests@) == request_views(s.requests@).push(
                    RequestView::Preview { thread_id: id },
                )
            }
        }
    }
}

/// What is shown depends only on the rows, the query and the directory.
proof fn lemma_same_rows_shown(a: PickerState, b: PickerState, n: int)
    requires
        a.all_rows == b.all_rows,
        a.query@ == b.query@,
        a.show_all == b.show_all,
        a.filter_cwd == b.filter_cwd,
        n <= a.all_rows@.len(),
    ensures
        shown_rows(a, n) == shown_rows(b, n),
    decreases n,
{
    if n > 0 {
        lemma_same_rows_shown(a, b, n - 1);
    }
}

// ---- keys ----

/// A key.
#[derive(Clone, Copy, Debug, PartialEq, Eq, Structural)]
pub enum KeyCode {
    Esc,
    Enter,
    Up,
    Down,
    PageUp,
    PageDown,
    Tab,
    Backspace,
    Char(char),
    Other,
}

/// The modifiers that are held; `other` stands for any but these three.
#[derive(Clone, Copy, Debug, PartialEq, Eq, Structural)]
pub struct KeyModifiers {
    pub control: bool,
    pub alt: bool,
    pub shift: bool,
    pub other: bool,
}

/// What a key does.
#[derive(Clone, Copy, Debug, PartialEq, Eq, Structural)]
pub enum KeyAction {
    Escape,
    Quit,
    Confirm,
    MoveUp,
    MoveDown,
    PageUp,
    PageDown,
    ToggleSort,
    ToggleExpansion,
    Erase,
    Type(char),
    Nothing,
}

/// Whether the control key alone is held.
pub open spec fn only_control(m: KeyModifiers) -> bool {
    m.control && !m.alt && !m.shift && !m.other
}

/// Whether no modifier is held.
pub open spec fn no_modifier(m: KeyModifiers) -> bool {
    !m.control && !m.alt && !m.shift && !m.other
}

/// What a key does. The first line that holds decides.
pub open spec fn action_of(code: KeyCode, m: KeyModifiers) -> KeyAction {
    match code {
        KeyCode::Esc => KeyAction::Escape,
        KeyCode::Enter => KeyAction::Confirm,
        KeyCode::Up => KeyAction::MoveUp,
        KeyCode::Down => KeyAction::MoveDown,
        KeyCode::PageUp => KeyAction::PageUp,
        KeyCode::PageDown => KeyAction::PageDown,
        KeyCode::Tab => KeyAction::ToggleSort,
        KeyCode::Backspace => KeyAction::Erase,
        KeyCode::Other => KeyAction::Nothing,
        KeyCode::Char(c) => if c == 'c' && m.control {
            KeyAction::Quit
        } else if (c == 'p' && only_control(m)) || (c == '\u{10}' && no_modifier(m)) {
            KeyAction::MoveUp
        } else if (c == 'n' && only_control(m)) || (c == '\u{e}' && no_modifier(m)) {
            KeyAction::MoveDown
        } else if c == ' ' {
            KeyAction::ToggleExpansion
        } else if !m.control && !m.alt {
            KeyAction::Type(c)
        } else {
            KeyAction::Nothing
        },
    }
}

/// What a key does.
pub fn key_action(code: KeyCode, m: KeyModifiers) -> (r: KeyAction)
    ensures
        r == action_of(code, m),
{
    let only_control = m.control && !m.alt && !m.shift && !m.other;
    let no_modifier = !m.control && !m.alt && !m.shift && !m.other;
    match code {
        KeyCode::Esc => KeyAction::Escape,
        KeyCode::Enter => KeyAction::Confirm,
        KeyCode::Up => KeyAction::MoveUp,
        KeyCode::Down => KeyAction::MoveDown,
        KeyCode::PageUp => KeyAction::PageUp,
        KeyCode::PageDown => KeyAction::PageDown,
        KeyCode::Tab => KeyAction::ToggleSort,
        KeyCode::Backspace => KeyAction::Erase,
        KeyCode::Other => KeyAction::Nothing,
        KeyCode::Char(c) => if c == 'c' && m.control {
            KeyAction::Quit
        } else if (c == 'p' && only_control) || (c == '\u{10}' && no_modifier) {
            KeyAction::MoveUp
        } else if (c == 'n' && only_control) || (c == '\u{e}' && no_modifier) {
            KeyAction::MoveDown
        } else if c == ' ' {
            KeyAction::ToggleExpansion
        } else if !m.control && !m.alt {
            KeyAction::Type(c)
        } else {
            KeyAction::Nothing
        },
    }
}

/// What comes of a key.
#[derive(Debug)]
pub enum KeyOutcome {
    /// The picker goes on.
    Continue,
    /// The picker ends.
    Select(SessionSelection),
    /// The thread of a session has to be read from its file first.
    ResolveThread { path: String },
}

/// The rows of a page.
pub open spec fn page_step(s: PickerState) -> int {
    match s.view_rows {
        Some(n) => if n < 1 {
            1
        } else {
            n as int
        },
        None => 10,
    }
}

/// The picker with another row selected and visible.
pub open spec fn moved_to(s: PickerState, selected: int) -> PickerState {
    (PickerState { selected: selected as usize, ..s }).made_visible()
}

/// Whether a picker is another one that loads more where its selection is near the end, and
/// draws again.
pub open spec fn is_scrolled(s: PickerState, t: PickerState) -> bool {
    let near = s.filtered_rows@.len() > 0 && s.filtered_rows@.len() - (s.selected + 1)
        <= LOAD_NEAR_THRESHOLD;
    if near {
        asks_for_more(s, None, t.requests) && t == (PickerState {
            frame_requested: true,
            ..asked_for_more(s, None, t.requests)
        })
    } else {
        t == (PickerState { frame_requested: true, ..s })
    }
}

/// Whether a picker is another one that searches for something else.
pub open spec fn is_query_change(s: PickerState, query: Seq<char>, t: PickerState) -> bool {
    if s.query@ == query {
        t == s
    } else {
        let shown = query_shown(s, t.query, t.filtered_rows);
        &&& t.query@ == query
        &&& t.filtered_rows@ == matching(PickerState { query: t.query, ..s })
        &&& asks_for_search(shown, t.requests)
        &&& t == search_started(shown, t.requests)
    }
}

/// Whether a picker ends with the session of a row.
pub open spec fn is_selection_of(
    action: SessionPickerAction,
    path: Option<String>,
    id: ThreadId,
    selection: SessionSelection,
) -> bool {
    match action {
        SessionPickerAction::Resume => selection matches SessionSelection::Resume(t)
            && text::option_view(t.path) == text::option_view(path) && t.thread_id == id,
        SessionPickerAction::Fork => selection matches SessionSelection::Fork(t)
            && text::option_view(t.path) == text::option_view(path) && t.thread_id == id,
    }
}

/// What comes of a key, and what becomes of a picker without an error line.
pub open spec fn is_response(
    s: PickerState,
    action: KeyAction,
    outcome: KeyOutcome,
    t: PickerState,
) -> bool {
    let n = s.filtered_rows@.len();
    match action {
        KeyAction::Escape => if s.query@.len() == 0 {
            outcome == KeyOutcome::Select(SessionSelection::StartFresh) && t == s
        } else {
            outcome is Continue && t.query@.len() == 0 && t.filtered_rows@ == matching(
                PickerState { query: t.query, ..s },
            ) && t == query_cleared(s, t.query, t.filtered_rows)
        },
        KeyAction::Quit => outcome == KeyOutcome::Select(SessionSelection::Exit) && t == s,
        KeyAction::Confirm => if n == 0 {
            outcome is Continue && t == s
        } else {
            let row = s.row(s.selected as int);
            match (row.thread_id, row.path) {
                (Some(id), _) => outcome matches KeyOutcome::Select(selection) && is_selection_of(
                    s.action,
                    row.path,
                    id,
                    selection,
                ) && t == s,
                (None, Some(path)) => outcome matches KeyOutcome::ResolveThread { path: p } && p@
                    == path@ && t == s,
                (None, None) => outcome is Continue && text::option_view(t.inline_error) == Some(
                    "Failed to read session metadata from selected session"@,
                ) && t == (PickerState {
                    inline_error: t.inline_error,
                    frame_requested: true,
                    ..s
                }),
            }
        },
        KeyAction::MoveUp => outcome is Continue && t == (PickerState {
            frame_requested: true,
            ..if s.selected > 0 {
                moved_to(s, s.selected - 1)
            } else {
                s
            }
        }),
        KeyAction::MoveDown => outcome is Continue && is_scrolled(
            if s.selected + 1 < n {
                moved_to(s, s.selected + 1)
            } else {
                s
            },
            t,
        ),
        KeyAction::PageUp => outcome is Continue && t == (if s.selected > 0 {
            PickerState {
                frame_requested: true,
                ..moved_to(s, session_lines::left_of(s.selected as int, page_step(s)))
            }
        } else {
            s
        }),
        KeyAction::PageDown => outcome is Continue && if n == 0 {
            t == s
        } else {
            is_scrolled(moved_to(s, session_lines::smaller(s.selected + page_step(s), n - 1)), t)
        },
        KeyAction::ToggleSort => outcome is Continue && t.sort_key == (match s.sort_key {
            ThreadSortKey::CreatedAt => ThreadSortKey::UpdatedAt,
            ThreadSortKey::UpdatedAt => ThreadSortKey::CreatedAt,
        }) && is_restart(PickerState { sort_key: t.sort_key, ..s }, t),
        KeyAction::ToggleExpansion => outcome is Continue && is_toggled(s, t),
        KeyAction::Erase => outcome is Continue && is_query_change(
            s,
            if s.query@.len() == 0 {
                s.query@
            } else {
                s.query@.drop_last()
            },
            t,
        ),
        KeyAction::Type(c) => outcome is Continue && is_query_change(s, s.query@.push(c), t),
        KeyAction::Nothing => outcome is Continue && t == s,
    }
}

impl PickerState {
    fn confirm(&mut self) -> (r: KeyOutcome)
        requires
            old(self).wf(),
        ensures
            final(self).wf(),
            is_response(*old(self), KeyAction::Confirm, r, *final(self)),
    {
        if self.filtered_rows.len() == 0 {
            return KeyOutcome::Continue;
        }
        let row = &self.all_rows[self.filtered_rows[self.selected]];
        let path = text::clone_option(&row.path);
        match row.thread_id {
            Some(id) => KeyOutcome::Select(self.action.selection(path, id)),
            None => match path {
                Some(path) => KeyOutcome::ResolveThread { path },
                None => {
                    self.inline_error = Some(
                        "Failed to read session metadata from selected session".to_owned(),
                    );
                    self.frame_requested = true;
                    KeyOutcome::Continue
                },
            },
        }
    }

    fn page_down(&mut self)
        requires
            old(self).wf(),
        ensures
            final(self).wf(),
            if old(self).filtered_rows@.len() == 0 {
                *final(self) == *old(self)
            } else {
                is_scrolled(
                    moved_to(
                        *old(self),
                        session_lines::smaller(
                            old(self).selected + page_step(*old(self)),
                            old(self).filtered_rows@.len() - 1,
                        ),
                    ),
                    *final(self),
                )
            },
    {
        let n = self.filtered_rows.len();
        if n == 0 {
            return;
        }
        let step: usize = match self.view_rows {
            Some(rows) => if rows < 1 {
                1
            } else {
                rows
            },
            None => 10,
        };
        self.selected = if step < n - self.selected {
            self.selected + step
        } else {
            n - 1
        };
        self.ensure_selected_visible();
        self.maybe_load_more_for_scroll();
        self.frame_requested = true;
    }

    fn page_up(&mut self)
        requires
            old(self).wf(),
        ensures
            final(self).wf(),
            is_response(*old(self), KeyAction::PageUp, KeyOutcome::Continue, *final(self)),
    {
        if self.selected == 0 {
            return;
        }
        let step: usize = match self.view_rows {
            Some(rows) => if rows < 1 {
                1
            } else {
                rows
            },
            None => 10,
        };
        self.selected = if self.selected > step {
            self.selected - step
        } else {
            0
        };
        self.ensure_selected_visible();
        self.frame_requested = true;
    }

    fn move_up(&mut self)
        requires
            old(self).wf(),
        ensures
            final(self).wf(),
            is_response(*old(self), KeyAction::MoveUp, KeyOutcome::Continue, *final(self)),
    {
        if self.selected > 0 {
            self.selected = self.selected - 1;
            self.ensure_selected_visible();
        }
        self.frame_requested = true;
    }

    fn move_down(&mut self)
        requires
            old(self).wf(),
        ensures
            final(self).wf(),
            is_response(*old(self), KeyAction::MoveDown, KeyOutcome::Continue, *final(self)),
    {
        if self.filtered_rows.len() > 0 && self.selected + 1 < self.filtered_rows.len() {
            self.selected = self.selected + 1;
            self.ensure_selected_visible();
        }
        self.maybe_load_more_for_scroll();
        self.frame_requested = true;
    }

    fn erase(&mut self)
        requires
            old(self).wf(),
        ensures
            final(self).wf(),
            is_response(*old(self), KeyAction::Erase, KeyOutcome::Continue, *final(self)),
    {
        let chars = text::chars_of(self.query.as_str());
        if chars.len() == 0 {
            return;
        }
        let shorter = text::string_of_range(chars.as_slice(), 0, chars.len() - 1);
        assert(shorter@ =~= self.query@.drop_last());
        self.set_query(shorter);
    }

    fn type_char(&mut self, c: char)
        requires
            old(self).wf(),
        ensures
            final(self).wf(),
            is_response(*old(self), KeyAction::Type(c), KeyOutcome::Continue, *final(self)),
    {
        let mut longer = self.query.clone();
        longer.push(c);
        assert(longer@ =~= self.query@.push(c));
        assert(longer@.len() != self.query@.len());
        self.set_query(longer);
    }

    /// Answers a key. The error of an earlier key is gone with it.
    pub fn handle_key(&mut self, code: KeyCode, modifiers: KeyModifiers) -> (r: KeyOutcome)
        requires
            old(self).wf(),
        ensures
            final(self).wf(),
            is_response(
                PickerState { inline_error: None, ..*old(self) },
                action_of(code, modifiers),
                r,
                *final(self),
            ),
    {
        self.inline_error = None;
        match key_action(code, modifiers) {
            KeyAction::Escape => {
                if text::chars_of(self.query.as_str()).len() == 0 {
                    return KeyOutcome::Select(SessionSelection::StartFresh);
                }
                self.clear_query_preserving_selection();
            },
            KeyAction::Quit => {
                return KeyOutcome::Select(SessionSelection::Exit);
            },
            KeyAction::Confirm => {
                return self.confirm();
            },
            KeyAction::MoveUp => {
                self.move_up();
            },
            KeyAction::MoveDown => {
                self.move_down();
            },
            KeyAction::PageUp => {
                self.page_up();
            },
            KeyAction::PageDown => {
                self.page_down();
            },
            KeyAction::ToggleSort => {
                self.toggle_sort_key();
                self.frame_requested = true;
            },
            KeyAction::ToggleExpansion => {
                self.toggle_selected_expansion();
            },
            KeyAction::Erase => {
                self.erase();
            },
            KeyAction::Type(c) => {
                self.type_char(c);
            },
            KeyAction::Nothing => {},
        }
        KeyOutcome::Continue
    }

    /// Answers with the thread that was read from a session's file, or reports that none was.
    pub fn thread_resolved(&mut self, path: String, thread_id: Option<ThreadId>) -> (r: Option<
        SessionSelection,
    >)
        requires
            old(self).wf(),
        ensures
            final(self).wf(),
            match thread_id {
                Some(id) => r is Some && is_selection_of(old(self).action, Some(path), id, r->0)
                    && *final(self) == *old(self),
                None => r is None && text::option_view(final(self).inline_error) == Some(
                    "Failed to read session metadata from "@ + path@,
                ) && *final(self) == (PickerState {
                    inline_error: final(self).inline_error,
                    frame_requested: true,
                    ..*old(self)
                }),
            },
    {
        match thread_id {
            Some(id) => Some(self.action.selection(Some(path), id)),
            None => {
                let mut message = "Failed to read session metadata from ".to_owned();
                message.push_str(path.as_str());
                self.inline_error = Some(message);
                self.frame_requested = true;
                None
            },
        }
    }

    /// Answers what happened in the background. A page that is not the one that is waited for
    /// is dropped.
    pub fn handle_background_event(&mut self, event: BackgroundEvent) -> (r: Result<(), String>)
        requires
            old(self).wf(),
        ensures
            final(self).wf(),
            match event {
                BackgroundEvent::PageLoaded { request_token, search_token, page } => {
                    let s = *old(self);
                    if s.loading is Idle || s.loading->Pending_0.request_token != request_token {
                        r is Ok && *final(self) == s
                    } else {
                        let idle = PickerState { loading: LoadingState::Idle, ..s };
                        match page {
                            Err(e) => r == Err::<(), String>(e) && *final(self) == idle,
                            Ok(p) => {
                                let taken = page_taken(idle, p, final(self).all_rows);
                                let shown = refiltered(taken, final(self).filtered_rows);
                                let completed = match s.loading->Pending_0.search_token {
                                    Some(t) => Some(t),
                                    None => search_token,
                                };
                                &&& r is Ok
                                &&& final(self).all_rows@ == merged(
                                    s.all_rows@,
                                    p.rows@,
                                    p.rows@.len() as int,
                                )
                                &&& final(self).filtered_rows@ == matching(taken)
                                &&& if completed is Some && completed != token_of(s.search_state) {
                                    *final(self) == shown
                                } else {
                                    continues_search(shown, final(self).requests) && *final(self)
                                        == search_continued(shown, final(self).requests)
                                }
                            },
                        }
                    }
                },
                BackgroundEvent::PreviewLoaded { thread_id, preview } => r is Ok && final(self).transcript_previews@ == old(self).transcript_previews@.insert(
                    thread_id.value,
                    match preview {
                        Ok(lines) => TranscriptPreviewState::Loaded(lines),
                        Err(_) => TranscriptPreviewState::Failed,
                    },
                ) && *final(self) == (PickerState {
                    transcript_previews: final(self).transcript_previews,
                    frame_requested: true,
                    ..*old(self)
                }),
            },
    {
        match event {
            BackgroundEvent::PageLoaded { request_token, search_token, page } => {
                let pending = match self.loading {
                    LoadingState::Pending(pending) => pending,
                    LoadingState::Idle => {
                        return Ok(());
                    },
                };
                if pending.request_token != request_token {
                    return Ok(());
                }
                self.loading = LoadingState::Idle;
                let page = match page {
                    Ok(page) => page,
                    Err(e) => {
                        return Err(e);
                    },
                };
                self.ingest_page(page);
                let completed = match pending.search_token {
                    Some(token) => Some(token),
                    None => search_token,
                };
                self.continue_search_if_token_matches(completed);
                Ok(())
            },
            BackgroundEvent::PreviewLoaded { thread_id, preview } => {
                let state = match preview {
                    Ok(lines) => TranscriptPreviewState::Loaded(lines),
                    Err(_) => TranscriptPreviewState::Failed,
                };
                self.transcript_previews.insert(thread_id.value, state);
                self.frame_requested = true;
                Ok(())
            },
        }
    }
}

// ---- drawing ----

/// What an empty list says.
pub open spec fn empty_message(s: PickerState) -> Seq<char> {
    let pending = s.loading is Pending;
    if s.query@.len() > 0 {
        if s.search_state is Active || (pending && s.next_cursor is Some) {
            "Searching…"@
        } else if s.reached_scan_cap {
            "Search scanned first "@ + text::decimal(s.num_scanned_files as nat)
                + " sessions; more may exist"@
        } else {
            "No results for your search"@
        }
    } else if pending {
        if s.all_rows@.len() == 0 && s.num_scanned_files == 0 {
            "Loading sessions…"@
        } else {
            "Loading older sessions…"@
        }
    } else {
        "No sessions yet"@
    }
}

/// A line at a height of the list.
#[derive(Debug)]
pub struct PlacedLine {
    pub y: u16,
    pub spans: Vec<spans::Span>,
}

/// A line at a height by its texts.
pub type PlacedView = (int, Seq<spans::SpanView>);

/// Lines at heights by their texts.
pub open spec fn placed_views(lines: Seq<PlacedLine>) -> Seq<PlacedView> {
    Seq::new(lines.len(), |i: int| (lines[i].y as int, spans::line_view(lines[i].spans@)))
}

/// Lines one below the other from `y` on, as far as the limit.
pub open spec fn stacked(lines: Seq<Seq<spans::SpanView>>, y: int, limit: int) -> Seq<
    PlacedView,
> {
    Seq::new(
        session_lines::smaller(lines.len() as int, session_lines::left_of(limit, y)) as nat,
        |i: int| (y + i, lines[i]),
    )
}

/// The lines of the shown rows from `i` on, from `y` down to a limit, with one left free
/// between each two; and where the next line would go.
pub open spec fn placed_rows(s: PickerState, i: int, y: int, limit: int, width: u16) -> (Seq<
    PlacedView,
>, int)
    decreases s.filtered_rows@.len() - i,
{
    if i >= s.filtered_rows@.len() || y >= limit {
        (Seq::empty(), y)
    } else {
        let own = stacked(s.lines(i, width), y, limit);
        let below = y + own.len();
        let next = if below < limit && i + 1 < s.filtered_rows@.len() {
            below + 1
        } else {
            below
        };
        let (rest, end) = placed_rows(s, i + 1, next, limit, width);
        (own + rest, end)
    }
}

/// A list in a space: the rows from the top of the list, and lines that say that there are
/// more.
pub open spec fn list_view(s: PickerState, width: u16, height: int) -> Seq<PlacedView> {
    if height == 0 {
        Seq::empty()
    } else if s.filtered_rows@.len() == 0 {
        seq![(0int, seq![(empty_message(s), spans::Tone::DimItalic)])]
    } else {
        let above = s.scroll_top > 0;
        let below = s.more_below(height);
        let first = if above {
            1int
        } else {
            0
        };
        let limit = first + session_lines::left_of(
            session_lines::left_of(height, first),
            if below {
                1
            } else {
                0
            },
        );
        let start = session_lines::smaller(s.scroll_top as int, s.filtered_rows@.len() - 1);
        let (rows, end) = placed_rows(s, start, first, limit, width);
        let pending = s.loading is Pending;
        (if above {
            seq![(0int, seq![("↑ more"@, spans::Tone::Dim)])]
        } else {
            Seq::empty()
        }) + rows + (if pending && end < limit {
            seq![
                (
                    end,
                    seq![
                        ("  "@, spans::Tone::Plain),
                        ("Loading older sessions…"@, spans::Tone::DimItalic),
                    ],
                ),
            ]
        } else {
            Seq::empty()
        }) + (if below {
            seq![
                (
                    height - 1,
                    seq![
                        (
                            if pending {
                                "↓ loading more"@
                            } else {
                                "↓ more"@
                            },
                            spans::Tone::Dim,
                        ),
                    ],
                ),
            ]
        } else {
            Seq::empty()
        })
    }
}

fn place(out: &mut Vec<PlacedLine>, y: u16, spans: Vec<spans::Span>)
    ensures
        placed_views(final(out)@) == placed_views(old(out)@).push(
            (y as int, spans::line_view(spans@)),
        ),
{
    let ghost before = out@;
    out.push(PlacedLine { y, spans });
    assert(placed_views(out@) =~= placed_views(before).push(
        (y as int, spans::line_view(spans@)),
    ));
}

fn single_span(s: &str, tone: spans::Tone) -> (r: Vec<spans::Span>)
    ensures
        spans::line_view(r@) == seq![(s@, tone)],
{
    let mut spans: Vec<spans::Span> = Vec::new();
    spans.push(spans::Span { text: s.to_owned(), tone });
    assert(spans::line_view(spans@) =~= seq![(s@, tone)]);
    spans
}

fn place_all(
    out: &mut Vec<PlacedLine>,
    lines: Vec<Vec<spans::Span>>,
    y: u16,
    limit: u16,
) -> (r: u16)
    requires
        y <= limit,
    ensures
        ({
            let own = stacked(spans::lines_view(lines@), y as int, limit as int);
            placed_views(final(out)@) == placed_views(old(out)@) + own && r == y + own.len()
        }),
{
    let ghost views = spans::lines_view(lines@);
    let ghost own = stacked(views, y as int, limit as int);
    let ghost before = placed_views(out@);
    let ghost given = lines@;
    let mut row: u16 = y;
    assert(before + own.take(0) =~= before);
    for line in it: lines
        invariant
            it.seq() == given,
            views == spans::lines_view(given),
            own == stacked(views, y as int, limit as int),
            y <= row <= limit,
            row - y == session_lines::smaller(it.index() as int, own.len() as int),
            placed_views(out@) == before + own.take(row - y),
    {
        if row < limit {
            place(out, row, line);
            assert(own[row - y] == (row as int, views[it.index() as int]));
            assert(before + own.take(row - y + 1) =~= (before + own.take(row - y)).push(
                own[row - y],
            ));
            row = row + 1;
        }
    }
    assert(own.take(row - y) =~= own);
    row
}

impl PickerState {
    /// What an empty list says.
    pub fn empty_state_line(&self) -> (r: String)
        ensures
            r@ == empty_message(*self),
    {
        let pending = self.loading.is_pending();
        if text::chars_of(self.query.as_str()).len() > 0 {
            if self.search_state.is_active() || (pending && self.next_cursor.is_some()) {
                return "Searching…".to_owned();
            }
            if self.reached_scan_cap {
                let mut r = "Search scanned first ".to_owned();
                r.push_str(text::decimal_u64(self.num_scanned_files as u64).as_str());
                r.push_str(" sessions; more may exist");
                return r;
            }
            return "No results for your search".to_owned();
        }
        if pending {
            if self.all_rows.len() == 0 && self.num_scanned_files == 0 {
                return "Loading sessions…".to_owned();
            }
            return "Loading older sessions…".to_owned();
        }
        "No sessions yet".to_owned()
    }

    fn place_rows(&self, out: &mut Vec<PlacedLine>, start: usize, y: u16, limit: u16, width: u16)
        -> (r: u16)
        requires
            self.wf(),
            y <= limit,
        ensures
            ({
                let (rows, end) = placed_rows(
                    *self,
                    start as int,
                    y as int,
                    limit as int,
                    width,
                );
                placed_views(final(out)@) == placed_views(old(out)@) + rows && r == end
            }),
            r <= limit,
    {
        let ghost before = placed_views(out@);
        let ghost all = placed_rows(*self, start as int, y as int, limit as int, width);
        let mut i: usize = start;
        let mut row: u16 = y;
        let ghost mut done: Seq<PlacedView> = Seq::empty();
        assert(before + done =~= before);
        assert(done + all.0 =~= all.0);
        while i < self.filtered_rows.len() && row < limit
            invariant
                self.wf(),
                row <= limit,
                start <= i,
                placed_views(out@) == before + done,
                all == (
                    done + placed_rows(*self, i as int, row as int, limit as int, width).0,
                    placed_rows(*self, i as int, row as int, limit as int, width).1,
                ),
            decreases self.filtered_rows.len() - i,
        {
            let ghost rest = placed_rows(*self, i as int, row as int, limit as int, width);
            let ghost own = stacked(self.lines(i as int, width), row as int, limit as int);
            let lines = self.render_row(i, width);
            row = place_all(out, lines, row, limit);
            assert(before + done + own =~= before + (done + own));
            if row < limit && i + 1 < self.filtered_rows.len() {
                row = row + 1;
            }
            i = i + 1;
            proof {
                let next = placed_rows(*self, i as int, row as int, limit as int, width);
                assert(rest.0 == own + next.0);
                assert(done + own + next.0 =~= done + rest.0);
                done = done + own;
            }
        }
        assert(done + Seq::<PlacedView>::empty() =~= done);
        row
    }

    /// The list in a space.
    pub fn render_list(&self, width: u16, height: u16) -> (r: Vec<PlacedLine>)
        requires
            self.wf(),
        ensures
            placed_views(r@) == list_view(*self, width, height as int),
    {
        let mut out: Vec<PlacedLine> = Vec::new();
        assert(placed_views(out@) =~= Seq::<PlacedView>::empty());
        if height == 0 {
            return out;
        }
        if self.filtered_rows.len() == 0 {
            let message = self.empty_state_line();
            place(
                &mut out,
                0,
                single_span(message.as_str(), spans::Tone::DimItalic),
            );
            assert(placed_views(out@) =~= list_view(*self, width, height as int));
            return out;
        }
        let above = self.has_more_above();
        let below = self.has_more_below(height as usize);
        let first: u16 = if above {
            1
        } else {
            0
        };
        let mut rows_left: u16 = height - first;
        if below && rows_left > 0 {
            rows_left = rows_left - 1;
        }
        let limit: u16 = first + rows_left;
        let ghost head: Seq<PlacedView> = if above {
            seq![(0int, seq![("↑ more"@, spans::Tone::Dim)])]
        } else {
            Seq::empty()
        };
        if above {
            place(&mut out, 0, single_span("↑ more", spans::Tone::Dim));
        }
        assert(placed_views(out@) =~= head);
        let start: usize = if self.scroll_top < self.filtered_rows.len() - 1 {
            self.scroll_top
        } else {
            self.filtered_rows.len() - 1
        };
        let end = self.place_rows(&mut out, start, first, limit, width);
        let ghost rows = placed_views(out@);
        let pending = self.loading.is_pending();
        let ghost mut loading: Seq<PlacedView> = Seq::empty();
        if pending && end < limit {
            let spans = spans::two_spans(
                "  ",
                spans::Tone::Plain,
                "Loading older sessions…".to_owned(),
                spans::Tone::DimItalic,
            );
            place(&mut out, end, spans);
            proof {
                loading =
                seq![
                    (
                        end as int,
                        seq![
                            ("  "@, spans::Tone::Plain),
                            ("Loading older sessions…"@, spans::Tone::DimItalic),
                        ],
                    ),
                ];
            }
        }
        assert(placed_views(out@) =~= rows + loading);
        if below {
            let label = if pending {
                "↓ loading more"
            } else {
                "↓ more"
            };
            place(&mut out, height - 1, single_span(label, spans::Tone::Dim));
            assert(placed_views(out@) =~= rows + loading + seq![
                (height - 1, seq![(label@, spans::Tone::Dim)]),
            ]);
        } else {
            assert(rows + loading + Seq::<PlacedView>::empty() =~= rows + loading);
        }
        out
    }
}

// ---- laws ----

/// Whether no two rows are known by the same thing.
pub open spec fn each_listed_once(rows: Seq<Row>) -> bool {
    forall|i: int, j: int|
        0 <= i < j < rows.len() ==> !session_rows::same_row(
            #[trigger] rows[i],
            #[trigger] rows[j],
        )
}

/// Pages that overlap list no session twice, and what is listed stays where it is.
pub proof fn merging_lists_each_session_once(rows: Seq<Row>, new: Seq<Row>, n: int)
    requires
        0 <= n <= new.len(),
        each_listed_once(rows),
    ensures
        each_listed_once(merged(rows, new, n)),
        merged(rows, new, n).len() >= rows.len(),
        merged(rows, new, n).take(rows.len() as int) == rows,
        forall|i: int|
            0 <= i < n && session_rows::row_key(#[trigger] new[i]) is Some ==> has_row(
                merged(rows, new, n),
                new[i],
            ),
    decreases n,
{
    if n <= 0 {
        assert(rows.take(rows.len() as int) =~= rows);
    } else {
        merging_lists_each_session_once(rows, new, n - 1);
        let before = merged(rows, new, n - 1);
        let after = merged(rows, new, n);
        assert(after.take(rows.len() as int) =~= before.take(rows.len() as int));
        if session_rows::row_key(new[n - 1]) is Some {
            if !has_row(before, new[n - 1]) {
                assert(after.last() == new[n - 1]);
                assert(session_rows::same_row(after[after.len() - 1], new[n - 1]));
            }
        }
        assert forall|i: int|
            0 <= i < n && session_rows::row_key(#[trigger] new[i]) is Some implies has_row(
            after,
            new[i],
        ) by {
            if i < n - 1 {
                let k = choose|k: int|
                    0 <= k < before.len() && session_rows::same_row(#[trigger] before[k], new[i]);
                assert(after[k] == before[k]);
            }
        }
    }
}

/// The selected session is always on the screen: the list starts with it, or everything from
/// the start of the list to it fits. A list on which it is visible does not move.
pub proof fn selected_session_is_visible(s: PickerState)
    requires
        s.wf(),
        s.filtered_rows@.len() > 0,
    ensures
        ({
            let top = s.visible_top();
            &&& 0 <= top <= s.selected
            &&& top == s.selected || s.fits_from(top)
            &&& s.scroll_top <= s.selected && s.fits_from(s.scroll_top as int) ==> top
                == s.scroll_top
        }),
{
    let from = if s.selected < s.scroll_top {
        s.selected as int
    } else {
        s.scroll_top as int
    };
    lemma_first_fitting(s, from);
}

proof fn lemma_first_fitting(s: PickerState, top: int)
    requires
        0 <= top <= s.selected,
    ensures
        ({
            let r = s.first_fitting(top);
            top <= r <= s.selected && (r == s.selected || s.fits_from(r))
        }),
    decreases s.selected - top,
{
    if !(top >= s.selected || s.fits_from(top)) {
        lemma_first_fitting(s, top + 1);
    }
}

/// The shown rows keep their order, and each of them matches.
pub proof fn shown_rows_are_in_order(s: PickerState, n: int)
    requires
        0 <= n <= s.all_rows@.len(),
    ensures
        forall|i: int, j: int|
            0 <= i < j < shown_rows(s, n).len() ==> #[trigger] shown_rows(s, n)[i]
                < #[trigger] shown_rows(s, n)[j],
        forall|i: int|
            0 <= i < shown_rows(s, n).len() ==> (#[trigger] shown_rows(s, n)[i]) < n && is_shown(
                s,
                s.all_rows@[shown_rows(s, n)[i] as int],
            ),
    decreases n,
{
    if n > 0 {
        shown_rows_are_in_order(s, n - 1);
        let before = shown_rows(s, n - 1);
        let after = shown_rows(s, n);
        assert(s.all_rows@.len() == s.all_rows.len());
        assert forall|i: int| 0 <= i < after.len() implies (#[trigger] after[i]) < n && is_shown(
            s,
            s.all_rows@[after[i] as int],
        ) by {
            if i < before.len() {
                assert(after[i] == before[i]);
            }
        }
        assert forall|i: int, j: int| 0 <= i < j < after.len() implies #[trigger] after[i]
            < #[trigger] after[j] by {
            assert(after[i] == before[i]);
            if j < before.len() {
                assert(after[j] == before[j]);
            }
        }
    }
}

/// Just those sessions are listed, each once, that worked in the directory that the list is
/// limited to, where it is limited, and that hold what is searched for, where something is.
pub proof fn every_matching_session_is_listed(s: PickerState, i: usize)
    requires
        i < s.all_rows@.len(),
    ensures
        ({
            let row = s.all_rows@[i as int];
            let here = s.show_all || s.filter_cwd is None || (row.cwd is Some && paths::same_path(
                row.cwd->0@,
                s.filter_cwd->0@,
            ));
            let found = s.query@.len() == 0 || session_rows::row_matches(
                row,
                text::unicode_lowercase(s.query@),
            );
            matching(s).contains(i) <==> here && found
        }),
        matching(s).no_duplicates(),
{
    lemma_shown(s, s.all_rows@.len() as int, i);
    shown_rows_are_in_order(s, s.all_rows@.len() as int);
}

proof fn lemma_shown(s: PickerState, n: int, i: usize)
    requires
        0 <= n <= s.all_rows@.len(),
    ensures
        shown_rows(s, n).contains(i) <==> i < n && is_shown(s, s.all_rows@[i as int]),
    decreases n,
{
    assert(s.all_rows@.len() == s.all_rows.len());
    if n > 0 {
        lemma_shown(s, n - 1, i);
        let before = shown_rows(s, n - 1);
        let after = shown_rows(s, n);
        if before.contains(i) {
            let k = before.index_of(i);
            assert(after[k] == i);
        }
        if after.len() > before.len() {
            assert(after[before.len() as int] == (n - 1) as usize);
            if after.contains(i) && i != n - 1 {
                let k = after.index_of(i);
                assert(before[k] == i);
            }
        }
    }
}

/// A session is listed while its title is typed: what is typed is a part of the name of its
/// thread, or of its first message where the thread has no name.
pub proof fn sessions_are_listed_by_their_titles(s: PickerState, i: usize)
    requires
        i < s.all_rows@.len(),
        s.show_all || s.filter_cwd is None,
        text::has_sub(
            text::unicode_lowercase(
                match s.all_rows@[i as int].thread_name {
                    Some(name) => name@,
                    None => s.all_rows@[i as int].preview@,
                },
            ),
            text::unicode_lowercase(s.query@),
        ),
    ensures
        matching(s).contains(i),
{
    session_rows::rows_are_found_by_what_they_show(
        s.all_rows@[i as int],
        text::unicode_lowercase(s.query@),
    );
    every_matching_session_is_listed(s, i);
}

// ---- keys ----

/// The keys that move the selection move it by one or by a page, stop at the first and the last
/// session, and leave the sessions, the query and the order as they are.
pub proof fn keys_move_the_selection(
    s: PickerState,
    action: KeyAction,
    outcome: KeyOutcome,
    t: PickerState,
)
    requires
        s.wf(),
        is_response(s, action, outcome, t),
        action is MoveUp || action is MoveDown || action is PageUp || action is PageDown,
    ensures
        ({
            let n = s.filtered_rows@.len() as int;
            let page = match s.view_rows {
                Some(rows) => if rows == 0 {
                    1
                } else {
                    rows as int
                },
                None => 10,
            };
            &&& outcome is Continue
            &&& t.all_rows == s.all_rows && t.filtered_rows == s.filtered_rows
            &&& t.query == s.query && t.sort_key == s.sort_key && t.search_state == s.search_state
            &&& t.expanded_thread_id == s.expanded_thread_id && t.transcript_previews
                == s.transcript_previews
            &&& t.inline_error == s.inline_error && t.next_cursor == s.next_cursor
            &&& action is MoveUp ==> t.selected == if s.selected == 0 {
                0
            } else {
                s.selected - 1
            }
            &&& action is MoveDown ==> t.selected == if s.selected + 1 < n {
                s.selected + 1
            } else {
                s.selected as int
            }
            &&& action is PageUp ==> t.selected == if s.selected <= page {
                0
            } else {
                s.selected - page
            }
            &&& action is PageDown && n > 0 ==> t.selected == if s.selected + page >= n {
                n - 1
            } else {
                s.selected + page
            }
            &&& action is PageDown && n == 0 ==> t == s
        }),
{
    assert(s.filtered_rows@.len() == s.filtered_rows.len());
}

/// To go up after going down, or down after going up, leads back, unless the end was reached.
pub proof fn moves_undo_each_other(
    s: PickerState,
    a: KeyAction,
    first: KeyOutcome,
    t: PickerState,
    b: KeyAction,
    second: KeyOutcome,
    u: PickerState,
)
    requires
        s.wf(),
        t.wf(),
        is_response(s, a, first, t),
        is_response(t, b, second, u),
        a is MoveDown && b is MoveUp && s.selected + 1 < s.filtered_rows@.len() || a is MoveUp && b
            is MoveDown && s.selected > 0,
    ensures
        u.selected == s.selected,
        u.filtered_rows == s.filtered_rows,
        u.all_rows == s.all_rows,
{
    keys_move_the_selection(s, a, first, t);
    keys_move_the_selection(t, b, second, u);
}

/// A selection that moves down near the end of what is loaded asks for more, once, if there is
/// more; one that moves elsewhere asks for nothing.
pub proof fn moving_near_the_end_asks_for_more(
    s: PickerState,
    outcome: KeyOutcome,
    t: PickerState,
)
    requires
        s.wf(),
        s.filtered_rows@.len() > 0,
        is_response(s, KeyAction::MoveDown, outcome, t),
    ensures
        ({
            let left = s.filtered_rows@.len() - 1 - t.selected;
            let asks = left <= 5 && s.next_cursor is Some && s.loading is Idle;
            &&& asks ==> t.requests@.len() == s.requests@.len() + 1 && t.loading is Pending
            &&& asks ==> (t.requests@.last()@ matches RequestView::Page { cursor, sort_key, .. }
                && cursor == Some(s.next_cursor->0@) && sort_key == s.sort_key)
            &&& !asks ==> t.requests == s.requests && t.loading == s.loading
        }),
{
    let moved = if s.selected + 1 < s.filtered_rows@.len() {
        moved_to(s, s.selected + 1)
    } else {
        s
    };
    if can_load(moved) && s.filtered_rows@.len() - (moved.selected + 1) <= LOAD_NEAR_THRESHOLD {
        let views = request_views(t.requests@);
        assert(views.len() == t.requests@.len());
        assert(views.last() == t.requests@.last()@);
    }
}

/// More is asked for only where there is a cursor to go on from and nothing is asked for yet. The
/// request goes on from that cursor, for the provider and in the order that are listed, under a
/// token that the next request does not have; what it answers is awaited.
pub proof fn more_is_asked_for_once(
    s: PickerState,
    search: Option<usize>,
    requests: Vec<PickerLoadRequest>,
)
    requires
        asks_for_more(s, search, requests),
    ensures
        ({
            let t = asked_for_more(s, search, requests);
            &&& t.all_rows == s.all_rows && t.query == s.query && t.selected == s.selected
            &&& s.loading is Pending || s.next_cursor is None ==> t == s && requests == s.requests
            &&& s.loading is Idle && s.next_cursor is Some ==> {
                &&& requests@.len() == s.requests@.len() + 1
                &&& forall|i: int| 0 <= i < s.requests@.len() ==> #[trigger] requests@[i]@ == s.requests@[i]@
                &&& requests@.last()@ == (RequestView::Page {
                    cursor: Some(s.next_cursor->0@),
                    request_token: s.next_request_token,
                    search_token: search,
                    provider: match s.provider_filter {
                        ProviderFilter::Any => None,
                        ProviderFilter::MatchDefault(p) => Some(p@),
                    },
                    sort_key: s.sort_key,
                })
                &&& t.loading matches LoadingState::Pending(load) && load.request_token
                    == s.next_request_token && load.search_token == search
                &&& t.next_request_token != s.next_request_token
                &&& forall|other: Vec<PickerLoadRequest>|
                    asks_for_more(t, search, other) ==> other == t.requests
            }
        }),
{
    let t = asked_for_more(s, search, requests);
    if s.loading is Idle && s.next_cursor is Some {
        let views = request_views(requests@);
        let before = request_views(s.requests@);
        assert(views.len() == requests@.len());
        assert(views.last() == requests@.last()@);
        assert forall|i: int| 0 <= i < s.requests@.len() implies #[trigger] requests@[i]@
            == s.requests@[i]@ by {
            assert(views[i] == requests@[i]@);
            assert(before[i] == s.requests@[i]@);
        }
    }
}

/// What is typed is added to the query, and the list goes to its top and holds what matches the
/// longer query.
pub proof fn typing_narrows_the_list(s: PickerState, c: char, outcome: KeyOutcome, t: PickerState)
    requires
        s.wf(),
        is_response(s, KeyAction::Type(c), outcome, t),
    ensures
        outcome is Continue,
        t.query@ == s.query@ + seq![c],
        t.selected == 0,
        t.filtered_rows@ == matching(t),
        t.all_rows == s.all_rows,
        t.sort_key == s.sort_key,
{
    assert(s.query@.push(c) =~= s.query@ + seq![c]);
    assert(s.query@.push(c).len() == s.query@.len() + 1);
    let asked = PickerState { query: t.query, ..s };
    lemma_same_matching(asked, t, s.all_rows@.len() as int);
}

proof fn lemma_same_matching(a: PickerState, b: PickerState, n: int)
    requires
        a.all_rows == b.all_rows,
        a.show_all == b.show_all,
        a.filter_cwd == b.filter_cwd,
        a.query@ == b.query@,
    ensures
        shown_rows(a, n) == shown_rows(b, n),
    decreases n,
{
    if n > 0 {
        lemma_same_matching(a, b, n - 1);
    }
}

/// To erase what was typed brings back the query and the sessions that were listed for it.
pub proof fn erasing_undoes_typing(
    s: PickerState,
    c: char,
    first: KeyOutcome,
    t: PickerState,
    second: KeyOutcome,
    u: PickerState,
)
    requires
        s.wf(),
        t.wf(),
        s.filtered_rows@ == matching(s),
        is_response(s, KeyAction::Type(c), first, t),
        is_response(t, KeyAction::Erase, second, u),
    ensures
        u.query@ == s.query@,
        u.filtered_rows@ == s.filtered_rows@,
        u.all_rows == s.all_rows,
{
    typing_narrows_the_list(s, c, first, t);
    assert(t.query@.drop_last() =~= s.query@);
    assert(t.query@.len() == s.query@.len() + 1);
    let asked = PickerState { query: u.query, ..t };
    lemma_same_matching(asked, s, s.all_rows@.len() as int);
}

/// To erase from an empty query does nothing, and else takes the last character off it.
pub proof fn erasing_takes_the_last_character(s: PickerState, outcome: KeyOutcome, t: PickerState)
    requires
        s.wf(),
        is_response(s, KeyAction::Erase, outcome, t),
    ensures
        s.query@.len() == 0 ==> t == s,
        s.query@.len() > 0 ==> t.query@ == s.query@.take(s.query@.len() - 1) && t.filtered_rows@
            == matching(t),
{
    if s.query@.len() > 0 {
        assert(s.query@.drop_last() =~= s.query@.take(s.query@.len() - 1));
        assert(s.query@.drop_last().len() != s.query@.len());
        let asked = PickerState { query: t.query, ..s };
        lemma_same_matching(asked, t, s.all_rows@.len() as int);
    }
}

proof fn lemma_position(s: PickerState, row: Row, i: int)
    requires
        0 <= i <= s.filtered_rows@.len(),
    ensures
        ({
            let p = position_of(s, row, i);
            &&& i <= p <= s.filtered_rows@.len()
            &&& p < s.filtered_rows@.len() ==> session_rows::same_row(s.row(p), row)
            &&& forall|k: int| i <= k < p ==> !session_rows::same_row(#[trigger] s.row(k), row)
        }),
    decreases s.filtered_rows@.len() - i,
{
    if i < s.filtered_rows@.len() && !session_rows::same_row(s.row(i), row) {
        lemma_position(s, row, i + 1);
    }
}

/// Escape without a query starts afresh. With one it clears the query, lists all sessions again and
/// keeps the session selected that was.
pub proof fn clearing_the_query_keeps_the_selection(
    s: PickerState,
    outcome: KeyOutcome,
    t: PickerState,
)
    requires
        s.wf(),
        s.filtered_rows@ == matching(s),
        is_response(s, KeyAction::Escape, outcome, t),
    ensures
        s.query@.len() == 0 ==> t == s && outcome == KeyOutcome::Select(
            SessionSelection::StartFresh,
        ),
        s.query@.len() > 0 ==> {
            &&& outcome is Continue
            &&& t.query@.len() == 0
            &&& t.filtered_rows@ == matching(t)
            &&& t.all_rows == s.all_rows
            &&& t.search_state is Idle
            &&& s.filtered_rows@.len() > 0 && session_rows::row_key(
                s.row(s.selected as int),
            ) is Some ==> session_rows::same_row(
                t.row(t.selected as int),
                s.row(s.selected as int),
            )
        },
{
    if s.query@.len() > 0 {
        let asked = PickerState { query: t.query, ..s };
        lemma_same_matching(asked, t, s.all_rows@.len() as int);
        let all = refiltered(
            PickerState { query: t.query, search_state: SearchState::Idle, ..s },
            t.filtered_rows,
        );
        if s.filtered_rows@.len() > 0 && session_rows::row_key(s.row(s.selected as int)) is Some {
            let row = s.row(s.selected as int);
            let i = s.filtered_rows@[s.selected as int];
            lemma_position(all, row, 0);
            every_matching_session_is_listed(s, i);
            every_matching_session_is_listed(t, i);
            assert(matching(s).contains(i));
            let k = t.filtered_rows@.index_of(i);
            assert(all.row(k) == row);
            assert(session_rows::same_row(row, row));
            let p = position_of(all, row, 0);
            assert(p < t.filtered_rows@.len());
            assert(t.filtered_rows@.len() == t.filtered_rows.len());
            assert(t.selected == p);
            assert(t.row(p) == all.row(p));
        }
    }
}

/// Enter chooses the selected session: its own thread, to be resumed or forked as the picker was
/// opened for; where the thread is not known yet, it is read from the session's file.
pub proof fn enter_chooses_the_selected_session(
    s: PickerState,
    outcome: KeyOutcome,
    t: PickerState,
)
    requires
        s.wf(),
        is_response(s, KeyAction::Confirm, outcome, t),
    ensures
        s.filtered_rows@.len() == 0 ==> outcome is Continue && t == s,
        s.filtered_rows@.len() > 0 ==> {
            let row = s.all_rows@[s.filtered_rows@[s.selected as int] as int];
            &&& row.thread_id matches Some(id) ==> t == s && (outcome matches KeyOutcome::Select(
                chosen,
            ) && (s.action is Resume ==> (chosen matches SessionSelection::Resume(target)
                && target.thread_id == id && text::option_view(target.path) == text::option_view(
                row.path,
            ))) && (s.action is Fork ==> (chosen matches SessionSelection::Fork(target)
                && target.thread_id == id && text::option_view(target.path) == text::option_view(
                row.path,
            ))))
            &&& row.thread_id is None && row.path is Some ==> t == s && (outcome matches
                KeyOutcome::ResolveThread { path } && path@ == row.path->0@)
            &&& row.thread_id is None && row.path is None ==> outcome is Continue && t.inline_error is Some
                && t.filtered_rows == s.filtered_rows && t.selected == s.selected
        },
{
}

/// To expand the selected session and to expand it again shows and hides its preview; nothing else
/// of the picker changes, and the preview is asked for the first time only.
pub proof fn expanding_twice_hides_again(s: PickerState, t: PickerState, u: PickerState)
    requires
        s.wf(),
        s.filtered_rows@.len() > 0,
        s.row(s.selected as int).thread_id is Some,
        is_toggled(s, t),
        is_toggled(t, u),
    ensures
        ({
            let id = s.row(s.selected as int).thread_id->0;
            &&& s.expanded_thread_id == Some(id) ==> t.expanded_thread_id is None
                && u.expanded_thread_id == Some(id)
            &&& s.expanded_thread_id != Some(id) ==> t.expanded_thread_id == Some(id)
                && u.expanded_thread_id is None
            &&& t.selected == s.selected && t.filtered_rows == s.filtered_rows && t.query == s.query
            &&& u.selected == s.selected && u.filtered_rows == s.filtered_rows && u.query == s.query
            &&& s.expanded_thread_id != Some(id) ==> u.requests == t.requests
            &&& s.expanded_thread_id != Some(id) && !s.transcript_previews@.contains_key(id.value)
                ==> t.requests@.len() == s.requests@.len() + 1 && t.requests@.last()@ == (
            RequestView::Preview { thread_id: id }) && t.transcript_previews@.contains_key(id.value)
                && t.transcript_previews@[id.value] is Loading
            &&& s.transcript_previews@.contains_key(id.value) ==> t.requests == s.requests
                && u.requests == s.requests
        }),
{
    let id = s.row(s.selected as int).thread_id->0;
    assert(t.row(t.selected as int) == s.row(s.selected as int));
    if s.expanded_thread_id != Some(id) && !s.transcript_previews@.contains_key(id.value) {
        let views = request_views(t.requests@);
        assert(views.len() == t.requests@.len());
        assert(views.last() == t.requests@.last()@);
    }
}

/// To change the order asks for the first page anew in the other order, with the same query, and
/// lists nothing until it is there.
pub proof fn sorting_starts_over(s: PickerState, outcome: KeyOutcome, t: PickerState)
    requires
        s.wf(),
        is_response(s, KeyAction::ToggleSort, outcome, t),
    ensures
        outcome is Continue,
        t.sort_key != s.sort_key,
        t.query == s.query && t.provider_filter == s.provider_filter && t.show_all == s.show_all,
        t.filter_cwd == s.filter_cwd && t.action == s.action,
        t.all_rows@.len() == 0 && t.filtered_rows@.len() == 0 && t.selected == 0,
        t.next_cursor is None && t.num_scanned_files == 0 && !t.reached_scan_cap,
        t.requests@.len() == s.requests@.len() + 1,
        t.requests@.last()@ matches RequestView::Page {
            cursor,
            request_token,
            search_token,
            provider,
            sort_key,
        } && cursor is None && sort_key == t.sort_key && search_token == token_of(t.search_state)
            && (t.loading matches LoadingState::Pending(load) && load.request_token
            == request_token && load.search_token == search_token) && provider == listed_provider(
            s.provider_filter,
        ),
        t.search_state is Active <==> s.query@.len() > 0,
{
    let views = request_views(t.requests@);
    assert(views.len() == t.requests@.len());
    assert(views.last() == t.requests@.last()@);
}

/// Every key with a character that is not held down with control or alt types it, but for the space
/// and the two characters that terminals send for moving up and down; control with C quits.
pub proof fn characters_type_themselves(c: char, m: KeyModifiers)
    ensures
        m.control ==> action_of(KeyCode::Char('c'), m) is Quit,
        !m.control && !m.alt && c != ' ' && c != '\u{10}' && c != '\u{e}' ==> action_of(
            KeyCode::Char(c),
            m,
        ) == KeyAction::Type(c),
        action_of(KeyCode::Char(' '), m) is ToggleExpansion,
        (m.control || m.alt) ==> action_of(KeyCode::Char(c), m) !is Type,
        only_control(m) ==> action_of(KeyCode::Char('p'), m) is MoveUp && action_of(
            KeyCode::Char('n'),
            m,
        ) is MoveDown,
        action_of(KeyCode::Up, m) is MoveUp,
        action_of(KeyCode::Down, m) is MoveDown,
        action_of(KeyCode::PageUp, m) is PageUp,
        action_of(KeyCode::PageDown, m) is PageDown,
        action_of(KeyCode::Esc, m) is Escape,
        action_of(KeyCode::Enter, m) is Confirm,
        action_of(KeyCode::Tab, m) is ToggleSort,
        action_of(KeyCode::Backspace, m) is Erase,
{
}

// ---- pages and previews ----

/// A page lists every thread whose identifier can be read, in the order in which they came.
pub proof fn pages_list_every_readable_thread(threads: Seq<ThreadSummary>, n: int, i: int)
    requires
        0 <= n <= threads.len(),
    ensures
        listed(threads, n).contains(i) <==> 0 <= i < n && thread_id::uuid_value(
            threads[i].id@,
        ) is Some,
        forall|a: int, b: int|
            0 <= a < b < listed(threads, n).len() ==> #[trigger] listed(threads, n)[a]
                < #[trigger] listed(threads, n)[b],
        forall|a: int| 0 <= a < listed(threads, n).len() ==> 0 <= #[trigger] listed(threads, n)[a] < n,
    decreases n,
{
    if n > 0 {
        pages_list_every_readable_thread(threads, n - 1, i);
        let before = listed(threads, n - 1);
        let after = listed(threads, n);
        if before.contains(i) {
            assert(after[before.index_of(i)] == i);
        }
        if after.len() > before.len() {
            assert(after[before.len() as int] == n - 1);
            if after.contains(i) && i != n - 1 {
                assert(before[after.index_of(i)] == i);
            }
        }
    }
}

/// Merging a page adds nothing but sessions of the page, keeps what was listed in its place, and
/// lists every session of the page: also those that nothing tells from others.
pub proof fn merging_adds_the_page_alone(rows: Seq<Row>, new: Seq<Row>, n: int, k: int)
    requires
        0 <= n <= new.len(),
    ensures
        ({
            let all = merged(rows, new, n);
            &&& rows.len() <= all.len() <= rows.len() + n
            &&& 0 <= k < rows.len() ==> all[k] == rows[k]
            &&& rows.len() <= k < all.len() ==> new.take(n).contains(all[k])
            &&& 0 <= k < n && session_rows::row_key(new[k]) is None ==> all.contains(new[k])
            &&& 0 <= k < n ==> all.contains(new[k]) || has_row(all, new[k])
        }),
    decreases n,
{
    if n > 0 {
        merging_adds_the_page_alone(rows, new, n - 1, k);
        let before = merged(rows, new, n - 1);
        let all = merged(rows, new, n);
        if rows.len() <= k < before.len() {
            let p = new.take(n - 1).index_of(before[k]);
            assert(new.take(n)[p] == before[k]);
        }
        if all.len() > before.len() {
            assert(all.last() == new[n - 1]);
            assert(all[before.len() as int] == new[n - 1]);
            assert(new.take(n)[n - 1] == new[n - 1]);
        }
        if 0 <= k < n - 1 {
            if before.contains(new[k]) {
                let p = before.index_of(new[k]);
                assert(all[p] == new[k]);
            }
            if has_row(before, new[k]) {
                let p = choose|p: int|
                    0 <= p < before.len() && session_rows::same_row(#[trigger] before[p], new[k]);
                assert(all[p] == before[p]);
            }
        }
    }
}

/// The texts of a preview that still have to be rendered are those of the assistant for which there
/// is no rendering at the width, in their order.
pub proof fn unrendered_texts_are_those_without_rendering(
    lines: Seq<TranscriptPreviewLine>,
    renderings: Seq<Rendering>,
    n: int,
    width: int,
    i: int,
)
    requires
        0 <= i < n <= lines.len(),
        width >= 4,
    ensures
        lines[i].speaker is Assistant && session_lines::rendering_of(
            renderings,
            lines[i].text@,
            width - 4,
        ) is None ==> unrendered_among(lines, renderings, n, width).contains(lines[i].text@),
        forall|k: int|
            0 <= k < unrendered_among(lines, renderings, n, width).len()
                ==> session_lines::rendering_of(
                renderings,
                #[trigger] unrendered_among(lines, renderings, n, width)[k],
                width - 4,
            ) is None,
    decreases n,
{
    let before = unrendered_among(lines, renderings, n - 1, width);
    let after = unrendered_among(lines, renderings, n, width);
    if i < n - 1 {
        unrendered_texts_are_those_without_rendering(lines, renderings, n - 1, width, i);
        if before.contains(lines[i].text@) {
            assert(after[before.index_of(lines[i].text@)] == lines[i].text@);
        }
    } else if n > 1 {
        unrendered_texts_are_those_without_rendering(lines, renderings, n - 1, width, 0);
    }
    if after.len() > before.len() {
        assert(after.last() == lines[n - 1].text@);
        assert(after[before.len() as int] == lines[n - 1].text@);
    }
}

// ---- the drawn list ----

/// Whether lines stand below each other from one row up to another.
pub open spec fn below_each_other(lines: Seq<PlacedView>, from: int, to: int) -> bool {
    &&& forall|i: int| 0 <= i < lines.len() ==> from <= (#[trigger] lines[i]).0 < to
    &&& forall|i: int, j: int|
        0 <= i < j < lines.len() ==> (#[trigger] lines[i]).0 < (#[trigger] lines[j]).0
}

proof fn lemma_placed(s: PickerState, i: int, y: int, limit: int, width: u16)
    requires
        0 <= i,
        y <= limit,
    ensures
        below_each_other(placed_rows(s, i, y, limit, width).0, y, limit),
        y <= placed_rows(s, i, y, limit, width).1 <= limit,
        forall|k: int|
            0 <= k < placed_rows(s, i, y, limit, width).0.len() ==> (#[trigger] placed_rows(
                s,
                i,
                y,
                limit,
                width,
            ).0[k]).0 < placed_rows(s, i, y, limit, width).1,
    decreases s.filtered_rows@.len() - i,
{
    if i < s.filtered_rows@.len() && y < limit {
        let own = stacked(s.lines(i, width), y, limit);
        let below = y + own.len();
        let next = if below < limit && i + 1 < s.filtered_rows@.len() {
            below + 1
        } else {
            below
        };
        lemma_placed(s, i + 1, next, limit, width);
        let (rest, end) = placed_rows(s, i + 1, next, limit, width);
        let all = own + rest;
        assert forall|a: int| 0 <= a < all.len() implies y <= (#[trigger] all[a]).0 < limit
            && all[a].0 < end by {
            if a < own.len() {
                assert(all[a] == own[a]);
            } else {
                assert(all[a] == rest[a - own.len()]);
            }
        }
        assert forall|a: int, b: int| 0 <= a < b < all.len() implies (#[trigger] all[a]).0 < (
        #[trigger] all[b]).0 by {
            if b >= own.len() {
                assert(all[b] == rest[b - own.len()]);
                if a >= own.len() {
                    assert(all[a] == rest[a - own.len()]);
                }
            }
        }
    }
}

/// The drawn list stays in its area and no two lines of it stand in the same row.
pub proof fn drawn_lines_do_not_overlap(s: PickerState, width: u16, height: int)
    requires
        height >= 2,
    ensures
        below_each_other(list_view(s, width, height), 0, height),
{
    if s.filtered_rows@.len() > 0 {
        let above = s.scroll_top > 0;
        let below = s.more_below(height);
        let first = if above {
            1int
        } else {
            0
        };
        let limit = first + session_lines::left_of(
            session_lines::left_of(height, first),
            if below {
                1
            } else {
                0
            },
        );
        let start = session_lines::smaller(s.scroll_top as int, s.filtered_rows@.len() - 1);
        lemma_placed(s, start, first, limit, width);
    }
}

/// A session is drawn where the one before it ends and a row below that: each of its lines, one
/// below the other, as far as there is room.
pub proof fn sessions_are_drawn_below_each_other(
    s: PickerState,
    i: int,
    y: int,
    limit: int,
    width: u16,
    k: int,
)
    requires
        0 <= i < s.filtered_rows@.len(),
        0 <= k < s.lines(i, width).len(),
        y + k < limit,
    ensures
        ({
            let lines = s.lines(i, width);
            let drawn = placed_rows(s, i, y, limit, width).0;
            let end = y + lines.len();
            &&& k < drawn.len()
            &&& drawn[k] == (y + k, lines[k])
            &&& end < limit && i + 1 < s.filtered_rows@.len() ==> drawn.skip(lines.len() as int)
                == placed_rows(s, i + 1, end + 1, limit, width).0
            &&& end >= limit || i + 1 == s.filtered_rows@.len() ==> drawn.len()
                == session_lines::smaller(lines.len() as int, limit - y)
        }),
{
    let lines = s.lines(i, width);
    let drawn = placed_rows(s, i, y, limit, width).0;
    let own = stacked(lines, y, limit);
    assert(drawn[k] == own[k]);
    let below = y + own.len();
    if below >= limit || i + 1 == s.filtered_rows@.len() {
        assert(placed_rows(s, i + 1, below, limit, width).0.len() == 0);
    }
    if y + lines.len() < limit && i + 1 < s.filtered_rows@.len() {
        assert(drawn.skip(lines.len() as int) =~= placed_rows(
            s,
            i + 1,
            y + lines.len() + 1,
            limit,
            width,
        ).0);
    }
}

// ---- how much is shown ----

/// How many rows of the screen the listed sessions take from one of them on, with one free between
/// each two.
pub open spec fn rows_from(s: PickerState, from: int) -> int
    decreases s.filtered_rows@.len() - from,
{
    if from >= s.filtered_rows@.len() {
        0
    } else {
        s.lines(from, s.width()).len() + (if from > s.scroll_top {
            1int
        } else {
            0
        }) + rows_from(s, from + 1)
    }
}

proof fn lemma_rows_from(s: PickerState, from: int)
    requires
        0 <= from,
    ensures
        rows_from(s, from) >= 0,
    decreases s.filtered_rows@.len() - from,
{
    if from < s.filtered_rows@.len() {
        lemma_rows_from(s, from + 1);
    }
}

proof fn lemma_overflows(s: PickerState, from: int, used: int, capacity: int)
    requires
        0 <= from,
    ensures
        from < s.filtered_rows@.len() ==> (s.overflows(from, used, capacity) <==> used + rows_from(
            s,
            from,
        ) > capacity),
        from >= s.filtered_rows@.len() ==> !s.overflows(from, used, capacity),
    decreases s.filtered_rows@.len() - from,
{
    if from < s.filtered_rows@.len() {
        let needed = used + (if from > s.scroll_top {
            1int
        } else {
            0int
        }) + s.lines(from, s.width()).len();
        lemma_overflows(s, from + 1, needed, capacity);
        lemma_rows_from(s, from + 1);
        assert(rows_from(s, from) == needed - used + rows_from(s, from + 1));
        if from + 1 >= s.filtered_rows@.len() {
            assert(rows_from(s, from + 1) == 0);
        }
    }
}

/// There is more below exactly if more can be loaded or the listed sessions do not all fit from the
/// top of the window on.
pub proof fn more_is_below_where_it_does_not_fit(s: PickerState, viewport: int)
    requires
        s.wf(),
        s.filtered_rows@.len() > 0,
        s.scroll_top < s.filtered_rows@.len(),
    ensures
        s.more_below(viewport) <==> s.next_cursor is Some || rows_from(s, s.scroll_top as int)
            > s.content_rows(viewport),
{
    lemma_overflows(s, s.scroll_top as int, 0, s.content_rows(viewport));
}

/// The sessions have the window but for a row each for what says that there is more above and more
/// below, and at least one row.
pub proof fn sessions_have_the_rest_of_the_window(s: PickerState, viewport: int)
    requires
        viewport >= 3,
    ensures
        ({
            let above: int = if s.scroll_top > 0 {
                1
            } else {
                0
            };
            let below: int = if s.next_cursor is Some || s.selected + 1 < s.filtered_rows@.len() {
                1
            } else {
                0
            };
            s.content_rows(viewport) == viewport - above - below
        }),
        forall|small: int| (#[trigger] s.content_rows(small)) >= 1,
{
}

/// The height of sessions that follow each other is that of their lines and a row between each two.
pub proof fn heights_add_up(s: PickerState, from: int, last: int)
    requires
        0 <= from <= last,
        s.height_between(from, last + 1) < usize::MAX,
    ensures
        s.height_between(from, from) == s.lines(from, s.width()).len() || s.height_between(
            from,
            from,
        ) == usize::MAX,
        s.height_between(from, last + 1) == s.height_between(from, last) + 1 + s.lines(
            last + 1,
            s.width(),
        ).len(),
{
    assert(s.row_lines_between(from, from) == 0);
    assert(s.row_lines_between(from, from + 1) == counted(
        0,
        s.lines(from, s.width()).len() as int,
    ));
}

/// What has to be rendered of a session is what its loaded preview still lacks.
pub proof fn only_loaded_previews_are_rendered(s: PickerState, thread_id: ThreadId, width: int)
    ensures
        !s.transcript_previews@.contains_key(thread_id.value) ==> s.unrendered(
            thread_id,
            width,
        ).len() == 0,
        s.transcript_previews@.contains_key(thread_id.value) ==> (match s.transcript_previews@[thread_id.value] {
            TranscriptPreviewState::Loaded(lines) => s.unrendered(thread_id, width)
                == unrendered_among(lines@, s.renderings@, lines@.len() as int, width),
            TranscriptPreviewState::Loading => s.unrendered(thread_id, width).len() == 0,
            TranscriptPreviewState::Failed => s.unrendered(thread_id, width).len() == 0,
        }),
{
}

/// A session shows the preview that was loaded for its own thread, and only while it is selected and
/// expanded.
pub proof fn sessions_show_their_own_preview(s: PickerState, i: int)
    ensures
        s.is_expanded(i) ==> i == s.selected && s.row(i).thread_id is Some && s.expanded_thread_id
            == s.row(i).thread_id,
        i == s.selected && s.row(i).thread_id is Some && s.expanded_thread_id == s.row(i).thread_id
            ==> s.is_expanded(i),
        s.preview(s.row(i)) matches Some(p) ==> (s.row(i).thread_id matches Some(id)
            && s.transcript_previews@.contains_key(id.value) && s.transcript_previews@[id.value] == p),
        s.row(i).thread_id matches Some(id) ==> (s.transcript_previews@.contains_key(id.value)
            ==> s.preview(s.row(i)) is Some),
{
}

/// Where no session is listed it is said why: sessions are searched or loaded still, or none match,
/// or there are none.
pub proof fn empty_lists_say_why(s: PickerState)
    ensures
        s.query@.len() > 0 && s.search_state is Active ==> empty_message(s) == "Searching…"@,
        s.query@.len() > 0 && s.search_state is Idle && s.loading is Idle && !s.reached_scan_cap
            ==> empty_message(s) == "No results for your search"@,
        s.query@.len() > 0 && s.search_state is Idle && s.loading is Idle && s.reached_scan_cap
            ==> text::has_sub(empty_message(s), text::decimal(s.num_scanned_files as nat)),
        s.query@.len() == 0 && s.loading is Idle ==> empty_message(s) == "No sessions yet"@,
        s.query@.len() == 0 && s.loading is Pending && s.all_rows@.len() == 0 && s.num_scanned_files
            == 0 ==> empty_message(s) == "Loading sessions…"@,
        s.query@.len() == 0 && s.loading is Pending && s.all_rows@.len() > 0 ==> empty_message(s)
            == "Loading older sessions…"@,
{
    text::texts_hold_their_parts(
        "Search scanned first "@,
        text::decimal(s.num_scanned_files as nat),
        " sessions; more may exist"@,
    );
}

/// A list that is filtered anew keeps its selection where that is still listed, selects the last
/// session otherwise, and changes nothing of what was loaded.
pub proof fn filtering_keeps_the_selection_in_the_list(s: PickerState, filtered_rows: Vec<usize>)
    ensures
        ({
            let t = refiltered(s, filtered_rows);
            let n = filtered_rows@.len();
            &&& t.filtered_rows == filtered_rows
            &&& s.selected < n ==> t.selected == s.selected
            &&& 0 < n <= s.selected ==> t.selected == n - 1
            &&& n == 0 ==> t.selected == 0 && t.scroll_top == 0
            &&& t.all_rows == s.all_rows && t.query == s.query && t.sort_key == s.sort_key
            &&& t.next_cursor == s.next_cursor && t.loading == s.loading && t.requests == s.requests
            &&& t.frame_requested
        }),
{
    assert(filtered_rows@.len() == filtered_rows.len());
}

/// A page that is taken replaces the cursor and adds to what was scanned; a cap that was reached
/// stays reached.
pub proof fn pages_add_to_what_was_scanned(s: PickerState, page: PickerPage, all_rows: Vec<Row>)
    ensures
        ({
            let t = page_taken(s, page, all_rows);
            &&& t.next_cursor == page.next_cursor
            &&& s.num_scanned_files + page.num_scanned_files <= usize::MAX ==> t.num_scanned_files
                == s.num_scanned_files + page.num_scanned_files
            &&& t.reached_scan_cap <==> s.reached_scan_cap || page.reached_scan_cap
            &&& t.all_rows == all_rows && t.query == s.query && t.selected == s.selected
        }),
{
}

/// A search goes on while nothing was found, the cap is not reached and there is more; and it is over
/// otherwise.
pub proof fn searches_go_on_until_something_is_found(
    s: PickerState,
    requests: Vec<PickerLoadRequest>,
    token: usize,
)
    requires
        s.search_state == (SearchState::Active { token }),
        continues_search(s, requests),
    ensures
        ({
            let t = search_continued(s, requests);
            let goes_on = s.filtered_rows@.len() == 0 && !s.reached_scan_cap
                && s.next_cursor is Some;
            &&& goes_on ==> t.search_state == s.search_state
            &&& goes_on && s.loading is Idle ==> (t.loading matches LoadingState::Pending(load)
                && load.search_token == Some(token)) && t.requests@.len() == s.requests@.len() + 1
            &&& !goes_on ==> t.search_state is Idle && t.requests == s.requests && t.loading
                == s.loading
        }),
{
    if looks_further(s) && s.loading is Idle {
        let views = request_views(requests@);
        assert(views.len() == requests@.len());
        assert(request_views(s.requests@).len() == s.requests@.len());
    }
}

} // verus!
