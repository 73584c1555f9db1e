//! The list of what can be mentioned: which of it is selected and visible, and how it looks.

use vstd::prelude::*;

use crate::mention_search;
use crate::mention_search::Candidate;
use crate::mention_search::FileMatch;
use crate::mention_search::SearchMode;
use crate::mention_search::SearchResult;
use crate::mention_search::Selection;
use crate::mention_search::ToolMatch;
use crate::text;

verus! {

/// How many rows a list shows at most.
pub const MAX_POPUP_ROWS: usize = 8;

/// The rows below the list.
pub const POPUP_FOOTER_HEIGHT: u16 = 2;

// ---- what is selected and visible ----

/// Which row of a list is selected, and where the visible part starts.
#[derive(Clone, Copy, Debug, PartialEq, Eq, Structural)]
pub struct ScrollState {
    pub selected_idx: Option<usize>,
    pub scroll_top: usize,
}

/// The smaller of two numbers.
pub open spec fn smaller(a: int, b: int) -> int {
    if a < b {
        a
    } else {
        b
    }
}

/// The state for a list of a length: a row is selected if there is one.
pub open spec fn clamped(s: ScrollState, len: int) -> ScrollState {
    if len == 0 {
        ScrollState { selected_idx: None, scroll_top: 0 }
    } else {
        ScrollState {
            selected_idx: Some(
                smaller(
                    match s.selected_idx {
                        Some(i) => i as int,
                        None => 0,
                    },
                    len - 1,
                ) as usize,
            ),
            ..s
        }
    }
}

/// The state with the row above selected; above the first is the last.
pub open spec fn moved_up(s: ScrollState, len: int) -> ScrollState {
    if len == 0 {
        ScrollState { selected_idx: None, scroll_top: 0 }
    } else {
        ScrollState {
            selected_idx: Some(
                match s.selected_idx {
                    Some(i) => if i > 0 {
                        (i - 1) as usize
                    } else {
                        (len - 1) as usize
                    },
                    None => 0,
                },
            ),
            ..s
        }
    }
}

/// The state with the row below selected; below the last is the first.
pub open spec fn moved_down(s: ScrollState, len: int) -> ScrollState {
    if len == 0 {
        ScrollState { selected_idx: None, scroll_top: 0 }
    } else {
        ScrollState {
            selected_idx: Some(
                match s.selected_idx {
                    Some(i) => if i + 1 < len {
                        (i + 1) as usize
                    } else {
                        0
                    },
                    None => 0,
                },
            ),
            ..s
        }
    }
}

/// Where the visible part starts so that the selected row is in it, moved as little as
/// needed.
pub open spec fn top_showing(top: int, selected: int, visible: int) -> int {
    if selected < top {
        selected
    } else if selected > top + visible - 1 {
        selected + 1 - visible
    } else {
        top
    }
}

/// The state with the selected row visible.
pub open spec fn shown(s: ScrollState, len: int, visible: int) -> ScrollState {
    ScrollState {
        scroll_top: if len == 0 || visible == 0 {
            0
        } else {
            match s.selected_idx {
                Some(i) => top_showing(s.scroll_top as int, i as int, visible) as usize,
                None => 0,
            }
        },
        ..s
    }
}

impl ScrollState {
    /// Nothing selected.
    pub fn new() -> (r: Self)
        ensures
            r.selected_idx is None && r.scroll_top == 0,
    {
        ScrollState { selected_idx: None, scroll_top: 0 }
    }

    /// Selects a row of a list if there is one.
    pub fn clamp_selection(&mut self, len: usize)
        ensures
            *final(self) == clamped(*old(self), len as int),
    {
        if len == 0 {
            self.selected_idx = None;
            self.scroll_top = 0;
            return;
        }
        let i: usize = match self.selected_idx {
            Some(i) => i,
            None => 0,
        };
        self.selected_idx = Some(
            if i < len - 1 {
                i
            } else {
                len - 1
            },
        );
    }

    /// Selects the row above.
    pub fn move_up_wrap(&mut self, len: usize)
        ensures
            *final(self) == moved_up(*old(self), len as int),
    {
        if len == 0 {
            self.selected_idx = None;
            self.scroll_top = 0;
            return;
        }
        self.selected_idx = Some(
            match self.selected_idx {
                Some(i) => if i > 0 {
                    i - 1
                } else {
                    len - 1
                },
                None => 0,
            },
        );
    }

    /// Selects the row below.
    pub fn move_down_wrap(&mut self, len: usize)
        ensures
            *final(self) == moved_down(*old(self), len as int),
    {
        if len == 0 {
            self.selected_idx = None;
            self.scroll_top = 0;
            return;
        }
        self.selected_idx = Some(
            match self.selected_idx {
                Some(i) => if i < len - 1 {
                    i + 1
                } else {
                    0
                },
                None => 0,
            },
        );
    }

    /// Makes the selected row visible.
    pub fn ensure_visible(&mut self, len: usize, visible_rows: usize)
        requires
            old(self).selected_idx is Some ==> old(self).selected_idx->0 < usize::MAX,
        ensures
            *final(self) == shown(*old(self), len as int, visible_rows as int),
    {
        if len == 0 || visible_rows == 0 {
            self.scroll_top = 0;
            return;
        }
        match self.selected_idx {
            Some(i) => {
                if i < self.scroll_top {
                    self.scroll_top = i;
                } else if i - self.scroll_top > visible_rows - 1 {
                    self.scroll_top = i + 1 - visible_rows;
                }
            },
            None => {
                self.scroll_top = 0;
            },
        }
    }
}

/// After a move and a scroll the selected row is a row and visible.
pub proof fn selection_stays_visible(s: ScrollState, len: int, visible: int)
    requires
        0 < visible <= len <= usize::MAX,
    ensures
        ({
            let t = shown(clamped(s, len), len, visible);
            &&& t.selected_idx matches Some(i)
            &&& i < len
            &&& t.scroll_top <= i < t.scroll_top + visible
        }),
        ({
            let u = shown(moved_down(clamped(s, len), len), len, visible);
            &&& u.selected_idx matches Some(i)
            &&& i < len
            &&& u.scroll_top <= i < u.scroll_top + visible
        }),
        moved_up(moved_down(clamped(s, len), len), len).selected_idx == clamped(
            s,
            len,
        ).selected_idx,
{
}

// ---- files ----

/// The files that were found for what is typed.
#[derive(Debug)]
pub struct FileSearchState {
    pub display_query: String,
    pub pending_query: String,
    pub waiting: bool,
    pub matches: Vec<FileMatch>,
    pub state: ScrollState,
}

/// Whether nothing is typed, nothing found and nothing waited for.
pub open spec fn is_empty_prompt(s: FileSearchState) -> bool {
    &&& s.display_query@.len() == 0
    &&& s.pending_query@.len() == 0
    &&& !s.waiting
    &&& s.matches@.len() == 0
    &&& s.state == (ScrollState { selected_idx: None, scroll_top: 0 })
}

/// Whether a search came by what was found for what is waited for: the first of it, with the
/// selection kept where it can be.
pub open spec fn takes_matches(
    before: FileSearchState,
    after: FileSearchState,
    query: Seq<char>,
    matches: Seq<FileMatch>,
) -> bool {
    let n = smaller(matches.len() as int, MAX_POPUP_ROWS as int);
    &&& after.matches@ == matches.take(n)
    &&& after.display_query@ == query
    &&& after == (FileSearchState {
        display_query: after.display_query,
        waiting: false,
        matches: after.matches,
        state: shown(clamped(before.state, n), n, n),
        ..before
    })
}

/// Whether nothing is typed and found yet.
pub open spec fn is_new_search(s: FileSearchState) -> bool {
    &&& s.display_query@.len() == 0
    &&& s.pending_query@.len() == 0
    &&& s.waiting
    &&& s.matches@.len() == 0
    &&& s.state == (ScrollState { selected_idx: None, scroll_top: 0 })
}

impl FileSearchState {
    /// Nothing found yet.
    pub fn new() -> (r: Self)
        ensures
            is_new_search(r),
    {
        FileSearchState {
            display_query: String::new(),
            pending_query: String::new(),
            waiting: true,
            matches: Vec::new(),
            state: ScrollState::new(),
        }
    }

    /// Starts to wait for what is found for something else. What was found stays until then.
    pub fn set_query(&mut self, query: &str)
        ensures
            final(self).pending_query@ == query@,
            *final(self) == (if query@ == old(self).pending_query@ {
                *old(self)
            } else {
                FileSearchState {
                    pending_query: final(self).pending_query,
                    waiting: true,
                    ..*old(self)
                }
            }),
    {
        if text::same_str(query, self.pending_query.as_str()) {
            return;
        }
        self.pending_query = query.to_owned();
        self.waiting = true;
    }

    /// Forgets what was found.
    pub fn set_empty_prompt(&mut self)
        ensures
            is_empty_prompt(*final(self)),
    {
        self.display_query = String::new();
        self.pending_query = String::new();
        self.waiting = false;
        self.matches = Vec::new();
        self.state = ScrollState::new();
    }

    /// Takes over the first of what was found, unless something else was typed since.
    pub fn set_matches(&mut self, query: &str, matches: Vec<FileMatch>)
        ensures
            if query@ != old(self).pending_query@ {
                *final(self) == *old(self)
            } else {
                takes_matches(*old(self), *final(self), query@, matches@)
            },
    {
        if !text::same_str(query, self.pending_query.as_str()) {
            return;
        }
        self.display_query = query.to_owned();
        let mut kept = matches;
        let ghost all = kept@;
        if kept.len() > MAX_POPUP_ROWS {
            let _rest = kept.split_off(MAX_POPUP_ROWS);
        }
        assert(kept@ =~= all.take(smaller(all.len() as int, MAX_POPUP_ROWS as int)));
        self.matches = kept;
        self.waiting = false;
        let len = self.matches.len();
        self.state.clamp_selection(len);
        self.state.ensure_visible(len, len);
    }

    /// Whether anything was found.
    pub fn has_matches(&self) -> (r: bool)
        ensures
            r == (self.matches@.len() > 0),
    {
        self.matches.len() > 0
    }

    /// What an empty list says.
    pub fn empty_message(&self) -> (r: &'static str)
        ensures
            r@ == if self.waiting {
                "loading..."@
            } else {
                "no matches"@
            },
    {
        if self.waiting {
            "loading..."
        } else {
            "no matches"
        }
    }
}

// ---- the list ----

/// The list of what can be mentioned. `tool_matches` says how well the query fits each
/// candidate.
#[derive(Debug)]
pub struct UnifiedMentionsPopup {
    pub query: String,
    pub file_search: FileSearchState,
    pub candidates: Vec<Candidate>,
    pub tool_matches: Vec<ToolMatch>,
    pub search_mode: SearchMode,
    pub state: ScrollState,
}

/// Whether there is a match for each candidate and its terms.
pub open spec fn matches_fit(candidates: Seq<Candidate>, matches: Seq<ToolMatch>) -> bool {
    &&& matches.len() == candidates.len()
    &&& forall|i: int|
        0 <= i < candidates.len() ==> (#[trigger] matches[i]).term_scores@.len()
            == candidates[i].search_terms@.len()
}

/// What the list offers, before it is put in order.
pub open spec fn offered(p: UnifiedMentionsPopup) -> Seq<mention_search::ResultView> {
    mention_search::found_tools(
        p.candidates@,
        p.tool_matches@,
        text::trim(p.query@).len() > 0,
        p.search_mode,
        p.candidates@.len() as int,
    ) + mention_search::found_files(
        p.file_search.matches@,
        p.search_mode,
        p.file_search.matches@.len() as int,
    )
}

/// The list with a row selected and visible, for as many rows as it offers.
pub open spec fn settled(p: UnifiedMentionsPopup) -> UnifiedMentionsPopup {
    let n = offered(p).len() as int;
    UnifiedMentionsPopup {
        state: shown(clamped(p.state, n), n, smaller(n, MAX_POPUP_ROWS as int)),
        ..p
    }
}

impl UnifiedMentionsPopup {
    /// Whether there is a match for each candidate.
    pub open spec fn wf(&self) -> bool {
        matches_fit(self.candidates@, self.tool_matches@)
    }

    /// A list for which nothing was typed.
    pub fn new(candidates: Vec<Candidate>, tool_matches: Vec<ToolMatch>) -> (r: Self)
        requires
            matches_fit(candidates@, tool_matches@),
        ensures
            r.wf(),
            r.candidates == candidates && r.tool_matches == tool_matches,
            r.query@.len() == 0 && r.search_mode == SearchMode::Results,
            r.state == (ScrollState { selected_idx: None, scroll_top: 0 }),
            is_new_search(r.file_search),
    {
        UnifiedMentionsPopup {
            query: String::new(),
            file_search: FileSearchState::new(),
            candidates,
            tool_matches,
            search_mode: SearchMode::Results,
            state: ScrollState::new(),
        }
    }

    /// What the list offers, in order.
    pub fn rows(&self) -> (r: Vec<SearchResult>)
        requires
            self.wf(),
        ensures
            mention_search::is_sorted_version(
                offered(*self),
                mention_search::result_views(r@),
                text::trim(self.query@),
            ),
            r@.len() == offered(*self).len(),
    {
        let r = mention_search::filtered_candidates(
            self.candidates.as_slice(),
            self.tool_matches.as_slice(),
            self.file_search.matches.as_slice(),
            self.query.as_str(),
            self.search_mode,
            self.file_search.has_matches(),
        );
        assert(mention_search::result_views(r@).len() == r@.len());
        r
    }

    fn clamp_selection(&mut self)
        requires
            old(self).wf(),
        ensures
            final(self).wf(),
            *final(self) == settled(*old(self)),
    {
        let rows = self.rows();
        let len = rows.len();
        self.state.clamp_selection(len);
        self.state.ensure_visible(
            len,
            if MAX_POPUP_ROWS < len {
                MAX_POPUP_ROWS
            } else {
                len
            },
        );
    }

    /// Takes over other candidates.
    pub fn set_candidates(&mut self, candidates: Vec<Candidate>, tool_matches: Vec<ToolMatch>)
        requires
            matches_fit(candidates@, tool_matches@),
        ensures
            final(self).wf(),
            *final(self) == settled(
                UnifiedMentionsPopup { candidates, tool_matches, ..*old(self) },
            ),
    {
        self.candidates = candidates;
        self.tool_matches = tool_matches;
        self.clamp_selection();
    }

    /// Takes over what was typed. Files are searched for unless nothing is.
    pub fn set_query(&mut self, query: &str, tool_matches: Vec<ToolMatch>)
        requires
            matches_fit(old(self).candidates@, tool_matches@),
        ensures
            final(self).wf(),
            final(self).query@ == query@,
            final(self).file_search.pending_query@ == query@,
            *final(self) == settled(
                UnifiedMentionsPopup {
                    query: final(self).query,
                    file_search: final(self).file_search,
                    tool_matches,
                    ..*old(self)
                },
            ),
            if query@.len() == 0 {
                is_empty_prompt(final(self).file_search)
            } else {
                final(self).file_search == (if query@ == old(self).file_search.pending_query@ {
                    old(self).file_search
                } else {
                    FileSearchState {
                        pending_query: final(self).file_search.pending_query,
                        waiting: true,
                        ..old(self).file_search
                    }
                })
            },
    {
        self.query = query.to_owned();
        self.tool_matches = tool_matches;
        if text::chars_of(query).len() == 0 {
            self.file_search.set_empty_prompt();
            assert(self.file_search.pending_query@ =~= query@);
        } else {
            self.file_search.set_query(query);
        }
        self.clamp_selection();
    }

    /// Takes over the files that were found for something that was typed.
    pub fn set_file_matches(&mut self, query: &str, matches: Vec<FileMatch>)
        requires
            old(self).wf(),
        ensures
            final(self).wf(),
            *final(self) == settled(
                UnifiedMentionsPopup { file_search: final(self).file_search, ..*old(self) },
            ),
            if query@ != old(self).file_search.pending_query@ {
                final(self).file_search == old(self).file_search
            } else {
                takes_matches(
                    old(self).file_search,
                    final(self).file_search,
                    query@,
                    matches@,
                )
            },
    {
        self.file_search.set_matches(query, matches);
        self.clamp_selection();
    }

    /// What is put into the message for the selected row.
    pub fn selected(&self) -> (r: Option<Selection>)
        requires
            self.wf(),
        ensures
            r is Some <==> self.state.selected_idx is Some && self.state.selected_idx->0 < offered(
                *self,
            ).len(),
            r is Some ==> exists|rows: Seq<mention_search::ResultView>|
                mention_search::is_sorted_version(
                    offered(*self),
                    rows,
                    text::trim(self.query@),
                ) && #[trigger] rows[self.state.selected_idx->0 as int].selection == r->0@,
    {
        let rows = self.rows();
        let ghost views = mention_search::result_views(rows@);
        match self.state.selected_idx {
            Some(i) => if i < rows.len() {
                let r = rows[i].selection.duplicate();
                assert(views[i as int].selection == r@);
                Some(r)
            } else {
                None
            },
            None => None,
        }
    }

    /// Selects the row above.
    pub fn move_up(&mut self)
        requires
            old(self).wf(),
        ensures
            final(self).wf(),
            ({
                let n = offered(*old(self)).len() as int;
                *final(self) == (UnifiedMentionsPopup {
                    state: shown(
                        moved_up(old(self).state, n),
                        n,
                        smaller(n, MAX_POPUP_ROWS as int),
                    ),
                    ..*old(self)
                })
            }),
    {
        let rows = self.rows();
        let len = rows.len();
        self.state.move_up_wrap(len);
        self.state.ensure_visible(
            len,
            if MAX_POPUP_ROWS < len {
                MAX_POPUP_ROWS
            } else {
                len
            },
        );
    }

    /// Selects the row below.
    pub fn move_down(&mut self)
        requires
            old(self).wf(),
        ensures
            final(self).wf(),
            ({
                let n = offered(*old(self)).len() as int;
                *final(self) == (UnifiedMentionsPopup {
                    state: shown(
                        moved_down(old(self).state, n),
                        n,
                        smaller(n, MAX_POPUP_ROWS as int),
                    ),
                    ..*old(self)
                })
            }),
    {
        let rows = self.rows();
        let len = rows.len();
        self.state.move_down_wrap(len);
        self.state.ensure_visible(
            len,
            if MAX_POPUP_ROWS < len {
                MAX_POPUP_ROWS
            } else {
                len
            },
        );
    }

    /// Goes back to the mode before.
    pub fn previous_search_mode(&mut self)
        requires
            old(self).wf(),
        ensures
            final(self).wf(),
            *final(self) == settled(
                UnifiedMentionsPopup {
                    search_mode: mention_search::mode_before(old(self).search_mode),
                    ..*old(self)
                },
            ),
    {
        self.search_mode = self.search_mode.previous();
        self.clamp_selection();
    }

    /// Goes on to the next mode.
    pub fn next_search_mode(&mut self)
        requires
            old(self).wf(),
        ensures
            final(self).wf(),
            *final(self) == settled(
                UnifiedMentionsPopup {
                    search_mode: mention_search::mode_after(old(self).search_mode),
                    ..*old(self)
                },
            ),
    {
        self.search_mode = self.search_mode.next();
        self.clamp_selection();
    }

    /// The rows that the list takes on the screen.
    pub fn calculate_required_height(&self) -> (r: u16)
        ensures
            r == MAX_POPUP_ROWS + POPUP_FOOTER_HEIGHT,
    {
        MAX_POPUP_ROWS as u16 + POPUP_FOOTER_HEIGHT
    }
}

/// The selection goes through all rows in turn, in both directions: from a row to the next or the
/// one before it, from the last to the first and from the first to the last. Where nothing is
/// selected, the first row is.
pub proof fn selections_go_round(s: ScrollState, len: int)
    requires
        0 < len <= usize::MAX,
    ensures
        s.selected_idx is None ==> moved_up(s, len).selected_idx == Some(0usize) && moved_down(
            s,
            len,
        ).selected_idx == Some(0usize) && clamped(s, len).selected_idx == Some(0usize),
        s.selected_idx matches Some(i) ==> {
            &&& i < len - 1 ==> moved_down(s, len).selected_idx == Some((i + 1) as usize)
            &&& i == len - 1 ==> moved_down(s, len).selected_idx == Some(0usize)
            &&& i > 0 ==> moved_up(s, len).selected_idx == Some((i - 1) as usize)
            &&& i == 0 ==> moved_up(s, len).selected_idx == Some((len - 1) as usize)
            &&& i < len ==> clamped(s, len) == s
            &&& i >= len ==> clamped(s, len).selected_idx == Some((len - 1) as usize)
            &&& i < len ==> moved_up(moved_down(s, len), len) == s && moved_down(
                moved_up(s, len),
                len,
            ) == s
        },
        moved_up(s, 0).selected_idx is None && moved_down(s, 0).selected_idx is None && clamped(
            s,
            0,
        ).selected_idx is None,
{
}

/// The window is moved no further than it takes to show the selected row.
pub proof fn windows_move_as_little_as_needed(top: int, selected: int, visible: int)
    requires
        visible > 0,
    ensures
        top <= selected < top + visible ==> top_showing(top, selected, visible) == top,
        selected < top ==> top_showing(top, selected, visible) == selected,
        selected >= top + visible ==> top_showing(top, selected, visible) + visible - 1 == selected,
{
}

/// Of the files that were found for the query at hand the first eight are taken, in their order,
/// and the search is over.
pub proof fn the_first_files_are_taken(
    before: FileSearchState,
    after: FileSearchState,
    query: Seq<char>,
    matches: Seq<FileMatch>,
    i: int,
)
    requires
        takes_matches(before, after, query, matches),
    ensures
        !after.waiting,
        after.display_query@ == query,
        after.pending_query == before.pending_query,
        matches.len() <= 8 ==> after.matches@ == matches,
        matches.len() > 8 ==> after.matches@.len() == 8,
        0 <= i < after.matches@.len() ==> after.matches@[i] == matches[i],
{
    assert(matches.take(matches.len() as int) =~= matches);
}

/// The modes of the search follow each other in a circle.
pub proof fn modes_go_round(mode: SearchMode)
    ensures
        mention_search::mode_before(mention_search::mode_after(mode)) == mode,
        mention_search::mode_after(mention_search::mode_before(mode)) == mode,
        mention_search::mode_after(mode) != mode,
        mention_search::mode_after(
            mention_search::mode_after(mention_search::mode_after(mode)),
        ) == mode,
{
}

proof fn lemma_all_tools(
    candidates: Seq<Candidate>,
    matches: Seq<ToolMatch>,
    n: int,
)
    requires
        0 <= n <= candidates.len(),
    ensures
        mention_search::found_tools(candidates, matches, false, SearchMode::Results, n).len() == n,
    decreases n,
{
    if n > 0 {
        lemma_all_tools(candidates, matches, n - 1);
    }
}

proof fn lemma_all_files(files: Seq<FileMatch>, n: int)
    requires
        0 <= n <= files.len(),
    ensures
        mention_search::found_files(files, SearchMode::Results, n).len() == n,
    decreases n,
{
    if n > 0 {
        lemma_all_files(files, n - 1);
    }
}

/// Without a query, or with a blank one, everything there is is offered; with one, every file that
/// was found still is.
pub proof fn blank_queries_offer_everything(p: UnifiedMentionsPopup)
    requires
        p.search_mode is Results,
    ensures
        text::trim(p.query@).len() == 0 ==> offered(p).len() == p.candidates@.len()
            + p.file_search.matches@.len(),
        offered(p).len() >= p.file_search.matches@.len(),
{
    if text::trim(p.query@).len() == 0 {
        lemma_all_tools(p.candidates@, p.tool_matches@, p.candidates@.len() as int);
    }
    lemma_all_files(p.file_search.matches@, p.file_search.matches@.len() as int);
}

/// To settle the popup moves its selection onto what is offered and into sight, and changes nothing
/// else of it.
pub proof fn settling_moves_the_selection_only(p: UnifiedMentionsPopup)
    requires
        offered(p).len() <= usize::MAX,
    ensures
        ({
            let q = settled(p);
            let n = offered(p).len() as int;
            &&& q.query == p.query && q.file_search == p.file_search && q.candidates == p.candidates
            &&& q.tool_matches == p.tool_matches && q.search_mode == p.search_mode
            &&& n == 0 ==> q.state.selected_idx is None
            &&& n > 0 ==> (q.state.selected_idx matches Some(i) && i < n && q.state.scroll_top <= i
                < q.state.scroll_top + smaller(n, 8))
            &&& n > 0 ==> (p.state.selected_idx matches Some(i) ==> (i < n
                ==> q.state.selected_idx == Some(i)))
        }),
{
    let n = offered(p).len() as int;
    if n > 0 {
        selection_stays_visible(p.state, n, smaller(n, MAX_POPUP_ROWS as int));
    }
}

} // verus!
