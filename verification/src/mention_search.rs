//! What can be mentioned: plugins, skills and files, filtered by what is typed and put in the
//! order in which they are offered.

use vstd::prelude::*;

use crate::order;
use crate::text;

verus! {

// ---- kinds and modes ----

/// What a mention is of.
#[derive(Clone, Copy, Debug, PartialEq, Eq, Structural)]
pub enum MentionType {
    Plugin,
    Skill,
    File,
    Directory,
}

/// Whether a mention is of something on disk.
pub open spec fn on_disk(t: MentionType) -> bool {
    t == MentionType::File || t == MentionType::Directory
}

/// How a kind of mention is called.
pub open spec fn type_label(t: MentionType) -> Seq<char> {
    match t {
        MentionType::Plugin => "Plugin"@,
        MentionType::Skill => "Skill"@,
        MentionType::File => "File"@,
        MentionType::Directory => "Dir"@,
    }
}

impl MentionType {
    /// Whether the mention is of something on disk.
    pub fn is_filesystem(self) -> (r: bool)
        ensures
            r == on_disk(self),
    {
        match self {
            MentionType::File => true,
            MentionType::Directory => true,
            _ => false,
        }
    }

    /// How the kind of mention is called.
    pub fn label(self) -> (r: &'static str)
        ensures
            r@ == type_label(self),
    {
        match self {
            MentionType::Plugin => "Plugin",
            MentionType::Skill => "Skill",
            MentionType::File => "File",
            MentionType::Directory => "Dir",
        }
    }
}

/// What is searched.
#[derive(Clone, Copy, Debug, PartialEq, Eq, Structural)]
pub enum SearchMode {
    Results,
    FilesystemOnly,
    Tools,
}

/// Whether a mode offers a kind of mention.
pub open spec fn mode_accepts(mode: SearchMode, t: MentionType) -> bool {
    match mode {
        SearchMode::Results => true,
        SearchMode::FilesystemOnly => on_disk(t),
        SearchMode::Tools => !on_disk(t),
    }
}

/// The mode after a mode.
pub open spec fn mode_after(mode: SearchMode) -> SearchMode {
    match mode {
        SearchMode::Results => SearchMode::FilesystemOnly,
        SearchMode::FilesystemOnly => SearchMode::Tools,
        SearchMode::Tools => SearchMode::Results,
    }
}

/// The mode before a mode.
pub open spec fn mode_before(mode: SearchMode) -> SearchMode {
    match mode {
        SearchMode::Results => SearchMode::Tools,
        SearchMode::FilesystemOnly => SearchMode::Results,
        SearchMode::Tools => SearchMode::FilesystemOnly,
    }
}

/// How a mode is called.
pub open spec fn mode_label(mode: SearchMode) -> Seq<char> {
    match mode {
        SearchMode::Results => "All Results"@,
        SearchMode::FilesystemOnly => "Filesystem Only"@,
        SearchMode::Tools => "Plugins"@,
    }
}

impl SearchMode {
    /// The mode before.
    pub fn previous(self) -> (r: SearchMode)
        ensures
            r == mode_before(self),
    {
        match self {
            SearchMode::Results => SearchMode::Tools,
            SearchMode::FilesystemOnly => SearchMode::Results,
            SearchMode::Tools => SearchMode::FilesystemOnly,
        }
    }

    /// The mode after.
    pub fn next(self) -> (r: SearchMode)
        ensures
            r == mode_after(self),
    {
        match self {
            SearchMode::Results => SearchMode::FilesystemOnly,
            SearchMode::FilesystemOnly => SearchMode::Tools,
            SearchMode::Tools => SearchMode::Results,
        }
    }

    /// Whether the mode offers a kind of mention.
    pub fn accepts(self, mention_type: MentionType) -> (r: bool)
        ensures
            r == mode_accepts(self, mention_type),
    {
        match self {
            SearchMode::Results => true,
            SearchMode::FilesystemOnly => mention_type.is_filesystem(),
            SearchMode::Tools => !mention_type.is_filesystem(),
        }
    }

    /// How the mode is called.
    pub fn label(self) -> (r: &'static str)
        ensures
            r@ == mode_label(self),
    {
        match self {
            SearchMode::Results => "All Results",
            SearchMode::FilesystemOnly => "Filesystem Only",
            SearchMode::Tools => "Plugins",
        }
    }
}

/// Going on and going back undo each other, and three steps come back to the start.
pub proof fn modes_are_a_cycle(mode: SearchMode)
    ensures
        mode_before(mode_after(mode)) == mode,
        mode_after(mode_before(mode)) == mode,
        mode_after(mode_after(mode_after(mode))) == mode,
{
}

// ---- candidates ----

/// What is put into the message.
#[derive(Debug)]
pub enum Selection {
    File(String),
    Tool { insert_text: String, path: Option<String> },
}

/// What is put into the message, by its texts.
pub ghost enum SelectionView {
    File(Seq<char>),
    Tool { insert_text: Seq<char>, path: Option<Seq<char>> },
}

impl View for Selection {
    type V = SelectionView;

    open spec fn view(&self) -> SelectionView {
        match self {
            Selection::File(p) => SelectionView::File(p@),
            Selection::Tool { insert_text, path } => SelectionView::Tool {
                insert_text: insert_text@,
                path: text::option_view(*path),
            },
        }
    }
}

impl Selection {
    /// The same again.
    pub fn duplicate(&self) -> (r: Selection)
        ensures
            r@ == self@,
    {
        match self {
            Selection::File(p) => Selection::File(p.clone()),
            Selection::Tool { insert_text, path } => Selection::Tool {
                insert_text: insert_text.clone(),
                path: text::clone_option(path),
            },
        }
    }
}

/// A tool that can be mentioned.
#[derive(Debug)]
pub struct Candidate {
    pub display_name: String,
    pub description: Option<String>,
    pub search_terms: Vec<String>,
    pub mention_type: MentionType,
    pub selection: Selection,
}

/// What is known of a skill; the name and description that it is shown with.
#[derive(Debug)]
pub struct SkillInfo {
    pub name: String,
    pub display_name: String,
    pub description: String,
    pub path: String,
}

/// What is known of a plugin.
#[derive(Debug)]
pub struct PluginInfo {
    pub config_name: String,
    pub display_name: String,
    pub description: Option<String>,
    pub has_skills: bool,
    pub mcp_server_count: usize,
    pub app_count: usize,
}

/// Whether a candidate is that of a skill.
pub open spec fn is_skill_candidate(c: Candidate, skill: SkillInfo) -> bool {
    &&& c.display_name@ == skill.display_name@
    &&& text::option_view(c.description) == (if text::trim(skill.description@).len() == 0 {
        None
    } else {
        Some(text::trim(skill.description@))
    })
    &&& text::string_views(c.search_terms@) == (if skill.display_name@ == skill.name@ {
        seq![skill.name@]
    } else {
        seq![skill.name@, skill.display_name@]
    })
    &&& c.mention_type == MentionType::Skill
    &&& c.selection@ == (SelectionView::Tool {
        insert_text: "$"@ + skill.name@,
        path: Some(skill.path@),
    })
}

fn prefixed(prefix: &str, s: &str) -> (r: String)
    ensures
        r@ == prefix@ + s@,
{
    let mut r = prefix.to_owned();
    r.push_str(s);
    r
}

fn push_term(terms: &mut Vec<String>, term: String)
    ensures
        text::string_views(final(terms)@) == text::string_views(old(terms)@).push(term@),
{
    let ghost before = terms@;
    terms.push(term);
    assert(text::string_views(terms@) =~= text::string_views(before).push(term@));
}

fn no_terms() -> (r: Vec<String>)
    ensures
        text::string_views(r@) == Seq::<Seq<char>>::empty(),
{
    let r: Vec<String> = Vec::new();
    assert(text::string_views(r@) =~= Seq::<Seq<char>>::empty());
    r
}

/// The candidate of a skill.
pub fn skill_candidate(skill: &SkillInfo) -> (r: Candidate)
    ensures
        is_skill_candidate(r, *skill),
{
    let description = text::trim_str(skill.description.as_str());
    let mut search_terms = no_terms();
    push_term(&mut search_terms, skill.name.clone());
    if !text::same_str(skill.display_name.as_str(), skill.name.as_str()) {
        push_term(&mut search_terms, skill.display_name.clone());
        assert(text::string_views(search_terms@) =~= seq![skill.name@, skill.display_name@]);
    } else {
        assert(text::string_views(search_terms@) =~= seq![skill.name@]);
    }
    Candidate {
        display_name: skill.display_name.clone(),
        description: if text::chars_of(description.as_str()).len() == 0 {
            None
        } else {
            Some(description)
        },
        search_terms,
        mention_type: MentionType::Skill,
        selection: Selection::Tool {
            insert_text: prefixed("$", skill.name.as_str()),
            path: Some(skill.path.clone()),
        },
    }
}

/// The name of a plugin: what stands before the first `@`.
pub open spec fn plugin_name(config_name: Seq<char>) -> Seq<char> {
    config_name.take(text::first_index(config_name, '@'))
}

/// The marketplace of a plugin: what stands behind the first `@`.
pub open spec fn marketplace_name(config_name: Seq<char>) -> Seq<char> {
    let at = text::first_index(config_name, '@');
    if at < config_name.len() {
        config_name.skip(at + 1)
    } else {
        Seq::empty()
    }
}

/// A number of things.
pub open spec fn counted(n: int, one: Seq<char>, many: Seq<char>) -> Seq<Seq<char>> {
    if n == 0 {
        Seq::empty()
    } else if n == 1 {
        seq![one]
    } else {
        seq![text::decimal(n as nat) + many]
    }
}

/// What a plugin brings.
pub open spec fn capability_labels(plugin: PluginInfo) -> Seq<Seq<char>> {
    (if plugin.has_skills {
        seq!["skills"@]
    } else {
        Seq::empty()
    }) + counted(plugin.mcp_server_count as int, "1 MCP server"@, " MCP servers"@) + counted(
        plugin.app_count as int,
        "1 app"@,
        " apps"@,
    )
}

/// How a plugin is described: in its own words, or by what it brings.
pub open spec fn plugin_text(plugin: PluginInfo) -> Seq<char> {
    match plugin.description {
        Some(d) => d@,
        None => if capability_labels(plugin).len() == 0 {
            "Plugin"@
        } else {
            "Plugin - "@ + text::join(capability_labels(plugin), " - "@)
        },
    }
}

fn push_count(labels: &mut Vec<String>, n: usize, one: &str, many: &str)
    ensures
        text::string_views(final(labels)@) == text::string_views(old(labels)@) + counted(
            n as int,
            one@,
            many@,
        ),
{
    let ghost before = text::string_views(labels@);
    if n == 0 {
        assert(before + Seq::<Seq<char>>::empty() =~= before);
    } else if n == 1 {
        push_term(labels, one.to_owned());
        assert(before.push(one@) =~= before + seq![one@]);
    } else {
        let mut s = text::decimal_u64(n as u64);
        s.push_str(many);
        push_term(labels, s);
        assert(before.push(s@) =~= before + seq![s@]);
    }
}

/// What a plugin brings.
pub fn plugin_capability_labels(plugin: &PluginInfo) -> (r: Vec<String>)
    ensures
        text::string_views(r@) == capability_labels(*plugin),
{
    let mut labels = no_terms();
    if plugin.has_skills {
        push_term(&mut labels, "skills".to_owned());
        assert(text::string_views(labels@) =~= seq!["skills"@]);
    }
    push_count(&mut labels, plugin.mcp_server_count, "1 MCP server", " MCP servers");
    push_count(&mut labels, plugin.app_count, "1 app", " apps");
    labels
}

/// How a plugin is described.
pub fn plugin_description(plugin: &PluginInfo) -> (r: String)
    ensures
        r@ == plugin_text(*plugin),
{
    match &plugin.description {
        Some(d) => d.clone(),
        None => {
            let labels = plugin_capability_labels(plugin);
            assert(text::string_views(labels@).len() == labels@.len());
            if labels.len() == 0 {
                return "Plugin".to_owned();
            }
            let joined = text::join_strings(labels.as_slice(), " - ");
            prefixed("Plugin - ", joined.as_str())
        },
    }
}

/// What a plugin is found by.
pub open spec fn plugin_terms(plugin: PluginInfo) -> Seq<Seq<char>> {
    let name = plugin_name(plugin.config_name@);
    let market = marketplace_name(plugin.config_name@);
    seq![name, plugin.config_name@] + (if plugin.display_name@ != name {
        seq![plugin.display_name@]
    } else {
        Seq::empty()
    }) + (if market.len() > 0 {
        seq![market]
    } else {
        Seq::empty()
    })
}

/// Whether a candidate is that of a plugin.
pub open spec fn is_plugin_candidate(c: Candidate, plugin: PluginInfo) -> bool {
    &&& c.display_name@ == plugin.display_name@
    &&& text::option_view(c.description) == Some(plugin_text(plugin))
    &&& text::string_views(c.search_terms@) == plugin_terms(plugin)
    &&& c.mention_type == MentionType::Plugin
    &&& c.selection@ == (SelectionView::Tool {
        insert_text: "$"@ + plugin_name(plugin.config_name@),
        path: Some("plugin://"@ + plugin.config_name@),
    })
}

/// The candidate of a plugin.
pub fn plugin_candidate(plugin: &PluginInfo) -> (r: Candidate)
    ensures
        is_plugin_candidate(r, *plugin),
{
    let chars = text::chars_of(plugin.config_name.as_str());
    let at = text::index_from(chars.as_slice(), '@', 0);
    assert(chars@.skip(0) =~= chars@);
    proof {
        text::lemma_first_index(chars@, '@');
    }
    let name = text::string_of_range(chars.as_slice(), 0, at);
    assert(name@ =~= plugin_name(plugin.config_name@));
    let mut search_terms = no_terms();
    push_term(&mut search_terms, name.clone());
    push_term(&mut search_terms, plugin.config_name.clone());
    let ghost mut expected = seq![name@, plugin.config_name@];
    assert(text::string_views(search_terms@) =~= expected);
    if !text::same_str(plugin.display_name.as_str(), name.as_str()) {
        push_term(&mut search_terms, plugin.display_name.clone());
        assert(text::string_views(search_terms@) =~= expected + seq![plugin.display_name@]);
        proof {
            expected = expected + seq![plugin.display_name@];
        }
    } else {
        assert(expected + Seq::<Seq<char>>::empty() =~= expected);
    }
    if at < chars.len() && chars.len() - at > 1 {
        let market = text::string_of_range(chars.as_slice(), at + 1, chars.len());
        assert(market@ =~= marketplace_name(plugin.config_name@));
        push_term(&mut search_terms, market);
        assert(text::string_views(search_terms@) =~= expected + seq![market@]);
    } else {
        assert(marketplace_name(plugin.config_name@).len() == 0);
        assert(expected + Seq::<Seq<char>>::empty() =~= expected);
    }
    Candidate {
        display_name: plugin.display_name.clone(),
        description: Some(plugin_description(plugin)),
        search_terms,
        mention_type: MentionType::Plugin,
        selection: Selection::Tool {
            insert_text: prefixed("$", name.as_str()),
            path: Some(prefixed("plugin://", plugin.config_name.as_str())),
        },
    }
}

/// The tools that can be mentioned: the skills, and then the plugins.
pub fn build_search_catalog(skills: &[SkillInfo], plugins: &[PluginInfo]) -> (r: Vec<Candidate>)
    ensures
        r@.len() == skills@.len() + plugins@.len(),
        forall|i: int|
            0 <= i < skills@.len() ==> is_skill_candidate(#[trigger] r@[i], skills@[i]),
        forall|i: int|
            skills@.len() <= i < r@.len() ==> is_plugin_candidate(
                #[trigger] r@[i],
                plugins@[i - skills@.len()],
            ),
{
    let mut r: Vec<Candidate> = Vec::new();
    let mut i: usize = 0;
    while i < skills.len()
        invariant
            i <= skills.len(),
            r@.len() == i,
            forall|j: int| 0 <= j < i ==> is_skill_candidate(#[trigger] r@[j], skills@[j]),
        decreases skills.len() - i,
    {
        r.push(skill_candidate(&skills[i]));
        i = i + 1;
    }
    let mut k: usize = 0;
    while k < plugins.len()
        invariant
            k <= plugins.len(),
            r@.len() == skills@.len() + k,
            forall|j: int|
                0 <= j < skills@.len() ==> is_skill_candidate(#[trigger] r@[j], skills@[j]),
            forall|j: int|
                skills@.len() <= j < r@.len() ==> is_plugin_candidate(
                    #[trigger] r@[j],
                    plugins@[j - skills@.len()],
                ),
        decreases plugins.len() - k,
    {
        r.push(plugin_candidate(&plugins[k]));
        k = k + 1;
    }
    r
}

// ---- matches ----

/// A file that was found.
#[derive(Debug)]
pub struct FileMatch {
    pub score: u32,
    pub path: String,
    pub is_directory: bool,
    pub indices: Option<Vec<u32>>,
}

/// How well a query fits a tool: its shown name, with the characters that fit, and each of
/// its search terms. A smaller score is better.
#[derive(Debug)]
pub struct ToolMatch {
    pub name_match: Option<(Vec<usize>, i32)>,
    pub term_scores: Vec<Option<i32>>,
}

/// The best score among the first `n` terms that are not the shown name.
pub open spec fn best_term(c: Candidate, m: ToolMatch, n: int) -> Option<i32>
    decreases n,
{
    if n <= 0 {
        None
    } else {
        let before = best_term(c, m, n - 1);
        if c.search_terms@[n - 1]@ == c.display_name@ {
            before
        } else {
            match (before, m.term_scores@[n - 1]) {
                (Some(a), Some(b)) => if b < a {
                    Some(b)
                } else {
                    Some(a)
                },
                (Some(a), None) => Some(a),
                (None, b) => b,
            }
        }
    }
}

/// What a tool is found by: its shown name, or else the best of its terms.
pub open spec fn tool_match(c: Candidate, m: ToolMatch) -> Option<(Option<Seq<usize>>, i32)> {
    match m.name_match {
        Some((indices, score)) => Some((Some(indices@), score)),
        None => match best_term(c, m, c.search_terms@.len() as int) {
            Some(score) => Some((None, score)),
            None => None,
        },
    }
}

fn best_term_score(c: &Candidate, m: &ToolMatch) -> (r: Option<i32>)
    requires
        m.term_scores@.len() == c.search_terms@.len(),
    ensures
        r == best_term(*c, *m, c.search_terms@.len() as int),
{
    let mut best: Option<i32> = None;
    let mut i: usize = 0;
    while i < c.search_terms.len()
        invariant
            i <= c.search_terms.len(),
            m.term_scores@.len() == c.search_terms@.len(),
            best == best_term(*c, *m, i as int),
        decreases c.search_terms.len() - i,
    {
        if !text::same_str(c.search_terms[i].as_str(), c.display_name.as_str()) {
            best = match (best, m.term_scores[i]) {
                (Some(a), Some(b)) => if b < a {
                    Some(b)
                } else {
                    Some(a)
                },
                (Some(a), None) => Some(a),
                (None, b) => b,
            };
        }
        i = i + 1;
    }
    best
}

// ---- results ----

/// Something that is offered.
#[derive(Debug)]
pub struct SearchResult {
    pub display_name: String,
    pub description: Option<String>,
    pub mention_type: MentionType,
    pub selection: Selection,
    pub match_indices: Option<Vec<usize>>,
    pub score: i32,
}

/// Something that is offered, by its texts.
#[verifier::ext_equal]
pub ghost struct ResultView {
    pub display_name: Seq<char>,
    pub description: Option<Seq<char>>,
    pub mention_type: MentionType,
    pub selection: SelectionView,
    pub match_indices: Option<Seq<usize>>,
    pub score: i32,
}

/// Positions by their values.
pub open spec fn indices_view(v: Option<Vec<usize>>) -> Option<Seq<usize>> {
    match v {
        Some(i) => Some(i@),
        None => None,
    }
}

impl View for SearchResult {
    type V = ResultView;

    open spec fn view(&self) -> ResultView {
        ResultView {
            display_name: self.display_name@,
            description: text::option_view(self.description),
            mention_type: self.mention_type,
            selection: self.selection@,
            match_indices: indices_view(self.match_indices),
            score: self.score,
        }
    }
}

/// Results by their texts.
pub open spec fn result_views(rows: Seq<SearchResult>) -> Seq<ResultView> {
    Seq::new(rows.len(), |i: int| rows[i]@)
}

/// The result of a tool.
pub open spec fn tool_result(c: Candidate, indices: Option<Seq<usize>>, score: i32) -> ResultView {
    ResultView {
        display_name: c.display_name@,
        description: text::option_view(c.description),
        mention_type: c.mention_type,
        selection: c.selection@,
        match_indices: indices,
        score,
    }
}

/// The result of a file.
pub open spec fn file_result(f: FileMatch) -> ResultView {
    ResultView {
        display_name: f.path@,
        description: None,
        mention_type: if f.is_directory {
            MentionType::Directory
        } else {
            MentionType::File
        },
        selection: SelectionView::File(f.path@),
        match_indices: match f.indices {
            Some(v) => Some(Seq::new(v@.len(), |i: int| v@[i] as usize)),
            None => None,
        },
        score: f.score as i32,
    }
}

fn copy_indices(v: &Vec<usize>) -> (r: Vec<usize>)
    ensures
        r@ == v@,
{
    let mut r: Vec<usize> = Vec::new();
    let mut i: usize = 0;
    while i < v.len()
        invariant
            i <= v.len(),
            r@ == v@.take(i as int),
        decreases v.len() - i,
    {
        r.push(v[i]);
        assert(r@ =~= v@.take(i + 1));
        i = i + 1;
    }
    assert(r@ =~= v@);
    r
}

impl Candidate {
    /// The candidate as a result.
    pub fn to_result(&self, match_indices: Option<Vec<usize>>, score: i32) -> (r: SearchResult)
        ensures
            r@ == tool_result(*self, indices_view(match_indices), score),
    {
        SearchResult {
            display_name: self.display_name.clone(),
            description: text::clone_option(&self.description),
            mention_type: self.mention_type,
            selection: self.selection.duplicate(),
            match_indices,
            score,
        }
    }
}

/// The file as a result.
pub fn file_match_to_row(f: &FileMatch) -> (r: SearchResult)
    ensures
        r@ == file_result(*f),
{
    let match_indices = match &f.indices {
        Some(v) => {
            let mut out: Vec<usize> = Vec::new();
            let mut i: usize = 0;
            while i < v.len()
                invariant
                    i <= v.len(),
                    out@.len() == i,
                    forall|j: int| 0 <= j < i ==> #[trigger] out@[j] == v@[j] as usize,
                decreases v.len() - i,
            {
                out.push(v[i] as usize);
                i = i + 1;
            }
            assert(out@ =~= Seq::new(v@.len(), |i: int| v@[i] as usize));
            Some(out)
        },
        None => None,
    };
    let r = SearchResult {
        display_name: f.path.clone(),
        description: None,
        mention_type: if f.is_directory {
            MentionType::Directory
        } else {
            MentionType::File
        },
        selection: Selection::File(f.path.clone()),
        match_indices,
        score: #[verifier::truncate] (f.score as i32),
    };
    r
}

/// The tools among the first `n` that a mode offers and a query finds, as results. Without a
/// query all are found.
pub open spec fn found_tools(
    candidates: Seq<Candidate>,
    matches: Seq<ToolMatch>,
    has_query: bool,
    mode: SearchMode,
    n: int,
) -> Seq<ResultView>
    decreases n,
{
    if n <= 0 {
        Seq::empty()
    } else {
        let before = found_tools(candidates, matches, has_query, mode, n - 1);
        let c = candidates[n - 1];
        if !mode_accepts(mode, c.mention_type) {
            before
        } else if !has_query {
            before.push(tool_result(c, None, 0))
        } else {
            match tool_match(c, matches[n - 1]) {
                Some((indices, score)) => before.push(tool_result(c, indices, score)),
                None => before,
            }
        }
    }
}

/// The files among the first `n` that a mode offers, as results.
pub open spec fn found_files(files: Seq<FileMatch>, mode: SearchMode, n: int) -> Seq<ResultView>
    decreases n,
{
    if n <= 0 {
        Seq::empty()
    } else {
        let before = found_files(files, mode, n - 1);
        let row = file_result(files[n - 1]);
        if mode_accepts(mode, row.mention_type) {
            before.push(row)
        } else {
            before
        }
    }
}

// ---- order ----

/// Whether a character separates the parts of a path.
pub open spec fn is_separator(c: char) -> bool {
    c == '/' || c == '\\'
}

/// Where the last part of a path starts.
pub open spec fn name_start(path: Seq<char>) -> int
    decreases path.len(),
{
    if path.len() == 0 {
        0
    } else if is_separator(path.last()) {
        path.len() as int
    } else {
        name_start(path.drop_last())
    }
}

/// The last part of a path.
pub open spec fn last_part(path: Seq<char>) -> Seq<char> {
    path.skip(name_start(path))
}

/// Where the last part of a path starts.
pub fn start_of_name(path: &[char]) -> (r: usize)
    ensures
        r == name_start(path@),
        r <= path@.len(),
{
    let mut i: usize = path.len();
    assert(path@.take(i as int) =~= path@);
    while i > 0 && path[i - 1] != '/' && path[i - 1] != '\\'
        invariant
            i <= path.len(),
            name_start(path@) == name_start(path@.take(i as int)),
        decreases i,
    {
        assert(path@.take(i as int).drop_last() =~= path@.take(i - 1));
        i = i - 1;
    }
    if i > 0 {
        assert(path@.take(i as int).last() == path@[i - 1]);
    }
    i
}

/// How well a query fits a text: all of it, its beginning, somewhere, or nowhere.
#[derive(Clone, Copy, Debug, PartialEq, Eq, Structural)]
pub enum Fit {
    Exact,
    Prefix,
    Inside,
    No,
}

/// How well a query fits a text, case aside.
pub open spec fn fit_of(haystack: Seq<char>, filter: Seq<char>) -> Fit {
    let h = text::unicode_lowercase(haystack);
    let f = text::unicode_lowercase(filter);
    if h == f {
        Fit::Exact
    } else if text::has_prefix(h, f) {
        Fit::Prefix
    } else if text::has_sub(h, f) {
        Fit::Inside
    } else {
        Fit::No
    }
}

/// The rank of a kind of mention with a fit. Files come first where they fit, and last where
/// they do not.
pub open spec fn rank_with(t: MentionType, fit: Fit) -> int {
    let kind = if on_disk(t) {
        0int
    } else if t == MentionType::Plugin {
        1
    } else {
        2
    };
    match fit {
        Fit::Exact => kind,
        Fit::Prefix => 3 + kind,
        Fit::Inside => 6 + kind,
        Fit::No => if kind == 0 {
            11
        } else {
            8 + kind
        },
    }
}

/// The rank of a result for a query.
pub open spec fn rank_of(row: ResultView, filter: Seq<char>) -> int {
    if filter.len() == 0 {
        match row.mention_type {
            MentionType::Plugin => 0,
            MentionType::Skill => 1,
            _ => 2,
        }
    } else {
        rank_with(
            row.mention_type,
            fit_of(
                if on_disk(row.mention_type) {
                    last_part(row.display_name)
                } else {
                    row.display_name
                },
                filter,
            ),
        )
    }
}

/// What a result is sorted by: its rank; then, files by their score from the best down, and
/// tools by whether the shown name was found and then by their score; then the name.
pub open spec fn sort_key_of(row: ResultView, filter: Seq<char>) -> order::KeyView {
    order::KeyView {
        first: rank_of(row, filter),
        second: if on_disk(row.mention_type) {
            -(row.score as int)
        } else if filter.len() == 0 {
            0
        } else if row.match_indices is None {
            1
        } else {
            0
        },
        third: if on_disk(row.mention_type) || filter.len() == 0 {
            0
        } else {
            row.score as int
        },
        name: row.display_name,
    }
}

/// What results are sorted by.
pub open spec fn sort_keys_of(rows: Seq<ResultView>, filter: Seq<char>) -> Seq<order::KeyView> {
    Seq::new(rows.len(), |i: int| sort_key_of(rows[i], filter))
}

/// Whether rows are others put in order: each of them once, by what they are sorted by, and
/// equal ones as they were.
pub open spec fn is_sorted_version(
    rows: Seq<ResultView>,
    sorted: Seq<ResultView>,
    filter: Seq<char>,
) -> bool {
    exists|arrangement: Seq<usize>| #[trigger]
        order::is_arrangement(arrangement, rows.len() as int) && order::in_order(
            sort_keys_of(rows, filter),
            arrangement,
        ) && sorted == Seq::new(rows.len(), |i: int| rows[arrangement[i] as int])
}

fn fit(haystack: &str, filter: &str) -> (r: Fit)
    ensures
        r == fit_of(haystack@, filter@),
{
    let h = text::to_lowercase(haystack);
    let f = text::to_lowercase(filter);
    let hc = text::chars_of(h.as_str());
    if text::eq_str(hc.as_slice(), f.as_str()) {
        Fit::Exact
    } else if text::starts_with(hc.as_slice(), f.as_str()) {
        Fit::Prefix
    } else if text::contains_str(hc.as_slice(), f.as_str()) {
        Fit::Inside
    } else {
        Fit::No
    }
}

/// The rank of a result for a query.
pub fn result_rank(row: &SearchResult, filter: &str) -> (r: u8)
    ensures
        r == rank_of(row@, filter@),
{
    if text::chars_of(filter).len() == 0 {
        return match row.mention_type {
            MentionType::Plugin => 0,
            MentionType::Skill => 1,
            _ => 2,
        };
    }
    let name = if row.mention_type.is_filesystem() {
        let chars = text::chars_of(row.display_name.as_str());
        let start = start_of_name(chars.as_slice());
        let part = text::string_of_range(chars.as_slice(), start, chars.len());
        assert(part@ =~= last_part(row.display_name@));
        part
    } else {
        row.display_name.clone()
    };
    let kind: u8 = match row.mention_type {
        MentionType::Plugin => 1,
        MentionType::Skill => 2,
        _ => 0,
    };
    match fit(name.as_str(), filter) {
        Fit::Exact => kind,
        Fit::Prefix => 3 + kind,
        Fit::Inside => 6 + kind,
        Fit::No => if kind == 0 {
            11
        } else {
            8 + kind
        },
    }
}

fn sort_key(row: &SearchResult, filter: &str) -> (r: order::SortKey)
    ensures
        r@ == sort_key_of(row@, filter@),
{
    let has_query = text::chars_of(filter).len() > 0;
    let fs = row.mention_type.is_filesystem();
    order::SortKey {
        first: result_rank(row, filter) as i64,
        second: if fs {
            -(row.score as i64)
        } else if has_query && row.match_indices.is_none() {
            1
        } else {
            0
        },
        third: if fs || !has_query {
            0
        } else {
            row.score as i64
        },
        name: text::chars_of(row.display_name.as_str()),
    }
}

fn duplicate_result(row: &SearchResult) -> (r: SearchResult)
    ensures
        r@ == row@,
{
    SearchResult {
        display_name: row.display_name.clone(),
        description: text::clone_option(&row.description),
        mention_type: row.mention_type,
        selection: row.selection.duplicate(),
        match_indices: match &row.match_indices {
            Some(v) => Some(copy_indices(v)),
            None => None,
        },
        score: row.score,
    }
}

/// Puts results in the order in which they are offered.
pub fn sort_rows(rows: &Vec<SearchResult>, filter: &str) -> (r: Vec<SearchResult>)
    ensures
        is_sorted_version(result_views(rows@), result_views(r@), filter@),
{
    let ghost views = result_views(rows@);
    let mut keys: Vec<order::SortKey> = Vec::new();
    let mut i: usize = 0;
    while i < rows.len()
        invariant
            i <= rows.len(),
            views == result_views(rows@),
            order::key_views(keys@) == sort_keys_of(views, filter@).take(i as int),
            keys@.len() == i,
        decreases rows.len() - i,
    {
        let ghost before = keys@;
        let key = sort_key(&rows[i], filter);
        keys.push(key);
        assert(views[i as int] == rows@[i as int]@);
        assert(order::key_views(keys@) =~= order::key_views(before).push(key@));
        assert(sort_keys_of(views, filter@).take(i + 1) =~= sort_keys_of(views, filter@).take(
            i as int,
        ).push(key@));
        i = i + 1;
    }
    assert(order::key_views(keys@) =~= sort_keys_of(views, filter@));
    let arrangement = order::sorted_positions(keys.as_slice());
    let ghost all = Seq::new(views.len(), |i: int| views[arrangement@[i] as int]);
    let mut r: Vec<SearchResult> = Vec::new();
    let mut k: usize = 0;
    assert(result_views(r@) =~= all.take(0));
    while k < arrangement.len()
        invariant
            k <= arrangement.len(),
            views == result_views(rows@),
            order::is_arrangement(arrangement@, rows@.len() as int),
            all == Seq::new(views.len(), |i: int| views[arrangement@[i] as int]),
            result_views(r@) == all.take(k as int),
        decreases arrangement.len() - k,
    {
        let ghost before = r@;
        let row = duplicate_result(&rows[arrangement[k]]);
        r.push(row);
        assert(all[k as int] == row@);
        assert(result_views(r@) =~= result_views(before).push(row@));
        assert(all.take(k + 1) =~= all.take(k as int).push(row@));
        k = k + 1;
    }
    assert(all.take(k as int) =~= all);
    assert(order::is_arrangement(arrangement@, views.len() as int));
    r
}

fn push_result(out: &mut Vec<SearchResult>, row: SearchResult)
    ensures
        result_views(final(out)@) == result_views(old(out)@).push(row@),
{
    let ghost before = out@;
    out.push(row);
    assert(result_views(out@) =~= result_views(before).push(row@));
}

/// What is offered for a query: the tools that it finds, and the files that were found for
/// it, in order. `matches` says how well the query fits each tool.
pub fn filtered_candidates(
    candidates: &[Candidate],
    matches: &[ToolMatch],
    file_matches: &[FileMatch],
    query: &str,
    search_mode: SearchMode,
    show_file_matches: bool,
) -> (r: Vec<SearchResult>)
    requires
        matches@.len() == candidates@.len(),
        forall|i: int|
            0 <= i < candidates@.len() ==> (#[trigger] matches@[i]).term_scores@.len()
                == candidates@[i].search_terms@.len(),
    ensures
        ({
            let filter = text::trim(query@);
            let tools = found_tools(
                candidates@,
                matches@,
                filter.len() > 0,
                search_mode,
                candidates@.len() as int,
            );
            let files = if show_file_matches {
                found_files(file_matches@, search_mode, file_matches@.len() as int)
            } else {
                Seq::empty()
            };
            is_sorted_version(tools + files, result_views(r@), filter)
        }),
{
    let filter = text::trim_str(query);
    let has_query = text::chars_of(filter.as_str()).len() > 0;
    let mut out: Vec<SearchResult> = Vec::new();
    let mut i: usize = 0;
    assert(result_views(out@) =~= found_tools(candidates@, matches@, has_query, search_mode, 0));
    while i < candidates.len()
        invariant
            i <= candidates.len(),
            matches@.len() == candidates@.len(),
            forall|i: int|
                0 <= i < candidates@.len() ==> (#[trigger] matches@[i]).term_scores@.len()
                    == candidates@[i].search_terms@.len(),
            result_views(out@) == found_tools(
                candidates@,
                matches@,
                has_query,
                search_mode,
                i as int,
            ),
        decreases candidates.len() - i,
    {
        let c = &candidates[i];
        if search_mode.accepts(c.mention_type) {
            if !has_query {
                push_result(&mut out, c.to_result(None, 0));
            } else {
                let m = &matches[i];
                assert(matches@[i as int].term_scores@.len()
                    == candidates@[i as int].search_terms@.len());
                match &m.name_match {
                    Some((indices, score)) => {
                        let copy = copy_indices(indices);
                        push_result(&mut out, c.to_result(Some(copy), *score));
                    },
                    None => {
                        if let Some(score) = best_term_score(c, m) {
                            push_result(&mut out, c.to_result(None, score));
                        }
                    },
                }
            }
        }
        i = i + 1;
    }
    let ghost tools = result_views(out@);
    let ghost mut files: Seq<ResultView> = Seq::empty();
    assert(tools + files =~= tools);
    if show_file_matches {
        let mut k: usize = 0;
        assert(found_files(file_matches@, search_mode, 0) =~= Seq::<ResultView>::empty());
        while k < file_matches.len()
            invariant
                k <= file_matches.len(),
                files == found_files(file_matches@, search_mode, k as int),
                result_views(out@) == tools + files,
            decreases file_matches.len() - k,
        {
            let row = file_match_to_row(&file_matches[k]);
            if search_mode.accepts(row.mention_type) {
                let ghost v = row@;
                push_result(&mut out, row);
                assert((tools + files).push(v) =~= tools + files.push(v));
                proof {
                    files = files.push(v);
                }
            }
            k = k + 1;
        }
    }
    sort_rows(&out, filter.as_str())
}

// ---- laws ----

/// The last part of a path holds no separator; what stands before it is nothing, or ends with one.
pub proof fn names_follow_the_last_separator(path: Seq<char>)
    ensures
        0 <= name_start(path) <= path.len(),
        path.take(name_start(path)) + last_part(path) == path,
        forall|i: int| 0 <= i < last_part(path).len() ==> #[trigger] last_part(path)[i] != '/'
            && last_part(path)[i] != '\\',
        name_start(path) > 0 ==> path[name_start(path) - 1] == '/' || path[name_start(path) - 1]
            == '\\',
    decreases path.len(),
{
    if path.len() > 0 && !is_separator(path.last()) {
        let before = path.drop_last();
        names_follow_the_last_separator(before);
        assert forall|i: int| 0 <= i < last_part(path).len() implies #[trigger] last_part(path)[i]
            != '/' && last_part(path)[i] != '\\' by {
            if i < last_part(before).len() {
                assert(last_part(path)[i] == last_part(before)[i]);
            }
        }
    }
    assert(path.take(name_start(path)) + last_part(path) =~= path);
}

/// What is searched of a result: the last part of a path, and the shown name of a tool.
pub open spec fn searched_name(row: ResultView) -> Seq<char> {
    if row.mention_type == MentionType::File || row.mention_type == MentionType::Directory {
        last_part(row.display_name)
    } else {
        row.display_name
    }
}

proof fn lemma_fits(h: Seq<char>, f: Seq<char>)
    ensures
        h == f ==> text::has_prefix(h, f),
        text::has_prefix(h, f) ==> text::has_sub(h, f),
{
    assert(h.subrange(0, h.len() as int) =~= h);
    if text::has_prefix(h, f) {
        assert(text::stands_at(h, f, 0));
    }
}

proof fn lemma_key_decides(rows: Seq<ResultView>, sorted: Seq<ResultView>, filter: Seq<char>, i: int, j: int)
    requires
        is_sorted_version(rows, sorted, filter),
        0 <= i < sorted.len(),
        0 <= j < sorted.len(),
        order::key_before(sort_key_of(sorted[i], filter), sort_key_of(sorted[j], filter)),
    ensures
        i < j,
{
    let keys = sort_keys_of(rows, filter);
    let arrangement = choose|arrangement: Seq<usize>| #[trigger]
        order::is_arrangement(arrangement, rows.len() as int) && order::in_order(keys, arrangement)
            && sorted == Seq::new(rows.len(), |i: int| rows[arrangement[i] as int]);
    let a = sort_key_of(sorted[i], filter);
    let b = sort_key_of(sorted[j], filter);
    assert(a == keys[arrangement[i] as int]);
    assert(b == keys[arrangement[j] as int]);
    order::texts_are_ordered(a.name, b.name);
    order::texts_are_ordered(a.name, a.name);
    if j < i {
        assert(order::goes_first(keys, arrangement[j] as int, arrangement[i] as int));
    }
}

/// Results are offered from the better fit to the worse: one whose name is the query before one
/// whose name is not, one whose name begins with it before one that does not, and one whose name
/// holds it before one that does not, in lower case.
pub proof fn better_fits_are_offered_first(
    rows: Seq<ResultView>,
    sorted: Seq<ResultView>,
    filter: Seq<char>,
    i: int,
    j: int,
)
    requires
        is_sorted_version(rows, sorted, filter),
        filter.len() > 0,
        0 <= i < sorted.len(),
        0 <= j < sorted.len(),
    ensures
        ({
            let f = text::unicode_lowercase(filter);
            let a = text::unicode_lowercase(searched_name(sorted[i]));
            let b = text::unicode_lowercase(searched_name(sorted[j]));
            &&& a == f && b != f ==> i < j
            &&& text::has_prefix(a, f) && !text::has_prefix(b, f) ==> i < j
            &&& text::has_sub(a, f) && !text::has_sub(b, f) ==> i < j
        }),
{
    let f = text::unicode_lowercase(filter);
    let a = text::unicode_lowercase(searched_name(sorted[i]));
    let b = text::unicode_lowercase(searched_name(sorted[j]));
    lemma_fits(a, f);
    lemma_fits(b, f);
    if rank_of(sorted[i], filter) < rank_of(sorted[j], filter) {
        lemma_key_decides(rows, sorted, filter, i, j);
    }
}

/// Of results that fit alike, files and directories are offered before plugins, and plugins before
/// skills. Of those that do not fit by name, files and directories come last.
pub proof fn kinds_are_offered_in_order(
    rows: Seq<ResultView>,
    sorted: Seq<ResultView>,
    filter: Seq<char>,
    i: int,
    j: int,
)
    requires
        is_sorted_version(rows, sorted, filter),
        filter.len() > 0,
        0 <= i < sorted.len(),
        0 <= j < sorted.len(),
    ensures
        ({
            let f = text::unicode_lowercase(filter);
            let a = text::unicode_lowercase(searched_name(sorted[i]));
            let b = text::unicode_lowercase(searched_name(sorted[j]));
            let alike = (a == f <==> b == f) && (text::has_prefix(a, f) <==> text::has_prefix(
                b,
                f,
            )) && (text::has_sub(a, f) <==> text::has_sub(b, f));
            let first = sorted[i].mention_type;
            let second = sorted[j].mention_type;
            &&& alike && first == MentionType::Plugin && second == MentionType::Skill ==> i < j
            &&& alike && text::has_sub(a, f) && (first == MentionType::File || first
                == MentionType::Directory) && (second == MentionType::Plugin || second
                == MentionType::Skill) ==> i < j
            &&& alike && !text::has_sub(a, f) && (first == MentionType::Plugin || first
                == MentionType::Skill) && (second == MentionType::File || second
                == MentionType::Directory) ==> i < j
        }),
{
    let f = text::unicode_lowercase(filter);
    lemma_fits(text::unicode_lowercase(searched_name(sorted[i])), f);
    lemma_fits(text::unicode_lowercase(searched_name(sorted[j])), f);
    if rank_of(sorted[i], filter) < rank_of(sorted[j], filter) {
        lemma_key_decides(rows, sorted, filter, i, j);
    }
}

/// Of results of one kind that fit alike, files with a higher score are offered first; of tools,
/// those whose shown name was found, then those with a lower score, then by their names.
pub proof fn scores_decide_among_equal_fits(
    rows: Seq<ResultView>,
    sorted: Seq<ResultView>,
    filter: Seq<char>,
    i: int,
    j: int,
)
    requires
        is_sorted_version(rows, sorted, filter),
        filter.len() > 0,
        0 <= i < sorted.len(),
        0 <= j < sorted.len(),
        sorted[i].mention_type == sorted[j].mention_type,
        ({
            let f = text::unicode_lowercase(filter);
            let a = text::unicode_lowercase(searched_name(sorted[i]));
            let b = text::unicode_lowercase(searched_name(sorted[j]));
            (a == f <==> b == f) && (text::has_prefix(a, f) <==> text::has_prefix(b, f)) && (
            text::has_sub(a, f) <==> text::has_sub(b, f))
        }),
    ensures
        ({
            let a = sorted[i];
            let b = sorted[j];
            if a.mention_type == MentionType::File || a.mention_type == MentionType::Directory {
                &&& a.score > b.score ==> i < j
                &&& a.score == b.score && order::comes_before(a.display_name, b.display_name)
                    ==> i < j
            } else {
                &&& a.match_indices is Some && b.match_indices is None ==> i < j
                &&& (a.match_indices is Some <==> b.match_indices is Some) && a.score < b.score
                    ==> i < j
                &&& (a.match_indices is Some <==> b.match_indices is Some) && a.score == b.score
                    && order::comes_before(a.display_name, b.display_name) ==> i < j
            }
        }),
{
    let f = text::unicode_lowercase(filter);
    lemma_fits(text::unicode_lowercase(searched_name(sorted[i])), f);
    lemma_fits(text::unicode_lowercase(searched_name(sorted[j])), f);
    assert(rank_of(sorted[i], filter) == rank_of(sorted[j], filter));
    if order::key_before(sort_key_of(sorted[i], filter), sort_key_of(sorted[j], filter)) {
        lemma_key_decides(rows, sorted, filter, i, j);
    }
}

/// Without a query plugins are offered first, then skills, then files, and tools of one kind by
/// their names.
pub proof fn all_is_offered_by_kind_without_a_query(
    rows: Seq<ResultView>,
    sorted: Seq<ResultView>,
    i: int,
    j: int,
)
    requires
        is_sorted_version(rows, sorted, Seq::empty()),
        0 <= i < sorted.len(),
        0 <= j < sorted.len(),
    ensures
        sorted[i].mention_type == MentionType::Plugin && sorted[j].mention_type
            != MentionType::Plugin ==> i < j,
        sorted[i].mention_type == MentionType::Skill && (sorted[j].mention_type
            == MentionType::File || sorted[j].mention_type == MentionType::Directory) ==> i < j,
        sorted[i].mention_type == sorted[j].mention_type && (sorted[i].mention_type
            == MentionType::Plugin || sorted[i].mention_type == MentionType::Skill)
            && order::comes_before(sorted[i].display_name, sorted[j].display_name) ==> i < j,
{
    let none = Seq::<char>::empty();
    if order::key_before(sort_key_of(sorted[i], none), sort_key_of(sorted[j], none)) {
        lemma_key_decides(rows, sorted, none, i, j);
    }
}

/// Sorting neither loses nor adds a result.
pub proof fn sorting_keeps_all_results(
    rows: Seq<ResultView>,
    sorted: Seq<ResultView>,
    filter: Seq<char>,
    k: int,
)
    requires
        is_sorted_version(rows, sorted, filter),
        0 <= k < rows.len() <= usize::MAX,
    ensures
        sorted.len() == rows.len(),
        sorted.contains(rows[k]),
        rows.contains(sorted[k]),
{
    let arrangement = choose|arrangement: Seq<usize>| #[trigger]
        order::is_arrangement(arrangement, rows.len() as int) && order::in_order(
            sort_keys_of(rows, filter),
            arrangement,
        ) && sorted == Seq::new(rows.len(), |i: int| rows[arrangement[i] as int]);
    order::arrangements_leave_nothing_out(arrangement, rows.len() as int, k as usize);
    let p = arrangement.index_of(k as usize);
    assert(sorted[p] == rows[k]);
    assert(sorted[k] == rows[arrangement[k] as int]);
}

/// A tool is found where the mode is not that of files alone, and the query is empty, or fits its
/// shown name or a search term that is not that name. It is offered as itself.
pub proof fn tools_are_found_by_name_or_term(
    candidates: Seq<Candidate>,
    matches: Seq<ToolMatch>,
    has_query: bool,
    mode: SearchMode,
    i: int,
)
    requires
        0 <= i < candidates.len(),
        matches.len() == candidates.len(),
        matches[i].term_scores@.len() == candidates[i].search_terms@.len(),
        candidates[i].mention_type == MentionType::Plugin || candidates[i].mention_type
            == MentionType::Skill,
    ensures
        ({
            let before = found_tools(candidates, matches, has_query, mode, i);
            let after = found_tools(candidates, matches, has_query, mode, i + 1);
            let c = candidates[i];
            let m = matches[i];
            let by_term = exists|t: int|
                0 <= t < c.search_terms@.len() && (#[trigger] c.search_terms@[t])@
                    != c.display_name@ && m.term_scores@[t] is Some;
            if mode == SearchMode::FilesystemOnly || has_query && m.name_match is None && !by_term {
                after == before
            } else {
                &&& after.len() == before.len() + 1
                &&& after.drop_last() == before
                &&& after.last().display_name == c.display_name@
                &&& after.last().selection == c.selection@
                &&& after.last().mention_type == c.mention_type
                &&& after.last().description == text::option_view(c.description)
                &&& !has_query ==> after.last().match_indices is None && after.last().score == 0
                &&& has_query ==> (m.name_match matches Some((indices, score))
                    ==> after.last().match_indices == Some(indices@) && after.last().score == score)
                &&& has_query && m.name_match is None ==> after.last().match_indices is None && (
                forall|t: int|
                    0 <= t < c.search_terms@.len() && (#[trigger] c.search_terms@[t])@
                        != c.display_name@ && m.term_scores@[t] is Some ==> after.last().score
                        <= m.term_scores@[t]->0)
            }
        }),
        found_tools(candidates, matches, has_query, mode, 0).len() == 0,
{
    let c = candidates[i];
    let m = matches[i];
    let before = found_tools(candidates, matches, has_query, mode, i);
    let after = found_tools(candidates, matches, has_query, mode, i + 1);
    lemma_best_term(c, m, c.search_terms@.len() as int);
    if after.len() > before.len() {
        assert(after.drop_last() =~= before);
    }
}

proof fn lemma_best_term(c: Candidate, m: ToolMatch, n: int)
    requires
        0 <= n <= c.search_terms@.len(),
        m.term_scores@.len() == c.search_terms@.len(),
    ensures
        match best_term(c, m, n) {
            Some(s) => (exists|t: int|
                0 <= t < n && (#[trigger] c.search_terms@[t])@ != c.display_name@
                    && m.term_scores@[t] == Some(s)) && forall|t: int|
                0 <= t < n && (#[trigger] c.search_terms@[t])@ != c.display_name@
                    && m.term_scores@[t] is Some ==> s <= m.term_scores@[t]->0,
            None => forall|t: int|
                0 <= t < n && (#[trigger] c.search_terms@[t])@ != c.display_name@
                    ==> m.term_scores@[t] is None,
        },
    decreases n,
{
    if n > 0 {
        lemma_best_term(c, m, n - 1);
        let last = c.search_terms@[n - 1];
        match best_term(c, m, n) {
            Some(s) => {
                if best_term(c, m, n - 1) == Some(s) {
                    let t = choose|t: int|
                        0 <= t < n - 1 && (#[trigger] c.search_terms@[t])@ != c.display_name@
                            && m.term_scores@[t] == Some(s);
                    assert(c.search_terms@[t]@ != c.display_name@);
                } else {
                    assert(last@ != c.display_name@ && m.term_scores@[n - 1] == Some(s));
                }
            },
            None => {},
        }
    }
}

/// A file or directory is offered as itself, with the path that was found, unless the mode is that
/// of tools alone.
pub proof fn files_are_found_as_they_are(files: Seq<FileMatch>, mode: SearchMode, i: int)
    requires
        0 <= i < files.len(),
    ensures
        ({
            let before = found_files(files, mode, i);
            let after = found_files(files, mode, i + 1);
            if mode == SearchMode::Tools {
                after == before
            } else {
                &&& after.len() == before.len() + 1
                &&& after.drop_last() == before
                &&& after.last().display_name == files[i].path@
                &&& after.last().selection == SelectionView::File(files[i].path@)
                &&& after.last().mention_type == MentionType::Directory <==> files[i].is_directory
                &&& after.last().mention_type == MentionType::File <==> !files[i].is_directory
                &&& files[i].score <= i32::MAX ==> after.last().score == files[i].score
                &&& after.last().match_indices is Some <==> files[i].indices is Some
                &&& files[i].indices is Some ==> after.last().match_indices->0.len()
                    == files[i].indices->0@.len() && forall|k: int|
                    0 <= k < files[i].indices->0@.len() ==> #[trigger] after.last().match_indices->0[k]
                        == files[i].indices->0@[k]
            }
        }),
        found_files(files, mode, 0).len() == 0,
{
    let before = found_files(files, mode, i);
    let after = found_files(files, mode, i + 1);
    if after.len() > before.len() {
        assert(after.drop_last() =~= before);
    }
}

/// A plugin is found by the name before the first at sign, by the whole, by its shown name, and by
/// the marketplace behind that sign, and is mentioned by the name and the whole.
pub proof fn plugins_are_known_by_all_their_names(c: Candidate, plugin: PluginInfo, name: Seq<char>, market: Seq<char>)
    requires
        is_plugin_candidate(c, plugin),
        !name.contains('@'),
        plugin.config_name@ == name + seq!['@'] + market,
    ensures
        text::string_views(c.search_terms@).contains(name),
        text::string_views(c.search_terms@).contains(plugin.config_name@),
        text::string_views(c.search_terms@).contains(plugin.display_name@),
        market.len() > 0 ==> text::string_views(c.search_terms@).contains(market),
        c.selection@ == (SelectionView::Tool {
            insert_text: "$"@ + name,
            path: Some("plugin://"@ + plugin.config_name@),
        }),
        c.display_name@ == plugin.display_name@,
        c.mention_type == MentionType::Plugin,
        plugin.description is Some ==> text::option_view(c.description) == Some(
            plugin.description->0@,
        ),
{
    let whole = plugin.config_name@;
    assert forall|k: int| 0 <= k < name.len() implies whole[k] != '@' by {
        assert(whole[k] == name[k]);
        assert(name.contains(name[k]));
    }
    assert(whole[name.len() as int] == '@');
    text::lemma_first_index_is(whole, '@', name.len() as int);
    assert(plugin_name(whole) =~= name);
    assert(marketplace_name(whole) =~= market);
    let terms = plugin_terms(plugin);
    assert(terms[0] == name);
    assert(terms[1] == whole);
    if plugin.display_name@ != name {
        assert(terms[2] == plugin.display_name@);
    }
    if market.len() > 0 {
        assert(terms.last() == market);
    }
}

/// A skill is found by its name and by its shown name, and is mentioned by its name and path.
pub proof fn skills_are_known_by_both_names(c: Candidate, skill: SkillInfo)
    requires
        is_skill_candidate(c, skill),
    ensures
        text::string_views(c.search_terms@).contains(skill.name@),
        text::string_views(c.search_terms@).contains(skill.display_name@),
        c.display_name@ == skill.display_name@,
        c.mention_type == MentionType::Skill,
        c.selection@ == (SelectionView::Tool {
            insert_text: "$"@ + skill.name@,
            path: Some(skill.path@),
        }),
{
    let terms = text::string_views(c.search_terms@);
    assert(terms[0] == skill.name@);
    if skill.display_name@ != skill.name@ {
        assert(terms[1] == skill.display_name@);
    }
}

/// What a plugin without a description of its own brings is told: each kind of thing, and how many
/// there are where there is more than one.
pub proof fn plugins_tell_what_they_bring(plugin: PluginInfo)
    ensures
        ({
            let labels = capability_labels(plugin);
            &&& plugin.has_skills <==> labels.contains("skills"@)
            &&& plugin.mcp_server_count == 1 ==> labels.contains("1 MCP server"@)
            &&& plugin.mcp_server_count > 1 ==> labels.contains(
                text::decimal(plugin.mcp_server_count as nat) + " MCP servers"@,
            )
            &&& plugin.app_count == 1 ==> labels.contains("1 app"@)
            &&& plugin.app_count > 1 ==> labels.contains(
                text::decimal(plugin.app_count as nat) + " apps"@,
            )
            &&& labels.len() == (if plugin.has_skills {
                1int
            } else {
                0
            }) + (if plugin.mcp_server_count > 0 {
                1int
            } else {
                0
            }) + (if plugin.app_count > 0 {
                1int
            } else {
                0
            })
        }),
{
    let labels = capability_labels(plugin);
    let servers = counted(plugin.mcp_server_count as int, "1 MCP server"@, " MCP servers"@);
    let apps = counted(plugin.app_count as int, "1 app"@, " apps"@);
    let skills = if plugin.has_skills {
        1int
    } else {
        0
    };
    if plugin.has_skills {
        assert(labels[0] == "skills"@);
    }
    if servers.len() > 0 {
        assert(labels[skills] == servers[0]);
    }
    if apps.len() > 0 {
        assert(labels.last() == apps[0]);
    }
    reveal_strlit("skills");
    reveal_strlit("1 MCP server");
    reveal_strlit(" MCP servers");
    reveal_strlit("1 app");
    reveal_strlit(" apps");
    if !plugin.has_skills && labels.contains("skills"@) {
        let k = labels.index_of("skills"@);
        let l = labels[k];
        assert(l[l.len() - 1] == 's');
        assert(l[l.len() - 2] == 'l');
        assert(l == if servers.len() > 0 && k == 0 {
            servers[0]
        } else {
            apps[0]
        });
        if plugin.mcp_server_count > 1 && k == 0 {
            let head = text::decimal(plugin.mcp_server_count as nat);
            assert(l[l.len() - 2] == " MCP servers"@[10]);
        } else if plugin.app_count > 1 {
            let head = text::decimal(plugin.app_count as nat);
            assert(l == servers[0] || l[l.len() - 2] == " apps"@[3]);
        }
    }
}

/// A skill is described by its description without white space around it, and not at all where that
/// is blank.
pub proof fn skills_are_described_as_they_describe_themselves(c: Candidate, skill: SkillInfo)
    requires
        is_skill_candidate(c, skill),
    ensures
        text::trim(skill.description@).len() > 0 ==> text::option_view(c.description) == Some(
            text::trim(skill.description@),
        ),
        text::trim(skill.description@).len() == 0 ==> c.description is None,
{
}

/// A plugin without a description is described by what it brings, and one that brings nothing as a
/// plugin.
pub proof fn plugins_are_described_by_what_they_bring(plugin: PluginInfo)
    ensures
        plugin.description matches Some(d) ==> plugin_text(plugin) == d@,
        plugin.description is None && !plugin.has_skills && plugin.mcp_server_count == 0
            && plugin.app_count == 0 ==> plugin_text(plugin) == "Plugin"@,
        plugin.description is None && plugin.has_skills && plugin.mcp_server_count == 0
            && plugin.app_count == 0 ==> plugin_text(plugin) == "Plugin - "@ + "skills"@,
        text::has_prefix(plugin_text(plugin), "Plugin"@) || plugin.description is Some,
{
    reveal_strlit("Plugin");
    reveal_strlit("Plugin - ");
    plugins_tell_what_they_bring(plugin);
    let labels = capability_labels(plugin);
    if plugin.description is None {
        let s = plugin_text(plugin);
        assert(s.subrange(0, 6) =~= "Plugin"@);
        if plugin.has_skills && plugin.mcp_server_count == 0 && plugin.app_count == 0 {
            assert(labels.len() == 1);
            let k = labels.index_of("skills"@);
            assert(labels[0] == "skills"@);
        }
    }
}

/// The best score of a tool's terms is the score of one of them, and none is lower.
pub proof fn the_best_term_counts(c: Candidate, m: ToolMatch, n: int, i: int)
    requires
        0 <= n <= c.search_terms@.len(),
        m.term_scores@.len() == c.search_terms@.len(),
    ensures
        0 <= i < n && c.search_terms@[i]@ != c.display_name@ && m.term_scores@[i] is Some
            ==> best_term(c, m, n) is Some && best_term(c, m, n)->0 <= m.term_scores@[i]->0,
        best_term(c, m, n) is Some ==> exists|k: int|
            0 <= k < n && (#[trigger] c.search_terms@[k])@ != c.display_name@ && m.term_scores@[k]
                == best_term(c, m, n),
    decreases n,
{
    if n > 0 {
        the_best_term_counts(c, m, n - 1, i);
        let before = best_term(c, m, n - 1);
        let after = best_term(c, m, n);
        if after is Some {
            if after == before {
                let k = choose|k: int|
                    0 <= k < n - 1 && (#[trigger] c.search_terms@[k])@ != c.display_name@
                        && m.term_scores@[k] == before;
                assert(c.search_terms@[k]@ != c.display_name@);
            } else {
                assert(c.search_terms@[n - 1]@ != c.display_name@);
                assert(m.term_scores@[n - 1] == after);
            }
        }
    }
}

} // verus!
