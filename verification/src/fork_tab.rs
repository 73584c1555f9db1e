//! Forking a session into a new tab of the terminal: what must hold first, what the tab
//! runs, and what the helper that opens it answers.

use vstd::prelude::*;

use crate::json;
use crate::json::JsonValue;
use crate::paths;
use crate::session_picker::KeyCode;
use crate::session_picker::KeyModifiers;
use crate::text;
use crate::thread_id;
use crate::thread_id::ThreadId;

verus! {

/// The variable that names the interpreter of the helper.
pub const ITERM_FORK_HELPER_PYTHON_ENV: &'static str = "CODEX_ITERM2_HELPER_PYTHON";

/// The variable that names the snapshot of the environment.
pub const FORK_ENV_SNAPSHOT_PATH_ENV_VAR: &'static str = "CODEX_FORK_ENV_SNAPSHOT_PATH";

/// The program that runs a command with variables set.
pub const ENV_BINARY: &'static str = "/usr/bin/env";

/// What a thread without a turn is refused with.
pub const MISSING_TURN: &'static str =
    "A thread must contain at least one turn before it can be forked.";

// ---- what is asked of the terminal ----

/// What happens to the tab once the session in it ends.
#[derive(Debug)]
pub enum ItermForkTabExitBehavior {
    CloseTab,
    ReturnToShell { shell: String },
}

/// Which tab is in front once the new one is open.
#[derive(Clone, Copy, Debug, PartialEq, Eq, Structural)]
pub enum ItermForkTabOpenBehavior {
    Foreground,
    Background,
}

/// A tab to be opened.
#[derive(Debug)]
pub struct ItermForkTabRequest {
    pub source_iterm_session_id: String,
    pub source_thread_id: ThreadId,
    pub codex_invocation: Vec<String>,
    pub exit_behavior: ItermForkTabExitBehavior,
    pub open_behavior: ItermForkTabOpenBehavior,
}

/// What came of it.
#[derive(Debug)]
pub enum ItermForkTabOutcome {
    Launched { created_session_id: Option<String> },
    Unsupported(String),
    Failed(String),
}

/// Why a tab cannot be asked for, or the answer not be read.
#[derive(Debug)]
pub enum ForkTabError {
    EmptyInvocation,
    InvocationNotQuotable,
    EmptyCommand,
    EmptyShell,
    ShellNotQuotable,
    WrapperNotQuotable,
    StdoutNotUtf8,
    EmptyStdout { stderr: String },
    NotAResponse { stdout: String },
}

impl ForkTabError {
    /// What the error reads like.
    pub fn message(&self) -> (r: String)
        ensures
            r@ == match self {
                ForkTabError::EmptyInvocation => "codex invocation cannot be empty"@,
                ForkTabError::InvocationNotQuotable =>
                "failed to quote codex invocation for iTerm2"@,
                ForkTabError::EmptyCommand => "codex invocation resolved to an empty command"@,
                ForkTabError::EmptyShell =>
                "shell path for fork-tab return-to-shell behavior cannot be empty"@,
                ForkTabError::ShellNotQuotable =>
                "failed to quote shell path for iTerm2 return-to-shell behavior"@,
                ForkTabError::WrapperNotQuotable =>
                "failed to quote shell wrapper for iTerm2 return-to-shell behavior"@,
                ForkTabError::StdoutNotUtf8 =>
                "iTerm2 fork-tab helper stdout is not valid UTF-8"@,
                ForkTabError::EmptyStdout { stderr } =>
                "iTerm2 fork-tab helper returned empty stdout"@ + (if stderr@.len() == 0 {
                    Seq::empty()
                } else {
                    " (stderr: "@ + stderr@ + ")"@
                }),
                ForkTabError::NotAResponse { stdout } => "failed to parse iTerm2 helper JSON: "@
                    + stdout@,
            },
    {
        match self {
            ForkTabError::EmptyInvocation => "codex invocation cannot be empty".to_owned(),
            ForkTabError::InvocationNotQuotable =>
            "failed to quote codex invocation for iTerm2".to_owned(),
            ForkTabError::EmptyCommand =>
            "codex invocation resolved to an empty command".to_owned(),
            ForkTabError::EmptyShell =>
            "shell path for fork-tab return-to-shell behavior cannot be empty".to_owned(),
            ForkTabError::ShellNotQuotable =>
            "failed to quote shell path for iTerm2 return-to-shell behavior".to_owned(),
            ForkTabError::WrapperNotQuotable =>
            "failed to quote shell wrapper for iTerm2 return-to-shell behavior".to_owned(),
            ForkTabError::StdoutNotUtf8 =>
            "iTerm2 fork-tab helper stdout is not valid UTF-8".to_owned(),
            ForkTabError::EmptyStdout { stderr } => {
                let mut m = "iTerm2 fork-tab helper returned empty stdout".to_owned();
                if text::chars_of(stderr.as_str()).len() > 0 {
                    m.push_str(" (stderr: ");
                    m.push_str(stderr.as_str());
                    m.push_str(")");
                }
                assert(m@ =~= "iTerm2 fork-tab helper returned empty stdout"@ + (if stderr@.len()
                    == 0 {
                    Seq::empty()
                } else {
                    " (stderr: "@ + stderr@ + ")"@
                }));
                m
            },
            ForkTabError::NotAResponse { stdout } => {
                let mut m = "failed to parse iTerm2 helper JSON: ".to_owned();
                m.push_str(stdout.as_str());
                m
            },
        }
    }
}

// ---- what must hold first ----

/// The session that is forked.
#[derive(Debug)]
pub struct ForkSource {
    pub iterm_session_id: String,
    pub thread_id: ThreadId,
}

/// A text without white space around it, where anything is left.
pub open spec fn trimmed_non_empty(s: Seq<char>) -> Option<Seq<char>> {
    if text::trim(s).len() == 0 {
        None
    } else {
        Some(text::trim(s))
    }
}

/// A text without white space around it, where anything is left.
pub fn trim_non_empty(value: &str) -> (r: Option<String>)
    ensures
        text::option_view(r) == trimmed_non_empty(value@),
{
    let trimmed = text::trim_str(value);
    if text::chars_of(trimmed.as_str()).len() == 0 {
        None
    } else {
        Some(trimmed)
    }
}

/// The trimmed value of a variable that is set.
pub open spec fn variable(value: Option<&str>) -> Option<Seq<char>> {
    match value {
        Some(v) => trimmed_non_empty(v@),
        None => None,
    }
}

fn trimmed_variable(value: Option<&str>) -> (r: Option<String>)
    ensures
        text::option_view(r) == variable(value),
{
    match value {
        Some(v) => trim_non_empty(v),
        None => None,
    }
}

/// The first thing that keeps a session from being forked into a tab: the terminal, the
/// tab that it runs in, the thread, or its file.
pub open spec fn obstacle(
    is_iterm2: bool,
    session_id: Option<Seq<char>>,
    thread_id: Option<ThreadId>,
    rollout_exists: bool,
) -> Option<Seq<char>> {
    if !is_iterm2 {
        Some("Fork tab launch requires iTerm2."@)
    } else if session_id is None {
        Some("ITERM_SESSION_ID is missing."@)
    } else if thread_id is None || !rollout_exists {
        Some(MISSING_TURN@)
    } else {
        None
    }
}

/// The session to be forked, or what keeps it from being. Nothing is asked of the terminal
/// then. `rollout_exists` says that the session has a file and that it exists.
pub fn check_fork_preconditions(
    is_iterm2: bool,
    iterm_session_id: Option<&str>,
    thread_id: Option<ThreadId>,
    rollout_exists: bool,
) -> (r: Result<ForkSource, String>)
    ensures
        match r {
            Ok(source) => {
                &&& obstacle(is_iterm2, variable(iterm_session_id), thread_id, rollout_exists)
                    is None
                &&& variable(iterm_session_id) == Some(source.iterm_session_id@)
                &&& thread_id == Some(source.thread_id)
            },
            Err(message) => obstacle(
                is_iterm2,
                variable(iterm_session_id),
                thread_id,
                rollout_exists,
            ) == Some(message@),
        },
{
    let session_id = trimmed_variable(iterm_session_id);
    if !is_iterm2 {
        return Err("Fork tab launch requires iTerm2.".to_owned());
    }
    let iterm_session_id = match session_id {
        Some(id) => id,
        None => {
            return Err("ITERM_SESSION_ID is missing.".to_owned());
        },
    };
    match thread_id {
        Some(thread_id) => if rollout_exists {
            Ok(ForkSource { iterm_session_id, thread_id })
        } else {
            Err(MISSING_TURN.to_owned())
        },
        None => Err(MISSING_TURN.to_owned()),
    }
}

// ---- what the tab runs ----

/// The `python3` of each directory of a search path.
pub open spec fn python_candidates(path_var: Seq<char>) -> Seq<Seq<char>> {
    text::split_on(path_var, ':').map_values(|d: Seq<char>| paths::joined(d, "python3"@))
}

/// The `python3` of each directory of a search path.
pub fn python3_candidates(path_var: &str) -> (r: Vec<String>)
    ensures
        text::string_views(r@) == python_candidates(path_var@),
{
    let chars = text::chars_of(path_var);
    let dirs = text::split_chars(chars.as_slice(), ':');
    let ghost views = text::char_views(dirs@);
    let ghost all = python_candidates(path_var@);
    let mut r: Vec<String> = Vec::new();
    let mut i: usize = 0;
    assert(text::string_views(r@) =~= all.take(0));
    while i < dirs.len()
        invariant
            i <= dirs.len(),
            views == text::char_views(dirs@),
            views == text::split_on(path_var@, ':'),
            all == python_candidates(path_var@),
            text::string_views(r@) == all.take(i as int),
        decreases dirs.len() - i,
    {
        let ghost before = r@;
        let dir = text::string_of(dirs[i].as_slice());
        let candidate = paths::join_path(dir.as_str(), "python3");
        assert(views[i as int] == dirs@[i as int]@);
        assert(all[i as int] == candidate@);
        r.push(candidate);
        assert(text::string_views(r@) =~= text::string_views(before).push(candidate@));
        assert(all.take(i + 1) =~= all.take(i as int).push(all[i as int]));
        i = i + 1;
    }
    assert(all.take(i as int) =~= all);
    r
}

/// The first candidate from `i` on that is a file and has a name.
pub open spec fn first_file(
    candidates: Seq<Seq<char>>,
    is_file: Seq<bool>,
    i: int,
) -> Option<Seq<char>>
    decreases candidates.len() - i,
{
    if i < 0 || i >= candidates.len() {
        None
    } else if is_file[i] && trimmed_non_empty(candidates[i]) is Some {
        trimmed_non_empty(candidates[i])
    } else {
        first_file(candidates, is_file, i + 1)
    }
}

/// The first candidate that is a file.
pub fn find_python3_in_path(candidates: &[String], is_file: &[bool]) -> (r: Option<String>)
    requires
        candidates@.len() == is_file@.len(),
    ensures
        text::option_view(r) == first_file(text::string_views(candidates@), is_file@, 0),
{
    let ghost views = text::string_views(candidates@);
    let mut i: usize = 0;
    while i < candidates.len()
        invariant
            i <= candidates.len(),
            candidates@.len() == is_file@.len(),
            views == text::string_views(candidates@),
            first_file(views, is_file@, 0) == first_file(views, is_file@, i as int),
        decreases candidates.len() - i,
    {
        assert(views[i as int] == candidates@[i as int]@);
        if is_file[i] {
            if let Some(found) = trim_non_empty(candidates[i].as_str()) {
                return Some(found);
            }
        }
        i = i + 1;
    }
    None
}

/// The interpreter of the helper: the configured one, or the first of the search path, or
/// whatever the name leads to.
pub fn helper_python_for_fork_launch(configured: Option<&str>, in_path: Option<String>) -> (r:
    String)
    ensures
        r@ == match variable(configured) {
            Some(c) => c,
            None => match in_path {
                Some(p) => p@,
                None => "python3"@,
            },
        },
{
    match trimmed_variable(configured) {
        Some(c) => c,
        None => match in_path {
            Some(p) => p,
            None => "python3".to_owned(),
        },
    }
}

/// The interpreter that runs the helper: the configured one, or whatever the name leads to.
pub fn helper_python_executable(configured: Option<&str>) -> (r: String)
    ensures
        r@ == match variable(configured) {
            Some(c) => c,
            None => "python3"@,
        },
{
    helper_python_for_fork_launch(configured, None)
}

/// The executable of this program, or its bare name where that is not known.
pub fn codex_executable(current_exe: Option<&str>) -> (r: String)
    ensures
        r@ == match variable(current_exe) {
            Some(e) => e,
            None => "codex"@,
        },
{
    match trimmed_variable(current_exe) {
        Some(e) => e,
        None => "codex".to_owned(),
    }
}

/// What happens to the tab once the session ends: the shell is the user's, or the usual one.
pub fn exit_behavior(close_tab: bool, shell: Option<&str>) -> (r: ItermForkTabExitBehavior)
    ensures
        match r {
            ItermForkTabExitBehavior::CloseTab => close_tab,
            ItermForkTabExitBehavior::ReturnToShell { shell: s } => !close_tab && s@
                == match variable(shell) {
                Some(v) => v,
                None => "/bin/sh"@,
            },
        },
{
    if close_tab {
        return ItermForkTabExitBehavior::CloseTab;
    }
    let shell = match trimmed_variable(shell) {
        Some(v) => v,
        None => "/bin/sh".to_owned(),
    };
    ItermForkTabExitBehavior::ReturnToShell { shell }
}

/// The words of the command that forks a thread.
pub open spec fn fork_words(
    executable: Seq<char>,
    thread: ThreadId,
    helper_python: Seq<char>,
    snapshot_path: Seq<char>,
) -> Seq<Seq<char>> {
    seq![
        ENV_BINARY@,
        ITERM_FORK_HELPER_PYTHON_ENV@ + "="@ + helper_python,
        FORK_ENV_SNAPSHOT_PATH_ENV_VAR@ + "="@ + snapshot_path,
        executable,
        "fork"@,
        thread_id::uuid_text(thread.value),
    ]
}

fn assignment(name: &str, value: &str) -> (r: String)
    ensures
        r@ == name@ + "="@ + value@,
{
    let mut r = name.to_owned();
    r.push_str("=");
    r.push_str(value);
    r
}

/// The words of the command that forks a thread. The interpreter is handed on, so that forks
/// of the fork use the same one.
pub fn codex_fork_invocation(
    codex_executable: String,
    source_thread_id: &ThreadId,
    helper_python: &str,
    fork_env_snapshot_path: &str,
) -> (r: Vec<String>)
    ensures
        text::string_views(r@) == fork_words(
            codex_executable@,
            *source_thread_id,
            helper_python@,
            fork_env_snapshot_path@,
        ),
{
    let mut r: Vec<String> = Vec::new();
    r.push(ENV_BINARY.to_owned());
    r.push(assignment(ITERM_FORK_HELPER_PYTHON_ENV, helper_python));
    r.push(assignment(FORK_ENV_SNAPSHOT_PATH_ENV_VAR, fork_env_snapshot_path));
    r.push(codex_executable);
    r.push("fork".to_owned());
    r.push(source_thread_id.to_text());
    assert(text::string_views(r@) =~= fork_words(
        codex_executable@,
        *source_thread_id,
        helper_python@,
        fork_env_snapshot_path@,
    ));
    r
}

/// What is known of this process when a session is forked.
#[derive(Debug)]
pub struct ForkEnvironment<'a> {
    pub current_exe: Option<&'a str>,
    pub configured_python: Option<&'a str>,
    pub python_in_path: Option<String>,
    pub close_tab: bool,
    pub shell: Option<&'a str>,
    pub open_behavior: ItermForkTabOpenBehavior,
}

/// The tab to be opened for a session, or what keeps it from being: a snapshot of the
/// environment that could not be made, or not be found.
pub fn fork_request(
    source: ForkSource,
    environment: ForkEnvironment<'_>,
    snapshot: Result<Result<String, String>, String>,
) -> (r: Result<ItermForkTabRequest, String>)
    ensures
        match snapshot {
            Err(problem) => r is Err && r->Err_0@
                == "Failed to snapshot the current Codex environment for fork launch: "@
                + problem@,
            Ok(Err(problem)) => r is Err && r->Err_0@
                == "Failed to resolve the fork environment snapshot path: "@ + problem@,
            Ok(Ok(path)) => {
                let python = match variable(environment.configured_python) {
                    Some(c) => c,
                    None => match environment.python_in_path {
                        Some(p) => p@,
                        None => "python3"@,
                    },
                };
                let executable = match variable(environment.current_exe) {
                    Some(e) => e,
                    None => "codex"@,
                };
                &&& r matches Ok(request)
                &&& request.source_iterm_session_id == source.iterm_session_id
                &&& request.source_thread_id == source.thread_id
                &&& text::string_views(request.codex_invocation@) == fork_words(
                    executable,
                    source.thread_id,
                    python,
                    path@,
                )
                &&& match request.exit_behavior {
                    ItermForkTabExitBehavior::CloseTab => environment.close_tab,
                    ItermForkTabExitBehavior::ReturnToShell { shell } => !environment.close_tab
                        && shell@ == match variable(environment.shell) {
                        Some(v) => v,
                        None => "/bin/sh"@,
                    },
                }
                &&& request.open_behavior == environment.open_behavior
            },
        },
{
    let snapshot_path = match snapshot {
        Err(problem) => {
            let mut m =
                "Failed to snapshot the current Codex environment for fork launch: ".to_owned();
            m.push_str(problem.as_str());
            return Err(m);
        },
        Ok(Err(problem)) => {
            let mut m = "Failed to resolve the fork environment snapshot path: ".to_owned();
            m.push_str(problem.as_str());
            return Err(m);
        },
        Ok(Ok(path)) => path,
    };
    let executable = codex_executable(environment.current_exe);
    let python = helper_python_for_fork_launch(
        environment.configured_python,
        environment.python_in_path,
    );
    let exit_behavior = exit_behavior(environment.close_tab, environment.shell);
    let codex_invocation = codex_fork_invocation(
        executable,
        &source.thread_id,
        python.as_str(),
        snapshot_path.as_str(),
    );
    Ok(
        ItermForkTabRequest {
            source_iterm_session_id: source.iterm_session_id,
            source_thread_id: source.thread_id,
            codex_invocation,
            exit_behavior,
            open_behavior: environment.open_behavior,
        },
    )
}

// ---- the command line ----

/// The shell command line that `shlex::try_join` makes of words.
pub uninterp spec fn shell_line(words: Seq<Seq<char>>) -> Seq<char>;

/// Whether a word holds the character that no shell word can hold.
pub open spec fn has_nul(words: Seq<Seq<char>>) -> bool {
    exists|i: int| 0 <= i < words.len() && (#[trigger] words[i]).contains('\0')
}

/// Calls `shlex::try_join`. Claims that it fails exactly where a word holds a NUL, and that
/// the line depends on the words alone.
#[verifier::external_body]
fn join_words(words: &[String]) -> (r: Option<String>)
    ensures
        match r {
            Some(line) => !has_nul(text::string_views(words@)) && line@ == shell_line(
                text::string_views(words@),
            ),
            None => has_nul(text::string_views(words@)),
        },
{
    shlex::try_join(words.iter().map(|w| w.as_str())).ok()
}

/// The words of a shell that runs the session and then takes its place.
pub open spec fn wrapper_words(shell: Seq<char>, line: Seq<char>) -> Seq<Seq<char>> {
    seq![shell, "-lc"@, line + "; exec "@ + shell_line(seq![shell, "-l"@])]
}

/// The command line of a tab, or why there is none.
pub open spec fn command_line(request: ItermForkTabRequest) -> Result<Seq<char>, ForkTabError> {
    let words = text::string_views(request.codex_invocation@);
    if words.len() == 0 {
        Err(ForkTabError::EmptyInvocation)
    } else if has_nul(words) {
        Err(ForkTabError::InvocationNotQuotable)
    } else if shell_line(words).len() == 0 {
        Err(ForkTabError::EmptyCommand)
    } else {
        match request.exit_behavior {
            ItermForkTabExitBehavior::CloseTab => Ok(shell_line(words)),
            ItermForkTabExitBehavior::ReturnToShell { shell } => if text::trim(shell@).len() == 0 {
                Err(ForkTabError::EmptyShell)
            } else if has_nul(seq![shell@, "-l"@]) {
                Err(ForkTabError::ShellNotQuotable)
            } else if has_nul(wrapper_words(shell@, shell_line(words))) {
                Err(ForkTabError::WrapperNotQuotable)
            } else {
                Ok(shell_line(wrapper_words(shell@, shell_line(words))))
            },
        }
    }
}

/// The command line of a tab: the command of the request, or, where the tab stays open, a
/// login shell that runs it and is then replaced by another.
pub fn codex_command_text(request: &ItermForkTabRequest) -> (r: Result<String, ForkTabError>)
    ensures
        match r {
            Ok(line) => command_line(*request) == Ok::<Seq<char>, ForkTabError>(line@),
            Err(e) => command_line(*request) == Err::<Seq<char>, ForkTabError>(e),
        },
{
    if request.codex_invocation.len() == 0 {
        return Err(ForkTabError::EmptyInvocation);
    }
    let line = match join_words(request.codex_invocation.as_slice()) {
        Some(line) => line,
        None => {
            return Err(ForkTabError::InvocationNotQuotable);
        },
    };
    if text::chars_of(line.as_str()).len() == 0 {
        return Err(ForkTabError::EmptyCommand);
    }
    match &request.exit_behavior {
        ItermForkTabExitBehavior::CloseTab => Ok(line),
        ItermForkTabExitBehavior::ReturnToShell { shell } => {
            let shell_chars = text::chars_of(shell.as_str());
            if text::is_blank(shell_chars.as_slice()) {
                return Err(ForkTabError::EmptyShell);
            }
            let mut login: Vec<String> = Vec::new();
            login.push(shell.clone());
            login.push("-l".to_owned());
            assert(text::string_views(login@) =~= seq![shell@, "-l"@]);
            let login_line = match join_words(login.as_slice()) {
                Some(l) => l,
                None => {
                    return Err(ForkTabError::ShellNotQuotable);
                },
            };
            let ghost plain = line@;
            let mut script = line;
            script.push_str("; exec ");
            script.push_str(login_line.as_str());
            let mut words: Vec<String> = Vec::new();
            words.push(shell.clone());
            words.push("-lc".to_owned());
            words.push(script);
            assert(text::string_views(words@) =~= wrapper_words(shell@, plain));
            match join_words(words.as_slice()) {
                Some(l) => Ok(l),
                None => Err(ForkTabError::WrapperNotQuotable),
            }
        },
    }
}

/// What the helper is told.
#[derive(Debug)]
pub struct PythonHelperRequest {
    pub source_iterm_session_id: String,
    pub source_thread_id: String,
    pub fork_command: String,
    pub open_behavior: ItermForkTabOpenBehavior,
}

/// What the helper is told.
pub fn helper_request(request: &ItermForkTabRequest) -> (r: Result<
    PythonHelperRequest,
    ForkTabError,
>)
    ensures
        match r {
            Ok(h) => {
                &&& h.source_iterm_session_id@ == request.source_iterm_session_id@
                &&& h.source_thread_id@ == thread_id::uuid_text(request.source_thread_id.value)
                &&& command_line(*request) == Ok::<Seq<char>, ForkTabError>(h.fork_command@)
                &&& h.open_behavior == request.open_behavior
            },
            Err(e) => command_line(*request) == Err::<Seq<char>, ForkTabError>(e),
        },
{
    match codex_command_text(request) {
        Ok(fork_command) => Ok(
            PythonHelperRequest {
                source_iterm_session_id: request.source_iterm_session_id.clone(),
                source_thread_id: request.source_thread_id.to_text(),
                fork_command,
                open_behavior: request.open_behavior,
            },
        ),
        Err(e) => Err(e),
    }
}

// ---- what the helper answers ----

/// What the helper printed, or why there is nothing to read.
pub fn helper_stdout(stdout: &[u8], stderr: &[u8]) -> (r: Result<String, ForkTabError>)
    ensures
        if !vstd::utf8::valid_utf8(stdout@) {
            r == Err::<String, ForkTabError>(ForkTabError::StdoutNotUtf8)
        } else {
            let t = text::trim(vstd::utf8::decode_utf8(stdout@));
            if t.len() == 0 {
                r matches Err(ForkTabError::EmptyStdout { stderr: s }) && s@ == text::trim(
                    text::lossy_utf8(stderr@),
                )
            } else {
                r matches Ok(s) && s@ == t
            }
        },
{
    let out = match text::utf8_text(stdout) {
        Some(s) => s,
        None => {
            return Err(ForkTabError::StdoutNotUtf8);
        },
    };
    let trimmed = text::trim_str(out.as_str());
    if text::chars_of(trimmed.as_str()).len() == 0 {
        let err = text::lossy_text(stderr);
        return Err(ForkTabError::EmptyStdout { stderr: text::trim_str(err.as_str()) });
    }
    Ok(trimmed)
}

/// An outcome by its texts.
pub ghost enum OutcomeView {
    Launched(Option<Seq<char>>),
    Unsupported(Seq<char>),
    Failed(Seq<char>),
}

impl View for ItermForkTabOutcome {
    type V = OutcomeView;

    open spec fn view(&self) -> OutcomeView {
        match self {
            ItermForkTabOutcome::Launched { created_session_id } => OutcomeView::Launched(
                text::option_view(*created_session_id),
            ),
            ItermForkTabOutcome::Unsupported(reason) => OutcomeView::Unsupported(reason@),
            ItermForkTabOutcome::Failed(reason) => OutcomeView::Failed(reason@),
        }
    }
}

/// What an answer means: its status decides what else it must hold.
pub open spec fn response(value: JsonValue) -> Option<OutcomeView> {
    match value {
        JsonValue::Object(fields) => match json::field(fields@, "status"@) {
            Some(JsonValue::Text(status)) => {
                let reason = match json::field(fields@, "reason"@) {
                    Some(v) => json::text_of(v),
                    None => None,
                };
                if status@ == "launched"@ {
                    match json::field(fields@, "created_session_id"@) {
                        None => Some(OutcomeView::Launched(None)),
                        Some(JsonValue::Null) => Some(OutcomeView::Launched(None)),
                        Some(JsonValue::Text(id)) => Some(OutcomeView::Launched(Some(id@))),
                        Some(_) => None,
                    }
                } else if status@ == "unsupported"@ && reason is Some {
                    Some(OutcomeView::Unsupported(reason->0))
                } else if status@ == "failed"@ && reason is Some {
                    Some(OutcomeView::Failed(reason->0))
                } else {
                    None
                }
            },
            _ => None,
        },
        _ => None,
    }
}

fn reason_of(fields: &Vec<(String, JsonValue)>) -> (r: Option<String>)
    ensures
        text::option_view(r) == match json::field(fields@, "reason"@) {
            Some(v) => json::text_of(v),
            None => None,
        },
{
    match json::get(fields, "reason") {
        Some(JsonValue::Text(s)) => Some(s.clone()),
        _ => None,
    }
}

fn read_response(value: &JsonValue) -> (r: Option<ItermForkTabOutcome>)
    ensures
        match r {
            Some(o) => response(*value) == Some(o@),
            None => response(*value) is None,
        },
{
    let fields = match value {
        JsonValue::Object(fields) => fields,
        _ => {
            return None;
        },
    };
    let status = match json::get(fields, "status") {
        Some(JsonValue::Text(status)) => status,
        _ => {
            return None;
        },
    };
    let launched = text::same_str(status.as_str(), "launched");
    let unsupported = text::same_str(status.as_str(), "unsupported");
    let failed = text::same_str(status.as_str(), "failed");
    proof {
        reveal_strlit("launched");
        reveal_strlit("unsupported");
        reveal_strlit("failed");
        assert("launched"@.len() != "unsupported"@.len());
        assert("unsupported"@.len() != "failed"@.len());
    }
    if launched {
        return match json::get(fields, "created_session_id") {
            None => Some(ItermForkTabOutcome::Launched { created_session_id: None }),
            Some(JsonValue::Null) => Some(
                ItermForkTabOutcome::Launched { created_session_id: None },
            ),
            Some(JsonValue::Text(id)) => Some(
                ItermForkTabOutcome::Launched { created_session_id: Some(id.clone()) },
            ),
            Some(_) => None,
        };
    }
    let reason = reason_of(fields);
    match reason {
        Some(reason) => if unsupported {
            Some(ItermForkTabOutcome::Unsupported(reason))
        } else if failed {
            Some(ItermForkTabOutcome::Failed(reason))
        } else {
            None
        },
        None => None,
    }
}

/// What the helper answered. `stdout` is what it printed, and `value` the JSON that it is,
/// where it is one.
pub fn parse_helper_response(stdout: &str, value: Option<&JsonValue>) -> (r: Result<
    ItermForkTabOutcome,
    ForkTabError,
>)
    ensures
        match r {
            Ok(outcome) => value is Some && response(*value->0) == Some(outcome@),
            Err(e) => (value is None || response(*value->0) is None) && (e matches
                ForkTabError::NotAResponse { stdout: s } && s@ == stdout@),
        },
{
    let outcome = match value {
        Some(v) => read_response(v),
        None => None,
    };
    match outcome {
        Some(o) => Ok(o),
        None => Err(ForkTabError::NotAResponse { stdout: stdout.to_owned() }),
    }
}

/// The outcome of a helper that ended badly: its status, and what it said about it.
pub fn helper_exit_failure(status: &str, stderr: &[u8]) -> (r: ItermForkTabOutcome)
    ensures
        r@ == OutcomeView::Failed(
            "iTerm2 fork-tab helper exited with status "@ + status@ + (if text::trim(
                text::lossy_utf8(stderr@),
            ).len() == 0 {
                Seq::empty()
            } else {
                ": "@ + text::trim(text::lossy_utf8(stderr@))
            }),
        ),
{
    let err = text::lossy_text(stderr);
    let trimmed = text::trim_str(err.as_str());
    let mut reason = "iTerm2 fork-tab helper exited with status ".to_owned();
    reason.push_str(status);
    if text::chars_of(trimmed.as_str()).len() > 0 {
        reason.push_str(": ");
        reason.push_str(trimmed.as_str());
    }
    assert(reason@ =~= "iTerm2 fork-tab helper exited with status "@ + status@ + (if text::trim(
        text::lossy_utf8(stderr@),
    ).len() == 0 {
        Seq::empty()
    } else {
        ": "@ + text::trim(text::lossy_utf8(stderr@))
    }));
    ItermForkTabOutcome::Failed(reason)
}

/// What follows a launch.
#[derive(Debug)]
pub enum ForkFollowUp {
    /// Leave the snapshot of the environment to the new tab.
    PersistSnapshot,
    /// Tell the user.
    Report(String),
}

/// What follows a launch.
pub fn after_launch(outcome: Result<ItermForkTabOutcome, String>) -> (r: ForkFollowUp)
    ensures
        match outcome {
            Ok(ItermForkTabOutcome::Launched { .. }) => r is PersistSnapshot,
            Ok(ItermForkTabOutcome::Unsupported(reason)) => r == ForkFollowUp::Report(reason),
            Ok(ItermForkTabOutcome::Failed(reason)) => r == ForkFollowUp::Report(reason),
            Err(problem) => r matches ForkFollowUp::Report(m) && m@
                == "Failed to launch iTerm2 fork tab: "@ + problem@,
        },
{
    match outcome {
        Ok(ItermForkTabOutcome::Launched { .. }) => ForkFollowUp::PersistSnapshot,
        Ok(ItermForkTabOutcome::Unsupported(reason)) => ForkFollowUp::Report(reason),
        Ok(ItermForkTabOutcome::Failed(reason)) => ForkFollowUp::Report(reason),
        Err(problem) => {
            let mut m = "Failed to launch iTerm2 fork tab: ".to_owned();
            m.push_str(problem.as_str());
            ForkFollowUp::Report(m)
        },
    }
}

/// What a snapshot that could not be left to the new tab is reported as.
pub fn persist_failure(problem: &str) -> (r: String)
    ensures
        r@ == "Fork tab launched but failed to persist its environment snapshot: "@ + problem@,
{
    let mut m = "Fork tab launched but failed to persist its environment snapshot: ".to_owned();
    m.push_str(problem);
    m
}

// ---- the hotkey ----

/// What a key press comes to.
#[derive(Clone, Copy, Debug, PartialEq, Eq, Structural)]
pub enum HotkeyOutcome {
    /// It is not the hotkey.
    NotHandled,
    /// It is, but nothing can be forked now.
    Swallowed,
    /// The session is forked.
    Fork,
}

/// What happened to a key.
#[derive(Clone, Copy, Debug, PartialEq, Eq, Structural)]
pub enum KeyKind {
    Press,
    Repeat,
    Release,
}

/// Whether a key event is the hotkey: Ctrl-O is pressed, with no other modifier.
pub open spec fn hotkey_pressed(code: KeyCode, modifiers: KeyModifiers, kind: KeyKind) -> bool {
    &&& code == KeyCode::Char('o')
    &&& modifiers == KeyModifiers { control: true, alt: false, shift: false, other: false }
    &&& kind == KeyKind::Press
}

/// Whether a key event is the hotkey.
pub fn is_fork_hotkey(code: KeyCode, modifiers: KeyModifiers, kind: KeyKind) -> (r: bool)
    ensures
        r == hotkey_pressed(code, modifiers, kind),
{
    code == KeyCode::Char('o') && modifiers.control && !modifiers.alt && !modifiers.shift
        && !modifiers.other && kind == KeyKind::Press
}

/// What a key event comes to.
pub fn fork_hotkey(
    code: KeyCode,
    modifiers: KeyModifiers,
    kind: KeyKind,
    can_run_now: bool,
) -> (r: HotkeyOutcome)
    ensures
        r == if !hotkey_pressed(code, modifiers, kind) {
            HotkeyOutcome::NotHandled
        } else if !can_run_now {
            HotkeyOutcome::Swallowed
        } else {
            HotkeyOutcome::Fork
        },
{
    if !is_fork_hotkey(code, modifiers, kind) {
        HotkeyOutcome::NotHandled
    } else if !can_run_now {
        HotkeyOutcome::Swallowed
    } else {
        HotkeyOutcome::Fork
    }
}

// ---- what is launched ----

/// A tab can be forked exactly where the terminal is iTerm2 and tells its session, and the thread is
/// known and has been written.
pub proof fn forks_need_a_terminal_and_a_thread(
    is_iterm2: bool,
    session_id: Option<Seq<char>>,
    thread_id: Option<ThreadId>,
    rollout_exists: bool,
)
    ensures
        obstacle(is_iterm2, session_id, thread_id, rollout_exists) is None <==> is_iterm2
            && session_id is Some && thread_id is Some && rollout_exists,
        !is_iterm2 ==> obstacle(is_iterm2, session_id, thread_id, rollout_exists) == Some(
            "Fork tab launch requires iTerm2."@,
        ),
        is_iterm2 && session_id is None ==> obstacle(
            is_iterm2,
            session_id,
            thread_id,
            rollout_exists,
        ) == Some("ITERM_SESSION_ID is missing."@),
{
}

/// The interpreter is looked for in every directory of the search path, in order.
pub proof fn every_directory_is_searched(path_var: Seq<char>, i: int)
    requires
        0 <= i < text::split_on(path_var, ':').len(),
    ensures
        python_candidates(path_var).len() == text::split_on(path_var, ':').len(),
        python_candidates(path_var)[i] == paths::joined(
            text::split_on(path_var, ':')[i],
            "python3"@,
        ),
        paths::file_name(python_candidates(path_var)[i]) == Some("python3"@),
{
    reveal_strlit("python3");
    let dir = text::split_on(path_var, ':')[i];
    assert(!"python3"@.contains('/'));
    paths::joined_name_is_file_name(dir, "python3"@);
}

/// What is taken is the first candidate that is a file and not blank.
pub proof fn the_first_interpreter_is_taken(candidates: Seq<Seq<char>>, is_file: Seq<bool>, i: int)
    requires
        candidates.len() == is_file.len(),
        0 <= i <= candidates.len(),
    ensures
        match first_file(candidates, is_file, i) {
            Some(found) => exists|k: int|
                i <= k < candidates.len() && is_file[k] && found == text::trim(
                    #[trigger] candidates[k],
                ) && found.len() > 0 && (forall|j: int|
                    i <= j < k ==> !is_file[j] || text::trim(#[trigger] candidates[j]).len() == 0),
            None => forall|j: int|
                i <= j < candidates.len() ==> !is_file[j] || text::trim(
                    #[trigger] candidates[j],
                ).len() == 0,
        },
    decreases candidates.len() - i,
{
    if i < candidates.len() {
        if is_file[i] && text::trim(candidates[i]).len() > 0 {
            assert(text::trim(candidates[i]).len() > 0);
        } else {
            the_first_interpreter_is_taken(candidates, is_file, i + 1);
            if first_file(candidates, is_file, i + 1) is Some {
                let found = first_file(candidates, is_file, i + 1)->0;
                let k = choose|k: int|
                    i + 1 <= k < candidates.len() && is_file[k] && found == text::trim(
                        #[trigger] candidates[k],
                    ) && found.len() > 0 && (forall|j: int|
                        i + 1 <= j < k ==> !is_file[j] || text::trim(#[trigger] candidates[j]).len()
                            == 0);
                assert(found == text::trim(candidates[k]));
            }
        }
    }
}

/// A fork is run with the interpreter and the snapshot in its environment, on the thread that it
/// forks.
pub proof fn forks_run_on_their_thread(
    executable: Seq<char>,
    thread: ThreadId,
    helper_python: Seq<char>,
    snapshot_path: Seq<char>,
)
    ensures
        ({
            let words = fork_words(executable, thread, helper_python, snapshot_path);
            &&& words.len() == 6
            &&& text::has_suffix(words[1], helper_python)
            &&& text::has_suffix(words[2], snapshot_path)
            &&& words[3] == executable
            &&& words[4] == "fork"@
            &&& words[5] == thread_id::uuid_text(thread.value)
        }),
{
    let python = ITERM_FORK_HELPER_PYTHON_ENV@ + "="@;
    let snapshot = FORK_ENV_SNAPSHOT_PATH_ENV_VAR@ + "="@;
    text::texts_hold_their_parts(python, helper_python, Seq::empty());
    text::texts_hold_their_parts(snapshot, snapshot_path, Seq::empty());
}

/// A tab that closes runs the invocation alone; one that returns to a shell has the shell run it and
/// then become a login shell. Neither is run if a word cannot be quoted, there is nothing to run, or
/// the shell is not known.
pub proof fn tabs_run_the_whole_invocation(request: ItermForkTabRequest)
    ensures
        ({
            let words = text::string_views(request.codex_invocation@);
            let line = shell_line(words);
            &&& command_line(request) is Ok ==> words.len() > 0 && !has_nul(words) && line.len() > 0
            &&& words.len() > 0 && !has_nul(words) && line.len() > 0 && request.exit_behavior
                is CloseTab ==> command_line(request) == Ok::<Seq<char>, ForkTabError>(line)
            &&& request.exit_behavior matches ItermForkTabExitBehavior::ReturnToShell { shell } ==> (
            command_line(request) matches Ok(run) ==> text::trim(shell@).len() > 0 && run
                == shell_line(
                seq![shell@, "-lc"@, line + "; exec "@ + shell_line(seq![shell@, "-l"@])],
            ))
        }),
{
}

/// A response is read as what it says: a launch with the session that it made, if it names one, or a
/// refusal or a failure with its reason, without which it is no response.
pub proof fn responses_say_what_happened(value: JsonValue)
    ensures
        response(value) matches Some(outcome) ==> {
            &&& value is Object
            &&& json::field(value->Object_0@, "status"@) matches Some(status) && status is Text
            &&& {
                let fields = value->Object_0@;
                let status = json::field(fields, "status"@)->0->Text_0@;
                match outcome {
                    OutcomeView::Launched(id) => status == "launched"@ && (id matches Some(s) ==> (
                    json::field(fields, "created_session_id"@) matches Some(v) && json::text_of(v)
                        == Some(s))),
                    OutcomeView::Unsupported(reason) => status == "unsupported"@ && (json::field(
                        fields,
                        "reason"@,
                    ) matches Some(v) && json::text_of(v) == Some(reason)),
                    OutcomeView::Failed(reason) => status == "failed"@ && (json::field(
                        fields,
                        "reason"@,
                    ) matches Some(v) && json::text_of(v) == Some(reason)),
                }
            }
        },
        value !is Object ==> response(value) is None,
{
    reveal_strlit("launched");
    reveal_strlit("unsupported");
    reveal_strlit("failed");
}

/// The hotkey is control with O, pressed alone and once.
pub proof fn the_hotkey_is_pressed_alone(code: KeyCode, modifiers: KeyModifiers, kind: KeyKind)
    ensures
        hotkey_pressed(code, modifiers, kind) <==> code == KeyCode::Char('o') && modifiers.control
            && !modifiers.alt && !modifiers.shift && !modifiers.other && kind is Press,
{
}

} // verus!
