//! Commands that are run in the workspace without a terminal.

use vstd::prelude::*;

use crate::text;

verus! {

/// How long a command may run.
pub const DEFAULT_TIMEOUT_MS: u128 = 5000;

/// How much of its output is kept.
pub const DEFAULT_OUTPUT_BYTES: usize = 65536;

/// An environment variable; without a value it is taken away.
#[derive(Debug)]
pub struct EnvEntry {
    pub key: String,
    pub value: Option<String>,
}

/// A command.
#[derive(Debug)]
pub struct WorkspaceCommand {
    pub argv: Vec<String>,
    pub cwd: Option<String>,
    /// The variables that are set, each once.
    pub env: Vec<EnvEntry>,
    pub timeout_ms: u128,
    pub output_bytes_cap: usize,
}

/// Environment variables by name.
pub open spec fn env_values(env: Seq<EnvEntry>) -> Map<Seq<char>, Option<Seq<char>>>
    decreases env.len(),
{
    if env.len() == 0 {
        Map::empty()
    } else {
        env_values(env.drop_last()).insert(env.last().key@, text::option_view(env.last().value))
    }
}

/// Whether each variable is set once.
pub open spec fn names_once(env: Seq<EnvEntry>) -> bool {
    forall|i: int, j: int|
        0 <= i < j < env.len() ==> (#[trigger] env[i]).key@ != (#[trigger] env[j]).key@
}

proof fn lemma_replaced(env: Seq<EnvEntry>, i: int, entry: EnvEntry)
    requires
        names_once(env),
        0 <= i < env.len(),
        env[i].key@ == entry.key@,
    ensures
        env_values(env.update(i, entry)) == env_values(env).insert(
            entry.key@,
            text::option_view(entry.value),
        ),
    decreases env.len(),
{
    let after = env.update(i, entry);
    let rest = env.drop_last();
    if i == env.len() - 1 {
        assert(after.drop_last() =~= rest);
        assert(env_values(after) =~= env_values(env).insert(
            entry.key@,
            text::option_view(entry.value),
        ));
    } else {
        assert(after.drop_last() =~= rest.update(i, entry));
        assert(names_once(rest)) by {
            assert forall|a: int, b: int| 0 <= a < b < rest.len() implies (#[trigger] rest[a]).key@
                != (#[trigger] rest[b]).key@ by {
                assert(env[a].key@ != env[b].key@);
            }
        }
        assert(rest[i].key@ == entry.key@);
        lemma_replaced(rest, i, entry);
        assert(env[i].key@ != env[env.len() - 1].key@);
        assert(env_values(after) =~= env_values(env).insert(
            entry.key@,
            text::option_view(entry.value),
        ));
    }
}

/// What came out of a command.
#[derive(Debug, PartialEq, Eq)]
pub struct WorkspaceCommandOutput {
    pub exit_code: i32,
    pub stdout: String,
    pub stderr: String,
}

impl WorkspaceCommandOutput {
    pub fn success(&self) -> (r: bool)
        ensures
            r == (self.exit_code == 0),
    {
        self.exit_code == 0
    }
}

/// What a server is asked to run.
#[derive(Debug)]
pub struct CommandExecParams {
    pub command: Vec<String>,
    pub tty: bool,
    pub stream_stdin: bool,
    pub stream_stdout_stderr: bool,
    pub output_bytes_cap: Option<usize>,
    pub disable_output_cap: bool,
    pub disable_timeout: bool,
    pub timeout_ms: Option<i64>,
    pub cwd: Option<String>,
    pub env: Option<Vec<EnvEntry>>,
}

impl WorkspaceCommand {
    /// A command that runs where the session does, with nothing set.
    pub fn new(argv: Vec<String>) -> (r: Self)
        ensures
            r.argv == argv,
            r.cwd is None,
            r.env@.len() == 0,
            env_values(r.env@) == Map::<Seq<char>, Option<Seq<char>>>::empty(),
            r.timeout_ms == DEFAULT_TIMEOUT_MS,
            r.output_bytes_cap == DEFAULT_OUTPUT_BYTES,
    {
        WorkspaceCommand {
            argv,
            cwd: None,
            env: Vec::new(),
            timeout_ms: DEFAULT_TIMEOUT_MS,
            output_bytes_cap: DEFAULT_OUTPUT_BYTES,
        }
    }

    /// The command in a directory.
    pub fn cwd(self, cwd: String) -> (r: Self)
        ensures
            r == (WorkspaceCommand { cwd: Some(cwd), ..self }),
    {
        WorkspaceCommand {
            argv: self.argv,
            cwd: Some(cwd),
            env: self.env,
            timeout_ms: self.timeout_ms,
            output_bytes_cap: self.output_bytes_cap,
        }
    }

    /// The command with a variable set; what it was set to before is forgotten.
    pub fn env(self, key: String, value: String) -> (r: Self)
        requires
            names_once(self.env@),
        ensures
            names_once(r.env@),
            env_values(r.env@) == env_values(self.env@).insert(key@, Some(value@)),
            r == (WorkspaceCommand { env: r.env, ..self }),
    {
        let mut env = self.env;
        let entry = EnvEntry { key, value: Some(value) };
        let mut i: usize = 0;
        while i < env.len()
            invariant
                i <= env.len(),
                env@ == self.env@,
                names_once(env@),
                entry.key@ == key@,
                text::option_view(entry.value) == Some(value@),
                forall|j: int| 0 <= j < i ==> (#[trigger] env@[j]).key@ != key@,
            decreases env.len() - i,
        {
            if text::same_str(env[i].key.as_str(), entry.key.as_str()) {
                proof {
                    lemma_replaced(env@, i as int, entry);
                    assert forall|a: int, b: int| 0 <= a < b < env@.len() implies (
                    #[trigger] env@.update(i as int, entry)[a]).key@ != (#[trigger] env@.update(
                        i as int,
                        entry,
                    )[b]).key@ by {
                        assert(env@[a].key@ != env@[b].key@);
                    }
                }
                env.set(i, entry);
                return WorkspaceCommand {
                    argv: self.argv,
                    cwd: self.cwd,
                    env,
                    timeout_ms: self.timeout_ms,
                    output_bytes_cap: self.output_bytes_cap,
                };
            }
            i = i + 1;
        }
        let ghost before = env@;
        env.push(entry);
        assert(env@.drop_last() =~= before);
        WorkspaceCommand {
            argv: self.argv,
            cwd: self.cwd,
            env,
            timeout_ms: self.timeout_ms,
            output_bytes_cap: self.output_bytes_cap,
        }
    }

    /// What a server is asked for to run the command: no terminal and no streams, and limits
    /// on time and output. A time limit that is too long to be written is the longest there is.
    pub fn exec_params(self) -> (r: CommandExecParams)
        ensures
            r.command == self.argv,
            !r.tty && !r.stream_stdin && !r.stream_stdout_stderr,
            !r.disable_output_cap && !r.disable_timeout,
            r.output_bytes_cap == Some(self.output_bytes_cap),
            r.timeout_ms == Some(
                if self.timeout_ms <= i64::MAX {
                    self.timeout_ms as i64
                } else {
                    i64::MAX
                },
            ),
            r.cwd == self.cwd,
            r.env == if self.env@.len() == 0 {
                None
            } else {
                Some(self.env)
            },
    {
        let timeout_ms: i64 = if self.timeout_ms <= i64::MAX as u128 {
            self.timeout_ms as i64
        } else {
            i64::MAX
        };
        CommandExecParams {
            command: self.argv,
            tty: false,
            stream_stdin: false,
            stream_stdout_stderr: false,
            output_bytes_cap: Some(self.output_bytes_cap),
            disable_output_cap: false,
            disable_timeout: false,
            timeout_ms: Some(timeout_ms),
            cwd: self.cwd,
            env: if self.env.len() == 0 {
                None
            } else {
                Some(self.env)
            },
        }
    }
}

/// A variable that is set once has its value, and one that is not set has none.
pub proof fn variables_have_their_values(env: Seq<EnvEntry>, key: Seq<char>, i: int)
    requires
        names_once(env),
        0 <= i < env.len(),
    ensures
        env_values(env).contains_key(env[i].key@),
        env_values(env)[env[i].key@] == text::option_view(env[i].value),
        env_values(env).contains_key(key) ==> exists|k: int|
            0 <= k < env.len() && (#[trigger] env[k]).key@ == key,
    decreases env.len(),
{
    let rest = env.drop_last();
    assert forall|a: int, b: int| 0 <= a < b < rest.len() implies (#[trigger] rest[a]).key@ != (
    #[trigger] rest[b]).key@ by {
        assert(rest[a] == env[a] && rest[b] == env[b]);
    }
    if i < env.len() - 1 {
        variables_have_their_values(rest, key, i);
        assert(rest[i] == env[i]);
        assert(env[i].key@ != env[env.len() - 1].key@);
    } else if rest.len() > 0 {
        variables_have_their_values(rest, key, 0);
    }
    if env_values(env).contains_key(key) {
        if key == env.last().key@ {
            assert(env[env.len() - 1].key@ == key);
        } else if rest.len() > 0 {
            let k = choose|k: int| 0 <= k < rest.len() && (#[trigger] rest[k]).key@ == key;
            assert(env[k].key@ == key);
        }
    }
}

} // verus!
