//! Recognising PowerShell invocations: which script an argument list runs, and
//! forcing UTF-8 output on it.

use vstd::prelude::*;

use crate::paths;
use crate::text;

verus! {

/// How strictly the flags before a script are read.
#[derive(Clone, Copy, Debug, PartialEq, Eq, Structural)]
pub enum PowershellCommandSequenceParseMode {
    ExecPolicy,
    SafeCommand,
}

/// A script together with the PowerShell executable that is asked to parse it.
#[derive(Debug)]
pub struct PowershellScript {
    pub executable: String,
    pub script: String,
}

/// Script text that switches the console output to UTF-8.
pub const UTF8_OUTPUT_PREFIX: &'static str =
    "[Console]::OutputEncoding=[System.Text.Encoding]::UTF8;\n";

/// Whether a shell path names PowerShell: stripping directories and extensions, one
/// after the other, leads to `pwsh` or `powershell`.
pub open spec fn names_powershell(shell: Seq<char>) -> bool
    decreases shell.len(),
    via names_powershell_decreases
{
    if shell == "pwsh"@ || shell == "powershell"@ {
        true
    } else {
        match paths::file_name(shell) {
            None => false,
            Some(name) => paths::stem(name).len() < shell.len() && names_powershell(
                paths::stem(name),
            ),
        }
    }
}

#[via_fn]
proof fn names_powershell_decreases(shell: Seq<char>) {
}

fn is_powershell_shell(shell: &[char]) -> (r: bool)
    ensures
        r == names_powershell(shell@),
    decreases shell@.len(),
{
    if text::eq_str(shell, "pwsh") || text::eq_str(shell, "powershell") {
        return true;
    }
    match paths::file_name_of(shell) {
        None => false,
        Some(name) => {
            let s = paths::stem_of(name.as_slice());
            s.len() < shell.len() && is_powershell_shell(s.as_slice())
        },
    }
}

/// The flags that may stand before the script flag.
pub open spec fn is_wrapper_flag(lower: Seq<char>) -> bool {
    lower == "-nologo"@ || lower == "-noprofile"@ || is_script_flag(lower)
}

/// The flags that a script follows.
pub open spec fn is_script_flag(lower: Seq<char>) -> bool {
    lower == "-command"@ || lower == "-c"@
}

/// The position of the script when the flags from `i` on are read: the argument after
/// the first script flag, if only known flags stand before it.
pub open spec fn script_index(command: Seq<Seq<char>>, i: int) -> Option<int>
    decreases command.len() - i,
{
    if i < 0 || i + 1 >= command.len() {
        None
    } else if !is_wrapper_flag(text::ascii_lower(command[i])) {
        None
    } else if is_script_flag(text::ascii_lower(command[i])) {
        Some(i + 1)
    } else {
        script_index(command, i + 1)
    }
}

/// The position of the script in a PowerShell command.
pub open spec fn script_position(command: Seq<Seq<char>>) -> Option<int> {
    if command.len() >= 3 && names_powershell(command[0]) {
        script_index(command, 1)
    } else {
        None
    }
}

/// The shell and the script of a PowerShell command with an explicit `-Command` or `-c`.
pub fn extract_powershell_command(command: &[String]) -> (r: Option<(&str, &str)>)
    ensures
        match r {
            Some((shell, script)) => script_position(text::string_views(command@)) matches Some(p)
                && 2 <= p < command@.len() && shell@ == command@[0]@ && script@ == command@[p]@,
            None => script_position(text::string_views(command@)) is None,
        },
{
    let ghost v = text::string_views(command@);
    if command.len() < 3 {
        return None;
    }
    let shell = text::chars_of(command[0].as_str());
    assert(v[0] == command@[0]@);
    if !is_powershell_shell(shell.as_slice()) {
        return None;
    }
    let mut i: usize = 1;
    while i < command.len() - 1
        invariant
            1 <= i < command.len(),
            v == text::string_views(command@),
            command.len() >= 3,
            names_powershell(v[0]),
            script_position(v) == script_index(v, i as int),
        decreases command.len() - i,
    {
        assert(v[i as int] == command@[i as int]@);
        let flag = text::chars_of(command[i].as_str());
        let lower = text::to_ascii_lower(flag.as_slice());
        let l = lower.as_slice();
        let is_script = text::eq_str(l, "-command") || text::eq_str(l, "-c");
        if !is_script && !text::eq_str(l, "-nologo") && !text::eq_str(l, "-noprofile") {
            return None;
        }
        if is_script {
            return Some((command[0].as_str(), command[i + 1].as_str()));
        }
        i = i + 1;
    }
    None
}

/// The script with the UTF-8 prefix, which it gets at most once.
pub open spec fn with_utf8_prefix(script: Seq<char>) -> Seq<char> {
    if text::has_prefix(text::trim_start(script), UTF8_OUTPUT_PREFIX@) {
        script
    } else {
        UTF8_OUTPUT_PREFIX@ + script
    }
}

/// A PowerShell command whose last argument is its script with the UTF-8 prefix; any
/// other command is unchanged.
pub open spec fn utf8_command(command: Seq<Seq<char>>) -> Seq<Seq<char>> {
    match script_position(command) {
        Some(p) => command.drop_last().push(with_utf8_prefix(command[p])),
        None => command,
    }
}

fn has_utf8_prefix(script: &str) -> (r: bool)
    ensures
        r == text::has_prefix(text::trim_start(script@), UTF8_OUTPUT_PREFIX@),
{
    let s = text::chars_of(script);
    let mut i: usize = 0;
    assert(s@.skip(0) =~= s@);
    while i < s.len() && text::white_space(s[i])
        invariant
            i <= s.len(),
            s@ == script@,
            text::trim_start(s@.skip(i as int)) == text::trim_start(s@),
        decreases s.len() - i,
    {
        assert(s@.skip(i as int).drop_first() =~= s@.skip(i + 1));
        i = i + 1;
    }
    let rest = text::sub_vec(s.as_slice(), i, s.len());
    assert(rest@ =~= s@.skip(i as int));
    text::starts_with(rest.as_slice(), UTF8_OUTPUT_PREFIX)
}

/// Forces UTF-8 console output on a PowerShell command.
pub fn prefix_powershell_script_with_utf8(command: &[String]) -> (r: Vec<String>)
    ensures
        text::string_views(r@) == utf8_command(text::string_views(command@)),
{
    let ghost v = text::string_views(command@);
    match extract_powershell_command(command) {
        None => {
            text::clone_strings(command)
        },
        Some((_, script)) => {
            let mut body = String::new();
            if !has_utf8_prefix(script) {
                body.push_str(UTF8_OUTPUT_PREFIX);
            }
            body.push_str(script);
            assert(body@ =~= with_utf8_prefix(script@));
            let kept = vstd::slice::slice_subrange(command, 0, command.len() - 1);
            let mut r = text::clone_strings(kept);
            r.push(body);
            proof {
                let p = script_position(v)->0;
                assert(v[p] == script@);
                assert(text::string_views(r@) =~= v.drop_last().push(with_utf8_prefix(v[p])));
            }
            r
        },
    }
}

/// The UTF-8 prefix begins with a character that is no white space.
proof fn lemma_prefix_is_not_blank()
    ensures
        UTF8_OUTPUT_PREFIX@.len() > 0,
        !text::is_white_space(UTF8_OUTPUT_PREFIX@[0]),
{
    reveal_strlit("[Console]::OutputEncoding=[System.Text.Encoding]::UTF8;\n");
}

proof fn lemma_script_index_bounds(command: Seq<Seq<char>>, i: int)
    requires
        script_index(command, i) is Some,
    ensures
        i < script_index(command, i)->0 < command.len(),
    decreases command.len() - i,
{
    if !is_script_flag(text::ascii_lower(command[i])) {
        lemma_script_index_bounds(command, i + 1);
    }
}

/// Only the arguments before the last one decide where the script is.
proof fn lemma_script_index_ignores_last(a: Seq<Seq<char>>, b: Seq<Seq<char>>, i: int)
    requires
        a.len() == b.len(),
        a.len() > 0,
        a.drop_last() == b.drop_last(),
    ensures
        script_index(a, i) == script_index(b, i),
    decreases a.len() - i,
{
    if 0 <= i && i + 1 < a.len() {
        assert(a[i] == a.drop_last()[i]);
        assert(b[i] == b.drop_last()[i]);
        lemma_script_index_ignores_last(a, b, i + 1);
    }
}

/// Forcing UTF-8 output twice is the same as forcing it once.
pub proof fn utf8_prefix_is_added_once(command: Seq<Seq<char>>)
    ensures
        utf8_command(utf8_command(command)) == utf8_command(command),
{
    match script_position(command) {
        None => {},
        Some(p) => {
            lemma_script_index_bounds(command, 1);
            let first = utf8_command(command);
            assert(first.drop_last() =~= command.drop_last());
            assert(first[0] == command[0]);
            lemma_script_index_ignores_last(command, first, 1);
            assert(script_position(first) == Some(p));
            if p == command.len() - 1 {
                let body = first[p];
                assert(body == with_utf8_prefix(command[p]));
                if !text::has_prefix(text::trim_start(command[p]), UTF8_OUTPUT_PREFIX@) {
                    lemma_prefix_is_not_blank();
                    assert(text::trim_start(body) == body);
                    assert(body.subrange(0, UTF8_OUTPUT_PREFIX@.len() as int)
                        =~= UTF8_OUTPUT_PREFIX@);
                }
                assert(with_utf8_prefix(body) == body);
            } else {
                assert(first[p] == command[p]);
            }
            assert(utf8_command(first) =~= first);
        },
    }
}

// ---- reading an invocation for its script ----

/// Whether an executable path names PowerShell, in any case.
pub open spec fn powershell_executable(exe: Seq<char>) -> bool {
    let name = text::ascii_lower(
        match paths::file_name(exe) {
            Some(n) => n,
            None => exe,
        },
    );
    name == "powershell"@ || name == "powershell.exe"@ || name == "pwsh"@ || name == "pwsh.exe"@
}

/// Decides `powershell_executable`.
pub fn is_powershell_executable(exe: &str) -> (r: bool)
    ensures
        r == powershell_executable(exe@),
{
    let chars = text::chars_of(exe);
    let name = match paths::file_name_of(chars.as_slice()) {
        Some(n) => n,
        None => chars,
    };
    let lower = text::to_ascii_lower(name.as_slice());
    let l = lower.as_slice();
    text::eq_str(l, "powershell") || text::eq_str(l, "powershell.exe") || text::eq_str(l, "pwsh")
        || text::eq_str(l, "pwsh.exe")
}

/// What stands before the first colon, where there is one.
pub open spec fn inline_flag(lower: Seq<char>) -> Option<Seq<char>> {
    if lower.contains(':') {
        Some(lower.take(text::first_index(lower, ':')))
    } else {
        None
    }
}

/// The flags without a value.
pub open spec fn no_arg_flag(lower: Seq<char>) -> bool {
    lower == "-nologo"@ || lower == "-noprofile"@ || lower == "-noninteractive"@ || lower
        == "-mta"@ || lower == "-sta"@
}

/// The flags with a value.
pub open spec fn value_flag(lower: Seq<char>) -> bool {
    lower == "-windowstyle"@ || lower == "-executionpolicy"@ || lower == "-workingdirectory"@
        || lower == "/windowstyle"@ || lower == "/executionpolicy"@ || lower
        == "/workingdirectory"@
}

/// The flags whose script cannot be read.
pub open spec fn opaque_flag(lower: Seq<char>) -> bool {
    lower == "-encodedcommand"@ || lower == "-ec"@ || lower == "-file"@ || lower == "/file"@
}

/// Whether an argument has the form of a flag.
pub open spec fn flag_like(lower: Seq<char>) -> bool {
    text::has_prefix(lower, "-"@) || text::has_prefix(lower, "/"@)
}

/// The flags that the script is the next argument of.
pub open spec fn command_flag(lower: Seq<char>) -> bool {
    lower == "-command"@ || lower == "/command"@ || lower == "-c"@
}

/// The flags that carry the script after a colon.
pub open spec fn inline_command_flag(lower: Seq<char>) -> bool {
    text::has_prefix(lower, "-command:"@) || text::has_prefix(lower, "/command:"@)
}

/// The two ways an opaque flag is written: alone, or with its value after a colon.
pub open spec fn opaque_argument(lower: Seq<char>) -> bool {
    opaque_flag(lower) || (inline_flag(lower) matches Some(f) && opaque_flag(f))
}

/// How many arguments an unknown flag takes: its value counts unless it is a flag too.
pub open spec fn unknown_flag_length(args: Seq<Seq<char>>, idx: int) -> int {
    if idx + 1 < args.len() && !flag_like(text::ascii_lower(args[idx + 1])) {
        2
    } else {
        1
    }
}

/// An argument as a word of a script: in single quotes where it is empty or holds white
/// space, with the quotes inside doubled.
pub open spec fn quoted(arg: Seq<char>) -> Seq<char> {
    if arg.len() == 0 {
        "''"@
    } else if forall|i: int| 0 <= i < arg.len() ==> !text::is_white_space(#[trigger] arg[i]) {
        arg
    } else {
        seq!['\''] + text::replace_all(arg, seq!['\''], "''"@) + seq!['\'']
    }
}

/// The words of a script: the first argument as it is, the others quoted.
pub open spec fn script_words(args: Seq<Seq<char>>) -> Seq<Seq<char>> {
    Seq::new(
        args.len(),
        |i: int|
            if i == 0 {
                args[i]
            } else {
                quoted(args[i])
            },
    )
}

/// The script that the arguments from `idx` on run, where it can be read in `mode`.
pub open spec fn script_from(
    args: Seq<Seq<char>>,
    idx: int,
    mode: PowershellCommandSequenceParseMode,
) -> Option<Seq<char>>
    decreases args.len() - idx,
{
    if idx < 0 || idx >= args.len() {
        None
    } else {
        let lower = text::ascii_lower(args[idx]);
        let safe = mode == PowershellCommandSequenceParseMode::SafeCommand;
        if command_flag(lower) {
            if idx + 2 == args.len() {
                Some(args[idx + 1])
            } else {
                None
            }
        } else if inline_command_flag(lower) {
            if idx + 1 == args.len() {
                Some(args[idx].skip(text::first_index(args[idx], ':') + 1))
            } else {
                None
            }
        } else if no_arg_flag(lower) {
            script_from(args, idx + 1, mode)
        } else if value_flag(lower) {
            if safe || idx + 1 >= args.len() {
                None
            } else {
                script_from(args, idx + 2, mode)
            }
        } else if inline_flag(lower) matches Some(f) && value_flag(f) {
            if safe {
                None
            } else {
                script_from(args, idx + 1, mode)
            }
        } else if opaque_argument(lower) {
            None
        } else if flag_like(lower) {
            if safe || idx + unknown_flag_length(args, idx) > args.len() {
                None
            } else {
                script_from(args, idx + unknown_flag_length(args, idx), mode)
            }
        } else if safe {
            Some(text::join(script_words(args.skip(idx)), " "@))
        } else {
            None
        }
    }
}

fn inline_flag_of(lower: &[char]) -> (r: Option<Vec<char>>)
    ensures
        match r {
            Some(f) => inline_flag(lower@) == Some(f@),
            None => inline_flag(lower@) is None,
        },
{
    let colon = text::index_from(lower, ':', 0);
    proof {
        assert(lower@.skip(0) =~= lower@);
        text::lemma_first_index(lower@, ':');
    }
    if colon < lower.len() {
        let f = text::sub_vec(lower, 0, colon);
        assert(f@ =~= lower@.take(colon as int));
        Some(f)
    } else {
        None
    }
}

fn is_powershell_no_arg_parse_flag(l: &[char]) -> (r: bool)
    ensures
        r == no_arg_flag(l@),
{
    text::eq_str(l, "-nologo") || text::eq_str(l, "-noprofile") || text::eq_str(
        l,
        "-noninteractive",
    ) || text::eq_str(l, "-mta") || text::eq_str(l, "-sta")
}

fn is_powershell_value_parse_flag(l: &[char]) -> (r: bool)
    ensures
        r == value_flag(l@),
{
    text::eq_str(l, "-windowstyle") || text::eq_str(l, "-executionpolicy") || text::eq_str(
        l,
        "-workingdirectory",
    ) || text::eq_str(l, "/windowstyle") || text::eq_str(l, "/executionpolicy") || text::eq_str(
        l,
        "/workingdirectory",
    )
}

fn is_powershell_value_parse_flag_with_inline_value(l: &[char]) -> (r: bool)
    ensures
        r == (inline_flag(l@) matches Some(f) && value_flag(f)),
{
    match inline_flag_of(l) {
        Some(f) => is_powershell_value_parse_flag(f.as_slice()),
        None => false,
    }
}

fn is_unsupported_powershell_parse_flag(l: &[char]) -> (r: bool)
    ensures
        r == opaque_flag(l@),
{
    text::eq_str(l, "-encodedcommand") || text::eq_str(l, "-ec") || text::eq_str(l, "-file")
        || text::eq_str(l, "/file")
}

fn has_unsupported_powershell_parse_flag_inline_value(l: &[char]) -> (r: bool)
    ensures
        r == (inline_flag(l@) matches Some(f) && opaque_flag(f)),
{
    match inline_flag_of(l) {
        Some(f) => is_unsupported_powershell_parse_flag(f.as_slice()),
        None => false,
    }
}

fn looks_like_powershell_flag(l: &[char]) -> (r: bool)
    ensures
        r == flag_like(l@),
{
    text::starts_with(l, "-") || text::starts_with(l, "/")
}

fn powershell_wrapper_flag_length(args: &[String], idx: usize) -> (r: usize)
    requires
        idx < args.len(),
    ensures
        r == unknown_flag_length(text::string_views(args@), idx as int),
        idx + r <= args@.len(),
{
    if idx + 1 < args.len() {
        assert(text::string_views(args@)[idx + 1] == args@[idx + 1]@);
        let next = text::chars_of(args[idx + 1].as_str());
        let lower = text::to_ascii_lower(next.as_slice());
        if looks_like_powershell_flag(lower.as_slice()) {
            1
        } else {
            2
        }
    } else {
        1
    }
}

/// An argument as a word of a script.
pub fn quote_argument(arg: &str) -> (r: String)
    ensures
        r@ == quoted(arg@),
{
    let chars = text::chars_of(arg);
    if chars.len() == 0 {
        return "''".to_owned();
    }
    let mut i: usize = 0;
    while i < chars.len() && !text::white_space(chars[i])
        invariant
            i <= chars.len(),
            chars@ == arg@,
            forall|j: int| 0 <= j < i ==> !text::is_white_space(#[trigger] chars@[j]),
        decreases chars.len() - i,
    {
        i = i + 1;
    }
    if i == chars.len() {
        return arg.to_owned();
    }
    assert(text::is_white_space(arg@[i as int]));
    let quote: Vec<char> = vec!['\''];
    let doubled = text::chars_of("''");
    assert(quote@ =~= seq!['\'']);
    let inner = text::replace_str(chars.as_slice(), quote.as_slice(), doubled.as_slice());
    let mut out: Vec<char> = vec!['\''];
    text::extend(&mut out, inner.as_slice());
    out.push('\'');
    assert(out@ =~= seq!['\''] + inner@ + seq!['\'']);
    text::string_of(out.as_slice())
}

/// The arguments as one script: the first as it is, the others quoted.
pub fn join_arguments_as_script(args: &[String]) -> (r: String)
    ensures
        r@ == text::join(script_words(text::string_views(args@)), " "@),
{
    let mut words: Vec<String> = Vec::new();
    let mut i: usize = 0;
    while i < args.len()
        invariant
            i <= args.len(),
            words@.len() == i,
            forall|k: int|
                0 <= k < i ==> (#[trigger] words@[k])@ == script_words(
                    text::string_views(args@),
                )[k],
        decreases args.len() - i,
    {
        if i == 0 {
            words.push(args[i].clone());
        } else {
            words.push(quote_argument(args[i].as_str()));
        }
        i = i + 1;
    }
    assert(text::string_views(words@) =~= script_words(text::string_views(args@)));
    text::join_strings(words.as_slice(), " ")
}

/// The script that PowerShell arguments run, where it can be read in `mode`.
pub fn parse_powershell_invocation(
    args: &[String],
    mode: PowershellCommandSequenceParseMode,
) -> (r: Option<String>)
    ensures
        text::option_view(r) == script_from(text::string_views(args@), 0, mode),
{
    let ghost v = text::string_views(args@);
    let safe = mode == PowershellCommandSequenceParseMode::SafeCommand;
    let mut idx: usize = 0;
    while idx < args.len()
        invariant
            idx <= args.len(),
            v == text::string_views(args@),
            safe == (mode == PowershellCommandSequenceParseMode::SafeCommand),
            script_from(v, 0, mode) == script_from(v, idx as int, mode),
        decreases args.len() - idx,
    {
        assert(v[idx as int] == args@[idx as int]@);
        let arg = text::chars_of(args[idx].as_str());
        let lower = text::to_ascii_lower(arg.as_slice());
        let l = lower.as_slice();
        if text::eq_str(l, "-command") || text::eq_str(l, "/command") || text::eq_str(l, "-c") {
            if args.len() - idx != 2 {
                return None;
            }
            assert(v[idx + 1] == args@[idx + 1]@);
            return Some(args[idx + 1].clone());
        }
        if text::starts_with(l, "-command:") || text::starts_with(l, "/command:") {
            if args.len() - idx != 1 {
                return None;
            }
            let n = arg.len();
            let colon = text::index_from(arg.as_slice(), ':', 0);
            proof {
                assert(arg@.skip(0) =~= arg@);
                lemma_inline_command_has_colon(arg@);
            }
            let script = text::string_of_range(arg.as_slice(), colon + 1, n);
            assert(script@ =~= arg@.skip(colon + 1));
            return Some(script);
        }
        if is_powershell_no_arg_parse_flag(l) {
            idx = idx + 1;
        } else if is_powershell_value_parse_flag(l) {
            if safe || args.len() - idx < 2 {
                return None;
            }
            idx = idx + 2;
        } else if is_powershell_value_parse_flag_with_inline_value(l) {
            if safe {
                return None;
            }
            idx = idx + 1;
        } else if is_unsupported_powershell_parse_flag(l)
            || has_unsupported_powershell_parse_flag_inline_value(l) {
            return None;
        } else if looks_like_powershell_flag(l) {
            if safe {
                return None;
            }
            idx = idx + powershell_wrapper_flag_length(args, idx);
        } else {
            if !safe {
                return None;
            }
            let rest = vstd::slice::slice_subrange(args, idx, args.len());
            assert(text::string_views(rest@) =~= v.skip(idx as int));
            return Some(join_arguments_as_script(rest));
        }
    }
    None
}

/// An argument that begins with `-command:` or `/command:` in any case holds a colon.
proof fn lemma_inline_command_has_colon(arg: Seq<char>)
    requires
        inline_command_flag(text::ascii_lower(arg)),
    ensures
        text::first_index(arg, ':') < arg.len(),
{
    reveal_strlit("-command:");
    reveal_strlit("/command:");
    let lower = text::ascii_lower(arg);
    assert(lower[8] == lower.subrange(0, 9)[8]);
    assert(lower[8] == ':');
    assert(arg[8] == ':') by {
        if 'A' <= arg[8] <= 'Z' {
            assert(text::ascii_lower_char(arg[8]) != ':');
        }
    }
    text::lemma_first_index(arg, ':');
}

/// The script that a PowerShell command runs, with the executable that can parse it.
/// Opaque forms, and a command that is no PowerShell invocation, give nothing.
pub fn try_parse_powershell_command_sequence(
    command: &[String],
    mode: PowershellCommandSequenceParseMode,
) -> (r: Option<PowershellScript>)
    ensures
        match r {
            Some(s) => command@.len() > 0 && powershell_executable(command@[0]@) && s.executable@
                == command@[0]@ && Some(s.script@) == script_from(
                text::string_views(command@.skip(1)),
                0,
                mode,
            ),
            None => command@.len() == 0 || !powershell_executable(command@[0]@) || script_from(
                text::string_views(command@.skip(1)),
                0,
                mode,
            ) is None,
        },
{
    if command.len() == 0 {
        return None;
    }
    if !is_powershell_executable(command[0].as_str()) {
        return None;
    }
    let args = vstd::slice::slice_subrange(command, 1, command.len());
    assert(args@ =~= command@.skip(1));
    match parse_powershell_invocation(args, mode) {
        Some(script) => Some(PowershellScript { executable: command[0].clone(), script }),
        None => None,
    }
}

/// A flag that runs an opaque script is none of the flags that are tested before it,
/// and a flag without a value is no script flag.
proof fn lemma_flags_are_apart(lower: Seq<char>)
    ensures
        opaque_flag(lower) ==> !command_flag(lower) && !inline_command_flag(lower) && !no_arg_flag(
            lower,
        ) && !value_flag(lower) && !(inline_flag(lower) matches Some(f) && value_flag(f)),
        no_arg_flag(lower) ==> !command_flag(lower) && !inline_command_flag(lower),
{
    reveal_strlit("-command");
    reveal_strlit("/command");
    reveal_strlit("-c");
    reveal_strlit("-command:");
    reveal_strlit("/command:");
    reveal_strlit("-nologo");
    reveal_strlit("-noprofile");
    reveal_strlit("-noninteractive");
    reveal_strlit("-mta");
    reveal_strlit("-sta");
    reveal_strlit("-windowstyle");
    reveal_strlit("-executionpolicy");
    reveal_strlit("-workingdirectory");
    reveal_strlit("/windowstyle");
    reveal_strlit("/executionpolicy");
    reveal_strlit("/workingdirectory");
    reveal_strlit("-encodedcommand");
    reveal_strlit("-ec");
    reveal_strlit("-file");
    reveal_strlit("/file");
    if inline_command_flag(lower) {
        let head = lower.subrange(0, 9);
        assert(head[1] == lower[1]);
        assert(head[0] == lower[0]);
        assert(head[8] == lower[8]);
    }
    if lower.contains(':') {
        text::lemma_first_index(lower, ':');
        let f = lower.take(text::first_index(lower, ':'));
        assert(f.len() > 1 ==> f[1] == lower[1]);
        assert(f.len() > 2 ==> f[2] == lower[2]);
    }
}

/// An encoded command or a script file is never read, whatever flags without a value
/// stand before it and whatever follows it.
pub proof fn opaque_invocations_are_rejected(
    args: Seq<Seq<char>>,
    idx: int,
    k: int,
    mode: PowershellCommandSequenceParseMode,
)
    requires
        0 <= idx <= k < args.len(),
        forall|i: int| idx <= i < k ==> no_arg_flag(text::ascii_lower(#[trigger] args[i])),
        opaque_flag(text::ascii_lower(args[k])),
    ensures
        script_from(args, idx, mode) is None,
    decreases k - idx,
{
    lemma_flags_are_apart(text::ascii_lower(args[idx]));
    if idx < k {
        assert(no_arg_flag(text::ascii_lower(args[idx])));
        opaque_invocations_are_rejected(args, idx + 1, k, mode);
    }
}

// ---- where PowerShell is ----

/// What is run to learn where PowerShell is installed.
pub const HOME_QUERY: [&'static str; 6] = ["cmd", "/C", "pwsh", "-NoProfile", "-Command", "$PSHOME"];

/// The directory that PowerShell printed as its own, where it ran well and printed one.
pub fn powershell_home(ran_well: bool, stdout: &[u8]) -> (r: Option<String>)
    ensures
        text::option_view(r) == if ran_well && text::trim(text::lossy_utf8(stdout@)).len() > 0 {
            Some(text::trim(text::lossy_utf8(stdout@)))
        } else {
            None
        },
{
    if !ran_well {
        return None;
    }
    let printed = text::lossy_text(stdout);
    let home = text::trim_str(printed.as_str());
    if text::chars_of(home.as_str()).len() == 0 {
        None
    } else {
        Some(home)
    }
}

/// A place where PowerShell may be.
#[derive(Debug)]
pub struct ExecutableCandidate {
    /// Where it is, if it was found at all.
    pub path: Option<String>,
    /// Whether it could be run.
    pub runs: bool,
}

/// Whether PowerShell can be used from a place.
pub open spec fn is_usable(candidate: ExecutableCandidate) -> bool {
    candidate.path is Some && candidate.runs
}

/// The first usable place from `i` on, or their number.
pub open spec fn usable_from(candidates: Seq<ExecutableCandidate>, i: int) -> int
    decreases candidates.len() - i,
{
    if i < 0 || i >= candidates.len() {
        candidates.len() as int
    } else if is_usable(candidates[i]) {
        i
    } else {
        usable_from(candidates, i + 1)
    }
}

/// The first place from which PowerShell can be used.
pub fn first_usable_executable(candidates: &[ExecutableCandidate]) -> (r: Option<String>)
    ensures
        text::option_view(r) == ({
            let i = usable_from(candidates@, 0);
            if i < candidates@.len() {
                text::option_view(candidates@[i].path)
            } else {
                None
            }
        }),
{
    let mut i: usize = 0;
    while i < candidates.len()
        invariant
            i <= candidates.len(),
            usable_from(candidates@, 0) == usable_from(candidates@, i as int),
        decreases candidates.len() - i,
    {
        if candidates[i].runs {
            if let Some(path) = &candidates[i].path {
                return Some(path.clone());
            }
        }
        i = i + 1;
    }
    None
}

// ---- where scripts stand ----

proof fn lemma_script_index(command: Seq<Seq<char>>, i: int)
    requires
        1 <= i,
    ensures
        match script_index(command, i) {
            Some(p) => i < p < command.len() && is_script_flag(text::ascii_lower(command[p - 1]))
                && forall|k: int|
                i <= k < p - 1 ==> {
                    let lower = text::ascii_lower(#[trigger] command[k]);
                    lower == "-nologo"@ || lower == "-noprofile"@
                },
            None => true,
        },
    decreases command.len() - i,
{
    if i + 1 < command.len() && is_wrapper_flag(text::ascii_lower(command[i])) && !is_script_flag(
        text::ascii_lower(command[i]),
    ) {
        lemma_script_index(command, i + 1);
    }
}

/// A script is found where a flag for it says so: right behind the flag, with nothing but flags that
/// do not matter between it and the shell. The shell has to be PowerShell.
pub proof fn scripts_stand_behind_their_flag(command: Seq<Seq<char>>)
    ensures
        script_position(command) matches Some(p) ==> {
            let flag = text::ascii_lower(command[p - 1]);
            &&& 2 <= p < command.len()
            &&& names_powershell(command[0])
            &&& flag == "-command"@ || flag == "-c"@
            &&& forall|k: int|
                1 <= k < p - 1 ==> {
                    let lower = text::ascii_lower(#[trigger] command[k]);
                    lower == "-nologo"@ || lower == "-noprofile"@
                }
        },
        !names_powershell(command[0]) ==> script_position(command) is None,
{
    lemma_script_index(command, 1);
}

proof fn lemma_script_found(command: Seq<Seq<char>>, i: int, k: int)
    requires
        1 <= i <= k,
        k + 1 < command.len(),
        forall|j: int|
            i <= j < k ==> {
                let lower = text::ascii_lower(#[trigger] command[j]);
                lower == "-nologo"@ || lower == "-noprofile"@
            },
        is_script_flag(text::ascii_lower(command[k])),
    ensures
        script_index(command, i) == Some(k + 1),
    decreases k - i,
{
    reveal_strlit("-nologo");
    reveal_strlit("-noprofile");
    reveal_strlit("-command");
    reveal_strlit("-c");
    if i < k {
        let lower = text::ascii_lower(command[i]);
        assert(lower.len() == 7 || lower.len() == 10);
        assert("-command"@.len() == 8 && "-c"@.len() == 2);
        lemma_script_found(command, i + 1, k);
    }
}

/// Wherever a flag for a script stands behind nothing but such flags, the script is what follows
/// it.
pub proof fn flagged_scripts_are_found(command: Seq<Seq<char>>, k: int)
    requires
        names_powershell(command[0]),
        1 <= k,
        k + 1 < command.len(),
        forall|j: int|
            1 <= j < k ==> {
                let lower = text::ascii_lower(#[trigger] command[j]);
                lower == "-nologo"@ || lower == "-noprofile"@
            },
        text::ascii_lower(command[k]) == "-command"@ || text::ascii_lower(command[k]) == "-c"@,
    ensures
        script_position(command) == Some(k + 1),
{
    lemma_script_found(command, 1, k);
}

/// PowerShell is known under both its names, wherever it lies.
pub proof fn powershell_is_known_by_name(directory: Seq<char>)
    ensures
        names_powershell("pwsh"@),
        names_powershell("powershell"@),
        names_powershell(paths::joined(directory, "pwsh"@)),
        names_powershell(paths::joined(directory, "powershell"@)),
{
    reveal_strlit("pwsh");
    reveal_strlit("powershell");
    lemma_known_in(directory, "pwsh"@);
    lemma_known_in(directory, "powershell"@);
}

proof fn lemma_known_in(directory: Seq<char>, name: Seq<char>)
    requires
        name == "pwsh"@ || name == "powershell"@,
    ensures
        names_powershell(paths::joined(directory, name)),
{
    reveal_strlit("pwsh");
    reveal_strlit("powershell");
    let path = paths::joined(directory, name);
    assert(!name.contains('/') && name != seq!['.'] && name != seq!['.', '.']);
    paths::joined_name_is_file_name(directory, name);
    paths::lemma_last_index(name, '.');
    assert(!name.contains('.'));
    if paths::last_index(name, '.') >= 0 {
        assert(name.contains(name[paths::last_index(name, '.')]));
    }
    assert(paths::stem(name) == name);
    assert(names_powershell(name));
    if path.len() <= name.len() {
        assert(directory.len() == 0);
        assert(path =~= name);
    }
}

/// To give a script the prefix changes nothing of the rest of the command: the words before the last
/// stay, and the script stands behind the prefix or already had it.
pub proof fn only_the_script_is_prefixed(command: Seq<Seq<char>>)
    ensures
        ({
            let after = utf8_command(command);
            &&& after.len() == command.len()
            &&& script_position(command) is None ==> after == command
            &&& forall|i: int| 0 <= i < command.len() - 1 ==> #[trigger] after[i] == command[i]
            &&& script_position(command) matches Some(p) ==> after.last() == command[p]
                || after.last() == UTF8_OUTPUT_PREFIX@ + command[p]
            &&& script_position(command) matches Some(p) ==> text::has_prefix(
                text::trim_start(after.last()),
                UTF8_OUTPUT_PREFIX@,
            ) || after.last() == UTF8_OUTPUT_PREFIX@ + command[p]
        }),
{
    lemma_script_index(command, 1);
}

/// The flags that take nothing do not change which script is run.
pub proof fn plain_flags_change_nothing(
    args: Seq<Seq<char>>,
    idx: int,
    k: int,
    mode: PowershellCommandSequenceParseMode,
)
    requires
        0 <= idx <= k <= args.len(),
        forall|j: int| idx <= j < k ==> no_arg_flag(text::ascii_lower(#[trigger] args[j])),
    ensures
        script_from(args, idx, mode) == script_from(args, k, mode),
    decreases k - idx,
{
    if idx < k {
        lemma_no_arg_flags(text::ascii_lower(args[idx]));
        plain_flags_change_nothing(args, idx + 1, k, mode);
    }
}

proof fn lemma_no_arg_flags(lower: Seq<char>)
    requires
        no_arg_flag(lower),
    ensures
        !command_flag(lower),
        !inline_command_flag(lower),
{
    reveal_strlit("-nologo");
    reveal_strlit("-noprofile");
    reveal_strlit("-noninteractive");
    reveal_strlit("-mta");
    reveal_strlit("-sta");
    reveal_strlit("-command");
    reveal_strlit("/command");
    reveal_strlit("-c");
    reveal_strlit("-command:");
    reveal_strlit("/command:");
    assert(lower[1] != 'c');
    if text::has_prefix(lower, "-command:"@) {
        assert(lower.subrange(0, 9)[1] == 'c');
    }
    if text::has_prefix(lower, "/command:"@) {
        assert(lower.subrange(0, 9)[1] == 'c');
    }
}

/// The flag for a command runs the one word behind it, as it is written, in both modes; with no word
/// or with more nothing is run.
pub proof fn commands_run_as_written(
    args: Seq<Seq<char>>,
    idx: int,
    mode: PowershellCommandSequenceParseMode,
)
    requires
        0 <= idx < args.len(),
        ({
            let lower = text::ascii_lower(args[idx]);
            lower == "-command"@ || lower == "/command"@ || lower == "-c"@
        }),
    ensures
        idx + 2 == args.len() ==> script_from(args, idx, mode) == Some(args[idx + 1]),
        idx + 2 != args.len() ==> script_from(args, idx, mode) is None,
{
}

/// What is run safely is told by flags that take nothing alone: nothing else stands before the
/// command.
pub proof fn safe_commands_follow_plain_flags(args: Seq<Seq<char>>, idx: int)
    requires
        0 <= idx,
        script_from(args, idx, PowershellCommandSequenceParseMode::SafeCommand) is Some,
    ensures
        exists|k: int|
            idx <= k < args.len() && (forall|j: int|
                idx <= j < k ==> no_arg_flag(text::ascii_lower(#[trigger] args[j])))
                && !no_arg_flag(text::ascii_lower(#[trigger] args[k])) && script_from(
                args,
                idx,
                PowershellCommandSequenceParseMode::SafeCommand,
            ) == script_from(args, k, PowershellCommandSequenceParseMode::SafeCommand) && (
            command_flag(text::ascii_lower(args[k])) || inline_command_flag(
                text::ascii_lower(args[k]),
            ) || !flag_like(text::ascii_lower(args[k]))),
    decreases args.len() - idx,
{
    let mode = PowershellCommandSequenceParseMode::SafeCommand;
    let lower = text::ascii_lower(args[idx]);
    if no_arg_flag(lower) {
        lemma_no_arg_flags(lower);
        safe_commands_follow_plain_flags(args, idx + 1);
        let k = choose|k: int|
            idx + 1 <= k < args.len() && (forall|j: int|
                idx + 1 <= j < k ==> no_arg_flag(text::ascii_lower(#[trigger] args[j])))
                && !no_arg_flag(text::ascii_lower(#[trigger] args[k])) && script_from(
                args,
                idx + 1,
                mode,
            ) == script_from(args, k, mode) && (command_flag(text::ascii_lower(args[k]))
                || inline_command_flag(text::ascii_lower(args[k])) || !flag_like(
                text::ascii_lower(args[k]),
            ));
        assert(!no_arg_flag(text::ascii_lower(args[k])));
    } else {
        assert(!no_arg_flag(text::ascii_lower(args[idx])));
    }
}

/// An argument that is quoted keeps what it says: one without white space stays as it is, an empty
/// one becomes two quotes, and any other stands between quotes, whole where it has none of its own.
pub proof fn quoting_keeps_the_argument(arg: Seq<char>)
    ensures
        ({
            let q = quoted(arg);
            let plain = forall|i: int| 0 <= i < arg.len() ==> !text::is_white_space(#[trigger] arg[i]);
            &&& q.len() > 0
            &&& arg.len() > 0 && plain ==> q == arg
            &&& arg.len() > 0 && !plain ==> q[0] == '\'' && q.last() == '\'' && (!arg.contains(
                '\'',
            ) ==> q == seq!['\''] + arg + seq!['\''])
            &&& arg.len() == 0 ==> q == seq!['\'', '\'']
        }),
{
    reveal_strlit("''");
    assert("''"@ =~= seq!['\'', '\'']);
    if !arg.contains('\'') {
        let quote = seq!['\''];
        text::replacing_takes_each_place(arg, quote, "''"@, 0);
        if text::has_sub(arg, quote) {
            let i = choose|i: int| text::stands_at(arg, quote, i);
            assert(arg.subrange(i, i + 1)[0] == '\'');
            assert(arg.contains(arg[i]));
        }
    }
}

/// The words of a script are its arguments, each quoted but the first.
pub proof fn scripts_hold_every_argument(args: Seq<Seq<char>>, i: int)
    requires
        0 <= i < args.len(),
    ensures
        script_words(args).len() == args.len(),
        script_words(args)[0] == args[0],
        i > 0 ==> script_words(args)[i] == quoted(args[i]),
{
}

proof fn lemma_usable(candidates: Seq<ExecutableCandidate>, i: int)
    requires
        0 <= i <= candidates.len(),
    ensures
        ({
            let k = usable_from(candidates, i);
            &&& i <= k <= candidates.len()
            &&& k < candidates.len() ==> candidates[k].path is Some && candidates[k].runs
            &&& forall|j: int|
                i <= j < k ==> (#[trigger] candidates[j]).path is None || !candidates[j].runs
        }),
    decreases candidates.len() - i,
{
    if i < candidates.len() && !is_usable(candidates[i]) {
        lemma_usable(candidates, i + 1);
    }
}

/// The program that is used is the first that was found and can be run.
pub proof fn the_first_usable_program_is_used(candidates: Seq<ExecutableCandidate>)
    ensures
        ({
            let k = usable_from(candidates, 0);
            &&& 0 <= k <= candidates.len()
            &&& k < candidates.len() ==> candidates[k].path is Some && candidates[k].runs
            &&& forall|j: int|
                0 <= j < k ==> (#[trigger] candidates[j]).path is None || !candidates[j].runs
        }),
{
    lemma_usable(candidates, 0);
}

/// A program is PowerShell by its name, in any case, with or without its ending and wherever it
/// lies.
pub proof fn powershell_programs_are_known_by_name(directory: Seq<char>, name: Seq<char>)
    requires
        name.len() > 0,
        !name.contains('/'),
        name != seq!['.'],
        name != seq!['.', '.'],
    ensures
        powershell_executable(paths::joined(directory, name)) <==> {
            let lower = text::ascii_lower(name);
            lower == "powershell"@ || lower == "powershell.exe"@ || lower == "pwsh"@ || lower
                == "pwsh.exe"@
        },
{
    paths::joined_name_is_file_name(directory, name);
}

/// A flag that has its value inside is the text before its first colon.
pub proof fn inline_flags_end_at_their_colon(name: Seq<char>, value: Seq<char>)
    requires
        !name.contains(':'),
    ensures
        inline_flag(name) is None,
        inline_flag(name + seq![':'] + value) == Some(name),
{
    let whole = name + seq![':'] + value;
    assert(whole[name.len() as int] == ':');
    assert forall|j: int| 0 <= j < name.len() implies whole[j] != ':' by {
        assert(whole[j] == name[j]);
        assert(name.contains(name[j]));
    }
    text::lemma_first_index_is(whole, ':', name.len() as int);
    assert(whole.take(name.len() as int) =~= name);
}

/// What has a value is passed over with it where any invocation is read, and is not safe.
pub proof fn flags_with_values_are_not_safe(args: Seq<Seq<char>>, idx: int)
    requires
        0 <= idx,
        idx + 1 < args.len(),
        value_flag(text::ascii_lower(args[idx])),
        !command_flag(text::ascii_lower(args[idx])),
        !inline_command_flag(text::ascii_lower(args[idx])),
        !no_arg_flag(text::ascii_lower(args[idx])),
    ensures
        script_from(args, idx, PowershellCommandSequenceParseMode::SafeCommand) is None,
        script_from(args, idx, PowershellCommandSequenceParseMode::ExecPolicy) == script_from(
            args,
            idx + 2,
            PowershellCommandSequenceParseMode::ExecPolicy,
        ),
{
}

/// Words that are no flags are a script only where the command is to be safe: all of them from there
/// on, as one.
pub proof fn bare_words_are_a_safe_script(args: Seq<Seq<char>>, idx: int)
    requires
        0 <= idx < args.len(),
        ({
            let lower = text::ascii_lower(args[idx]);
            !flag_like(lower) && !command_flag(lower) && !inline_command_flag(lower) && !no_arg_flag(
                lower,
            ) && !value_flag(lower) && !opaque_argument(lower) && inline_flag(lower) is None
        }),
    ensures
        script_from(args, idx, PowershellCommandSequenceParseMode::SafeCommand) == Some(
            text::join(script_words(args.skip(idx)), " "@),
        ),
        script_from(args, idx, PowershellCommandSequenceParseMode::ExecPolicy) is None,
{
}

} // verus!
