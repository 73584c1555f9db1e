//! Which paths a shell command would write, as far as workspace metadata is concerned.

use vstd::prelude::*;

use crate::paths;
use crate::text;

verus! {

/// A path that a command would write, and the directory that it is relative to.
#[derive(Debug)]
pub struct WriteTarget {
    pub path: String,
    pub cwd: String,
}

/// The view of a write target: its path and its directory.
pub open spec fn target_view(t: WriteTarget) -> (Seq<char>, Seq<char>) {
    (t.path@, t.cwd@)
}

/// The views of write targets.
pub open spec fn target_views(t: Seq<WriteTarget>) -> Seq<(Seq<char>, Seq<char>)> {
    t.map_values(|x: WriteTarget| target_view(x))
}

/// Whether an argument is an option.
pub open spec fn is_option(arg: Seq<char>) -> bool {
    text::has_prefix(arg, "-"@)
}

/// The programs whose operands are written.
pub open spec fn writes_operands(program: Seq<char>) -> bool {
    program == "touch"@ || program == "mkdir"@ || program == "rm"@ || program == "rmdir"@
        || program == "ln"@ || program == "mv"@ || program == "cp"@ || program == "install"@
}

/// The program that a command runs, without its directory.
pub open spec fn program_of(command: Seq<Seq<char>>) -> Seq<char> {
    match paths::file_name(command[0]) {
        Some(name) => name,
        None => command[0],
    }
}

/// The operands among the arguments up to `n`, each relative to `cwd`.
pub open spec fn operands(command: Seq<Seq<char>>, cwd: Seq<char>, n: int) -> Seq<
    (Seq<char>, Seq<char>),
>
    decreases n,
{
    if n <= 1 {
        Seq::empty()
    } else if is_option(command[n - 1]) {
        operands(command, cwd, n - 1)
    } else {
        operands(command, cwd, n - 1).push((command[n - 1], cwd))
    }
}

/// Where git looks for its subcommand, reading options from `index` on in directory
/// `cwd`: the position and the directory that `-C` options lead to. Nothing where a
/// `-C` has no directory.
pub open spec fn git_start(command: Seq<Seq<char>>, index: int, cwd: Seq<char>) -> Option<
    (int, Seq<char>),
>
    decreases command.len() - index,
{
    if index < 0 || index >= command.len() {
        Some((index, cwd))
    } else if command[index] == "-C"@ {
        if index + 1 >= command.len() {
            None
        } else {
            git_start(command, index + 2, paths::joined(cwd, command[index + 1]))
        }
    } else if command[index] == "--"@ {
        Some((index + 1, cwd))
    } else if is_option(command[index]) {
        git_start(command, index + 1, cwd)
    } else {
        Some((index, cwd))
    }
}

/// The first argument from `i` on that is no option.
pub open spec fn first_operand(command: Seq<Seq<char>>, i: int) -> Option<Seq<char>>
    decreases command.len() - i,
{
    if i < 0 || i >= command.len() {
        None
    } else if is_option(command[i]) {
        first_operand(command, i + 1)
    } else {
        Some(command[i])
    }
}

/// The directory that `git init` creates its metadata in.
pub open spec fn init_directory(command: Seq<Seq<char>>, start: int, cwd: Seq<char>) -> Seq<char> {
    match first_operand(command, start + 1) {
        Some(operand) => paths::joined(cwd, operand),
        None => cwd,
    }
}

/// What `git init` writes; other git commands write nothing of interest.
pub open spec fn git_targets(command: Seq<Seq<char>>, cwd: Seq<char>) -> Seq<
    (Seq<char>, Seq<char>),
> {
    match git_start(command, 1, cwd) {
        Some((start, git_cwd)) => if 0 <= start < command.len() && command[start] == "init"@ {
            seq![(paths::joined(init_directory(command, start, git_cwd), ".git"@), git_cwd)]
        } else {
            Seq::empty()
        },
        None => Seq::empty(),
    }
}

/// What a simple command writes.
pub open spec fn command_targets(command: Seq<Seq<char>>, cwd: Seq<char>) -> Seq<
    (Seq<char>, Seq<char>),
> {
    if command.len() == 0 {
        Seq::empty()
    } else if program_of(command) == "git"@ {
        git_targets(command, cwd)
    } else if writes_operands(program_of(command)) {
        operands(command, cwd, command.len() as int)
    } else {
        Seq::empty()
    }
}

/// The views of simple commands.
pub open spec fn command_views(commands: Seq<Vec<String>>) -> Seq<Seq<Seq<char>>> {
    commands.map_values(|c: Vec<String>| text::string_views(c@))
}

/// What the first `n` commands write, in order.
pub open spec fn all_command_targets(
    commands: Seq<Seq<Seq<char>>>,
    cwd: Seq<char>,
    n: int,
) -> Seq<(Seq<char>, Seq<char>)>
    decreases n,
{
    if n <= 0 {
        Seq::empty()
    } else {
        all_command_targets(commands, cwd, n - 1) + command_targets(commands[n - 1], cwd)
    }
}

/// The redirection targets, each relative to `cwd`.
pub open spec fn redirection_targets(targets: Seq<Seq<char>>, cwd: Seq<char>) -> Seq<
    (Seq<char>, Seq<char>),
> {
    targets.map_values(|t: Seq<char>| (t, cwd))
}

/// A path operand as seen from `cwd`.
pub fn resolve_shell_operand(path: &str, cwd: &str) -> (r: String)
    ensures
        r@ == paths::joined(cwd@, path@),
{
    paths::join_path(cwd, path)
}

fn is_option_text(arg: &str) -> (r: bool)
    ensures
        r == is_option(arg@),
{
    let c = text::chars_of(arg);
    text::starts_with(c.as_slice(), "-")
}

fn git_init_preserved_path_write(command: &[String], cwd: &str) -> (r: Option<WriteTarget>)
    ensures
        match r {
            Some(t) => git_targets(text::string_views(command@), cwd@) == seq![target_view(t)],
            None => git_targets(text::string_views(command@), cwd@) == Seq::<
                (Seq<char>, Seq<char>),
            >::empty(),
        },
{
    let ghost v = text::string_views(command@);
    let mut git_cwd = cwd.to_owned();
    let mut index: usize = 1;
    let mut reading = true;
    while reading && index < command.len()
        invariant
            v == text::string_views(command@),
            reading ==> git_start(v, 1, cwd@) == git_start(v, index as int, git_cwd@),
            !reading ==> git_start(v, 1, cwd@) == Some((index as int, git_cwd@)) && index
                <= command.len(),
        decreases command.len() - index, (if reading { 1int } else { 0int }),
    {
        assert(v[index as int] == command@[index as int]@);
        let arg = command[index].as_str();
        if text::same_str(arg, "-C") {
            if command.len() - index < 2 {
                return None;
            }
            assert(v[index + 1] == command@[index + 1]@);
            git_cwd = resolve_shell_operand(command[index + 1].as_str(), git_cwd.as_str());
            index = index + 2;
        } else if text::same_str(arg, "--") {
            index = index + 1;
            reading = false;
        } else if is_option_text(arg) {
            index = index + 1;
        } else {
            reading = false;
        }
    }
    assert(git_start(v, 1, cwd@) == Some((index as int, git_cwd@)));
    if index >= command.len() {
        return None;
    }
    assert(v[index as int] == command@[index as int]@);
    if !text::same_str(command[index].as_str(), "init") {
        return None;
    }
    let ghost start = index as int;
    let mut i: usize = index + 1;
    while i < command.len() && is_option_text(command[i].as_str())
        invariant
            start + 1 <= i <= command.len(),
            v == text::string_views(command@),
            first_operand(v, start + 1) == first_operand(v, i as int),
        decreases command.len() - i,
    {
        assert(v[i as int] == command@[i as int]@);
        i = i + 1;
    }
    let directory = if i < command.len() {
        assert(v[i as int] == command@[i as int]@);
        resolve_shell_operand(command[i].as_str(), git_cwd.as_str())
    } else {
        git_cwd.clone()
    };
    assert(directory@ == init_directory(v, start, git_cwd@));
    let path = paths::join_path(directory.as_str(), ".git");
    Some(WriteTarget { path, cwd: git_cwd })
}

fn simple_command_preserved_path_write(command: &[String], cwd: &str) -> (r: Vec<WriteTarget>)
    ensures
        target_views(r@) == command_targets(text::string_views(command@), cwd@),
{
    let ghost v = text::string_views(command@);
    let mut r: Vec<WriteTarget> = Vec::new();
    assert(target_views(r@) =~= Seq::<(Seq<char>, Seq<char>)>::empty());
    if command.len() == 0 {
        return r;
    }
    assert(v[0] == command@[0]@);
    let first = text::chars_of(command[0].as_str());
    let program = match paths::file_name_of(first.as_slice()) {
        Some(name) => name,
        None => first,
    };
    let p = program.as_slice();
    if text::eq_str(p, "git") {
        match git_init_preserved_path_write(command, cwd) {
            Some(t) => {
                r.push(t);
                assert(target_views(r@) =~= seq![target_view(t)]);
            },
            None => {},
        }
        return r;
    }
    if text::eq_str(p, "touch") || text::eq_str(p, "mkdir") || text::eq_str(p, "rm")
        || text::eq_str(p, "rmdir") || text::eq_str(p, "ln") || text::eq_str(p, "mv")
        || text::eq_str(p, "cp") || text::eq_str(p, "install") {
        let mut i: usize = 1;
        while i < command.len()
            invariant
                1 <= i <= command.len(),
                v == text::string_views(command@),
                target_views(r@) == operands(v, cwd@, i as int),
            decreases command.len() - i,
        {
            assert(v[i as int] == command@[i as int]@);
            if !is_option_text(command[i].as_str()) {
                let ghost before = r@;
                r.push(WriteTarget { path: command[i].clone(), cwd: cwd.to_owned() });
                assert(target_views(r@) =~= target_views(before).push((v[i as int], cwd@)));
            }
            i = i + 1;
        }
    }
    r
}

/// The paths that simple commands and their redirections would write, in the order in
/// which they are to be asked about.
pub fn preserved_path_write_targets(
    commands: &[Vec<String>],
    redirections: &[String],
    cwd: &str,
) -> (r: Vec<WriteTarget>)
    ensures
        target_views(r@) == all_command_targets(
            command_views(commands@),
            cwd@,
            commands@.len() as int,
        ) + redirection_targets(text::string_views(redirections@), cwd@),
{
    let ghost v = command_views(commands@);
    let mut r: Vec<WriteTarget> = Vec::new();
    let mut i: usize = 0;
    assert(target_views(r@) =~= all_command_targets(v, cwd@, 0));
    while i < commands.len()
        invariant
            i <= commands.len(),
            v == command_views(commands@),
            target_views(r@) == all_command_targets(v, cwd@, i as int),
        decreases commands.len() - i,
    {
        assert(v[i as int] == text::string_views(commands@[i as int]@));
        let mut found = simple_command_preserved_path_write(commands[i].as_slice(), cwd);
        let ghost before = r@;
        let ghost more = found@;
        r.append(&mut found);
        assert(target_views(r@) =~= target_views(before) + target_views(more));
        i = i + 1;
    }
    let ghost written = target_views(r@);
    let mut i: usize = 0;
    let ghost all = redirection_targets(text::string_views(redirections@), cwd@);
    assert(written + all.take(0) =~= written);
    while i < redirections.len()
        invariant
            i <= redirections.len(),
            all == redirection_targets(text::string_views(redirections@), cwd@),
            target_views(r@) == written + all.take(i as int),
        decreases redirections.len() - i,
    {
        let ghost before = r@;
        r.push(WriteTarget { path: redirections[i].clone(), cwd: cwd.to_owned() });
        proof {
            assert(target_views(r@) =~= target_views(before).push(all[i as int]));
            assert(written + all.take(i + 1) =~= (written + all.take(i as int)).push(
                all[i as int],
            ));
        }
        i = i + 1;
    }
    assert(all.take(i as int) =~= all);
    r
}

/// The simple commands that a command runs: those of a shell script of plain commands, else the
/// beginnings of the commands of a script, else the command itself.
pub open spec fn simple_commands_view(
    command: Seq<String>,
    plain: Option<Vec<Vec<String>>>,
    prefixes: Option<Vec<Vec<String>>>,
) -> Seq<Seq<Seq<char>>> {
    match (plain, prefixes) {
        (Some(commands), _) => command_views(commands@),
        (None, Some(commands)) => command_views(commands@),
        (None, None) => seq![text::string_views(command)],
    }
}

/// The simple commands that a command runs. `plain` holds the commands of a shell script that
/// consists of plain commands, `prefixes` the words that the commands of a script begin with.
pub fn simple_commands(
    command: &[String],
    plain: Option<Vec<Vec<String>>>,
    prefixes: Option<Vec<Vec<String>>>,
) -> (r: Vec<Vec<String>>)
    ensures
        command_views(r@) == simple_commands_view(command@, plain, prefixes),
{
    match plain {
        Some(commands) => commands,
        None => match prefixes {
            Some(commands) => commands,
            None => {
                let mut words: Vec<String> = Vec::new();
                let mut i: usize = 0;
                assert(text::string_views(words@) =~= text::string_views(command@).take(0));
                while i < command.len()
                    invariant
                        i <= command.len(),
                        text::string_views(words@) == text::string_views(command@).take(i as int),
                    decreases command.len() - i,
                {
                    let ghost before = text::string_views(words@);
                    words.push(command[i].clone());
                    assert(text::string_views(words@) =~= before.push(command@[i as int]@));
                    i = i + 1;
                    assert(text::string_views(words@) =~= text::string_views(command@).take(
                        i as int,
                    ));
                }
                assert(text::string_views(command@).take(i as int) =~= text::string_views(command@));
                let mut r: Vec<Vec<String>> = Vec::new();
                r.push(words);
                assert(command_views(r@) =~= seq![text::string_views(command@)]);
                r
            },
        },
    }
}

/// The paths that a command would write, in the order in which they are to be asked about: those
/// of its simple commands, then those of its redirections where they can be told.
pub fn command_write_targets(
    command: &[String],
    plain: Option<Vec<Vec<String>>>,
    prefixes: Option<Vec<Vec<String>>>,
    redirections: Option<Vec<String>>,
    cwd: &str,
) -> (r: Vec<WriteTarget>)
    ensures
        ({
            let commands = simple_commands_view(command@, plain, prefixes);
            target_views(r@) == all_command_targets(commands, cwd@, commands.len() as int) + (
            match redirections {
                Some(targets) => redirection_targets(text::string_views(targets@), cwd@),
                None => Seq::empty(),
            })
        }),
{
    let commands = simple_commands(command, plain, prefixes);
    assert(command_views(commands@).len() == commands@.len());
    match redirections {
        Some(targets) => preserved_path_write_targets(commands.as_slice(), targets.as_slice(), cwd),
        None => {
            let none: Vec<String> = Vec::new();
            assert(redirection_targets(text::string_views(none@), cwd@) =~= Seq::empty());
            preserved_path_write_targets(commands.as_slice(), none.as_slice(), cwd)
        },
    }
}

/// Why a command is refused that writes the metadata path `name`.
pub open spec fn refusal(name: Seq<char>) -> Seq<char> {
    "command targets preserved workspace metadata path `"@ + name + "`"@
}

/// The first name among the answers.
pub open spec fn first_name(answers: Seq<Option<String>>, i: int) -> Option<Seq<char>>
    decreases answers.len() - i,
{
    if i < 0 || i >= answers.len() {
        None
    } else {
        match answers[i] {
            Some(name) => Some(name@),
            None => first_name(answers, i + 1),
        }
    }
}

/// Why a command is refused, from what is forbidden of each of its write targets: the
/// metadata path that the target would write, if any. The first one is named.
pub fn preserved_path_write_forbidden_reason(forbidden: &[Option<String>]) -> (r: Option<String>)
    ensures
        match first_name(forbidden@, 0) {
            Some(name) => r matches Some(reason) && reason@ == refusal(name),
            None => r is None,
        },
{
    let mut i: usize = 0;
    while i < forbidden.len()
        invariant
            i <= forbidden.len(),
            first_name(forbidden@, 0) == first_name(forbidden@, i as int),
        decreases forbidden.len() - i,
    {
        if let Some(name) = &forbidden[i] {
            let mut reason = "command targets preserved workspace metadata path `".to_owned();
            reason.push_str(name.as_str());
            reason.push_str("`");
            return Some(reason);
        }
        i = i + 1;
    }
    None
}

// ---- what is found ----

proof fn lemma_operands(command: Seq<Seq<char>>, cwd: Seq<char>, n: int, i: int, k: int)
    requires
        0 <= n <= command.len(),
    ensures
        1 <= i < n && !is_option(command[i]) ==> operands(command, cwd, n).contains(
            (command[i], cwd),
        ),
        0 <= k < operands(command, cwd, n).len() ==> exists|j: int|
            1 <= j < n && !is_option(#[trigger] command[j]) && operands(command, cwd, n)[k] == (
                command[j],
                cwd,
            ),
    decreases n,
{
    if n > 1 {
        lemma_operands(command, cwd, n - 1, i, k);
        let before = operands(command, cwd, n - 1);
        let after = operands(command, cwd, n);
        if i < n - 1 && before.contains((command[i], cwd)) {
            assert(after[before.index_of((command[i], cwd))] == (command[i], cwd));
        }
        if after.len() > before.len() {
            assert(after[before.len() as int] == (command[n - 1], cwd));
        }
        if 0 <= k < after.len() {
            if k < before.len() {
                assert(after[k] == before[k]);
                let j = choose|j: int|
                    1 <= j < n - 1 && !is_option(#[trigger] command[j]) && before[k] == (
                        command[j],
                        cwd,
                    );
                assert(!is_option(command[j]));
            } else {
                assert(!is_option(command[n - 1]));
            }
        }
    }
}

/// A command that writes its operands writes each of them, in the directory that it runs in, and
/// nothing else; wherever the program lies.
pub proof fn every_operand_is_a_target(
    command: Seq<Seq<char>>,
    cwd: Seq<char>,
    i: int,
    k: int,
)
    requires
        command.len() > 0,
        ({
            let name = program_of(command);
            name == "touch"@ || name == "mkdir"@ || name == "rm"@ || name == "rmdir"@ || name
                == "ln"@ || name == "mv"@ || name == "cp"@ || name == "install"@
        }),
    ensures
        1 <= i < command.len() && !text::has_prefix(command[i], "-"@) ==> command_targets(
            command,
            cwd,
        ).contains((command[i], cwd)),
        0 <= k < command_targets(command, cwd).len() ==> exists|j: int|
            1 <= j < command.len() && !text::has_prefix(#[trigger] command[j], "-"@)
                && command_targets(command, cwd)[k] == (command[j], cwd),
{
    lemma_operands(command, cwd, command.len() as int, i, k);
    reveal_strlit("git");
    reveal_strlit("touch");
    reveal_strlit("mkdir");
    reveal_strlit("rm");
    reveal_strlit("rmdir");
    reveal_strlit("ln");
    reveal_strlit("mv");
    reveal_strlit("cp");
    reveal_strlit("install");
    assert("git"@.len() == 3);
    if 0 <= k < command_targets(command, cwd).len() {
        let j = choose|j: int|
            1 <= j < command.len() && !is_option(#[trigger] command[j]) && operands(
                command,
                cwd,
                command.len() as int,
            )[k] == (command[j], cwd);
        assert(!text::has_prefix(command[j], "-"@));
    }
}

/// Any other program but git writes nothing that matters here.
pub proof fn other_programs_have_no_targets(command: Seq<Seq<char>>, cwd: Seq<char>)
    ensures
        command_targets(Seq::empty(), cwd).len() == 0,
        command.len() > 0 && program_of(command) != "git"@ && !writes_operands(program_of(command))
            ==> command_targets(command, cwd).len() == 0,
{
}

/// A program is known by its name, wherever it lies.
pub proof fn programs_are_known_by_name(directory: Seq<char>, rest: Seq<Seq<char>>, name: Seq<char>)
    requires
        name.len() > 0,
        !name.contains('/'),
        name != seq!['.'],
        name != seq!['.', '.'],
    ensures
        program_of(seq![paths::joined(directory, name)] + rest) == name,
{
    paths::joined_name_is_file_name(directory, name);
}

proof fn lemma_git_shift(
    a: Seq<Seq<char>>,
    i: int,
    b: Seq<Seq<char>>,
    j: int,
    cwd: Seq<char>,
)
    requires
        0 <= i <= a.len(),
        0 <= j <= b.len(),
        a.skip(i) == b.skip(j),
    ensures
        match (git_start(a, i, cwd), git_start(b, j, cwd)) {
            (Some((s, d)), Some((t, e))) => s - i == t - j && d == e && s >= i,
            (None, None) => true,
            _ => false,
        },
    decreases a.len() - i,
{
    assert(a.skip(i).len() == a.len() - i);
    assert(b.skip(j).len() == b.len() - j);
    if i < a.len() {
        assert(a[i] == a.skip(i)[0] && b[j] == b.skip(j)[0]);
        if i + 1 < a.len() {
            assert(a[i + 1] == a.skip(i)[1] && b[j + 1] == b.skip(j)[1]);
        }
        if a[i] == "-C"@ {
            if i + 1 < a.len() {
                assert(a.skip(i + 2) =~= a.skip(i).skip(2));
                assert(b.skip(j + 2) =~= b.skip(j).skip(2));
                lemma_git_shift(a, i + 2, b, j + 2, paths::joined(cwd, a[i + 1]));
            }
        } else if a[i] != "--"@ && is_option(a[i]) {
            assert(a.skip(i + 1) =~= a.skip(i).skip(1));
            assert(b.skip(j + 1) =~= b.skip(j).skip(1));
            lemma_git_shift(a, i + 1, b, j + 1, cwd);
        }
    }
}

proof fn lemma_operand_shift(a: Seq<Seq<char>>, i: int, b: Seq<Seq<char>>, j: int)
    requires
        0 <= i <= a.len(),
        0 <= j <= b.len(),
        a.skip(i) == b.skip(j),
    ensures
        first_operand(a, i) == first_operand(b, j),
    decreases a.len() - i,
{
    assert(a.skip(i).len() == a.len() - i);
    assert(b.skip(j).len() == b.len() - j);
    if i < a.len() {
        assert(a[i] == a.skip(i)[0] && b[j] == b.skip(j)[0]);
        assert(a.skip(i + 1) =~= a.skip(i).skip(1));
        assert(b.skip(j + 1) =~= b.skip(j).skip(1));
        lemma_operand_shift(a, i + 1, b, j + 1);
    }
}

proof fn lemma_same_git_targets(
    a: Seq<Seq<char>>,
    i: int,
    b: Seq<Seq<char>>,
    j: int,
    from: Seq<char>,
    cwd: Seq<char>,
)
    requires
        0 <= i <= a.len(),
        0 <= j <= b.len(),
        a.skip(i) == b.skip(j),
        git_start(a, 1, from) == git_start(a, i, cwd),
        git_start(b, 1, cwd) == git_start(b, j, cwd),
    ensures
        git_targets(a, from) == git_targets(b, cwd),
{
    lemma_git_shift(a, i, b, j, cwd);
    assert(a.skip(i).len() == a.len() - i);
    assert(b.skip(j).len() == b.len() - j);
    if git_start(a, i, cwd) is Some {
        let s = (git_start(a, i, cwd)->0).0;
        let t = (git_start(b, j, cwd)->0).0;
        if 0 <= s < a.len() {
            assert(a[s] == a.skip(i)[s - i]);
            assert(b[t] == b.skip(j)[t - j]);
            assert(a.skip(s + 1) =~= a.skip(i).skip(s + 1 - i));
            assert(b.skip(t + 1) =~= b.skip(j).skip(t + 1 - j));
            lemma_operand_shift(a, s + 1, b, t + 1);
        }
    }
}

/// What git writes with a directory to run in is what it writes when it is run there, and any
/// other option before its subcommand changes nothing of it.
pub proof fn git_runs_where_it_is_told(
    git: Seq<char>,
    directory: Seq<char>,
    option: Seq<char>,
    rest: Seq<Seq<char>>,
    cwd: Seq<char>,
)
    requires
        is_option(option),
        option != "-C"@,
        option != "--"@,
    ensures
        git_targets(seq![git, "-C"@, directory] + rest, cwd) == git_targets(
            seq![git] + rest,
            paths::joined(cwd, directory),
        ),
        git_targets(seq![git, option] + rest, cwd) == git_targets(seq![git] + rest, cwd),
{
    let plain = seq![git] + rest;
    let a = seq![git, "-C"@, directory] + rest;
    assert(a.skip(3) =~= plain.skip(1));
    lemma_same_git_targets(a, 3, plain, 1, cwd, paths::joined(cwd, directory));
    let b = seq![git, option] + rest;
    assert(b.skip(2) =~= plain.skip(1));
    lemma_same_git_targets(b, 2, plain, 1, cwd, cwd);
}

/// Git writes only where it makes a repository: the directory of it below the one that it is told
/// to make it in, or else below where it runs.
pub proof fn git_writes_what_it_inits(git: Seq<char>, word: Seq<char>, cwd: Seq<char>)
    requires
        !is_option(word),
    ensures
        git_targets(seq![git, "init"@], cwd) == seq![(paths::joined(cwd, ".git"@), cwd)],
        git_targets(seq![git, "init"@, word], cwd) == seq![
            (paths::joined(paths::joined(cwd, word), ".git"@), cwd),
        ],
        word != "init"@ ==> git_targets(seq![git, word], cwd).len() == 0,
{
    reveal_strlit("init");
    reveal_strlit("-");
    reveal_strlit("-C");
    reveal_strlit("--");
    assert(!is_option("init"@)) by {
        assert("init"@.subrange(0, 1)[0] == 'i');
    }
    assert(is_option("-C"@)) by {
        assert("-C"@.subrange(0, 1) =~= "-"@);
    }
    assert(is_option("--"@)) by {
        assert("--"@.subrange(0, 1) =~= "-"@);
    }
    let a = seq![git, "init"@];
    let b = seq![git, "init"@, word];
    let c = seq![git, word];
    assert(git_start(a, 1, cwd) == Some((1int, cwd)));
    assert(git_start(b, 1, cwd) == Some((1int, cwd)));
    assert(git_start(c, 1, cwd) == Some((1int, cwd)));
    assert(first_operand(a, 2) is None);
    assert(first_operand(b, 2) == Some(word));
    assert(git_targets(a, cwd) =~= seq![(paths::joined(cwd, ".git"@), cwd)]);
}

/// What several commands write is what each of them writes, in order, and then what output is
/// redirected to.
pub proof fn targets_of_all_commands_are_found(
    commands: Seq<Seq<Seq<char>>>,
    cwd: Seq<char>,
    n: int,
    i: int,
    k: int,
)
    requires
        0 <= i < n <= commands.len(),
        0 <= k < command_targets(commands[i], cwd).len(),
    ensures
        all_command_targets(commands, cwd, n).contains(command_targets(commands[i], cwd)[k]),
        all_command_targets(commands, cwd, n) == all_command_targets(commands, cwd, n - 1)
            + command_targets(commands[n - 1], cwd),
        all_command_targets(commands, cwd, 0).len() == 0,
    decreases n,
{
    let target = command_targets(commands[i], cwd)[k];
    let before = all_command_targets(commands, cwd, n - 1);
    let after = all_command_targets(commands, cwd, n);
    if i < n - 1 {
        targets_of_all_commands_are_found(commands, cwd, n - 1, i, k);
        let p = before.index_of(target);
        assert(after[p] == target);
    } else {
        assert(after[before.len() + k] == target);
    }
}

/// The command is refused for the first target that is preserved, and for none only if none is.
pub proof fn refusals_name_the_first_preserved_path(answers: Seq<Option<String>>, i: int)
    requires
        0 <= i <= answers.len(),
    ensures
        match first_name(answers, i) {
            Some(name) => exists|k: int|
                i <= k < answers.len() && (#[trigger] answers[k]) is Some && answers[k]->0@ == name
                    && (forall|j: int| i <= j < k ==> (#[trigger] answers[j]) is None),
            None => forall|j: int| i <= j < answers.len() ==> (#[trigger] answers[j]) is None,
        },
    decreases answers.len() - i,
{
    if i < answers.len() {
        if answers[i] is None {
            refusals_name_the_first_preserved_path(answers, i + 1);
            if first_name(answers, i + 1) is Some {
                let name = first_name(answers, i + 1)->0;
                let k = choose|k: int|
                    i + 1 <= k < answers.len() && (#[trigger] answers[k]) is Some
                        && answers[k]->0@ == name && (forall|j: int|
                        i + 1 <= j < k ==> (#[trigger] answers[j]) is None);
                assert(answers[k] is Some);
            }
        } else {
            assert(answers[i] is Some);
        }
    }
}

} // verus!
