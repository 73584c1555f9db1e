//! Which file a program name stands for on Windows. Aliases under `WindowsApps` are never run.

use vstd::prelude::*;

use crate::paths;
use crate::text;
use crate::windows_paths;

verus! {

/// The endings that are tried where none are configured.
pub const DEFAULT_EXTENSIONS: &'static str = ".COM;.EXE;.BAT;.CMD";

/// Where a name is looked for.
#[derive(Debug)]
pub struct ProgramSearch<'a> {
    pub cwd: &'a str,
    /// The command interpreter.
    pub comspec: Option<&'a str>,
    /// The directories of the search path.
    pub directories: Option<&'a [String]>,
    /// The endings of programs, separated by semicolons.
    pub extensions: Option<&'a str>,
}

/// A command with the file that runs it.
#[derive(Debug, PartialEq, Eq)]
pub struct ResolvedSpawnCommand {
    pub argv: Vec<String>,
    pub application_name: Option<String>,
}

// ---- aliases ----

/// `s` in lower case, with one separator for both.
pub open spec fn alias_form(s: Seq<char>) -> Seq<char> {
    text::ascii_lower(
        Seq::new(
            s.len(),
            |i: int|
                if s[i] == '/' {
                    '\\'
                } else {
                    s[i]
                },
        ),
    )
}

/// Whether a path leads to an alias of an installed package.
pub open spec fn is_alias(path: Seq<char>) -> bool {
    text::has_sub(alias_form(path), "\\program files\\windowsapps\\"@) || text::has_sub(
        alias_form(path),
        "\\appdata\\local\\microsoft\\windowsapps\\"@,
    )
}

/// The paths among the first `n` that are no aliases.
pub open spec fn no_aliases(list: Seq<Seq<char>>, n: int) -> Seq<Seq<char>>
    decreases n,
{
    if n <= 0 {
        Seq::empty()
    } else if is_alias(list[n - 1]) {
        no_aliases(list, n - 1)
    } else {
        no_aliases(list, n - 1).push(list[n - 1])
    }
}

/// Whether a path leads to an alias of an installed package.
pub fn is_windowsapps_path(path: &str) -> (r: bool)
    ensures
        r == is_alias(path@),
{
    let s = text::chars_of(path);
    let mut form: Vec<char> = Vec::new();
    let mut i: usize = 0;
    while i < s.len()
        invariant
            i <= s.len(),
            s@ == path@,
            form@ == alias_form(path@).take(i as int),
        decreases s.len() - i,
    {
        form.push(
            text::lower_char(
                if s[i] == '/' {
                    '\\'
                } else {
                    s[i]
                },
            ),
        );
        assert(form@ =~= alias_form(path@).take(i + 1));
        i = i + 1;
    }
    assert(alias_form(path@).take(i as int) =~= alias_form(path@));
    text::contains_str(form.as_slice(), "\\program files\\windowsapps\\") || text::contains_str(
        form.as_slice(),
        "\\appdata\\local\\microsoft\\windowsapps\\",
    )
}

fn drop_aliases(list: Vec<String>) -> (r: Vec<String>)
    ensures
        text::string_views(r@) == no_aliases(text::string_views(list@), list@.len() as int),
{
    let ghost all = text::string_views(list@);
    let mut r: Vec<String> = Vec::new();
    let mut i: usize = 0;
    assert(text::string_views(r@) =~= no_aliases(all, 0));
    while i < list.len()
        invariant
            i <= list.len(),
            all == text::string_views(list@),
            text::string_views(r@) == no_aliases(all, i as int),
        decreases list.len() - i,
    {
        assert(all[i as int] == list@[i as int]@);
        if !is_windowsapps_path(list[i].as_str()) {
            let ghost before = r@;
            r.push(list[i].clone());
            assert(text::string_views(r@) =~= text::string_views(before).push(all[i as int]));
        }
        i = i + 1;
    }
    r
}

// ---- endings ----

/// `s` without the dots that it starts with.
pub open spec fn without_dots(s: Seq<char>) -> Seq<char>
    decreases s.len(),
{
    if s.len() > 0 && s[0] == '.' {
        without_dots(s.skip(1))
    } else {
        s
    }
}

/// The endings among the first `n` pieces.
pub open spec fn endings(pieces: Seq<Seq<char>>, n: int) -> Seq<Seq<char>>
    decreases n,
{
    if n <= 0 {
        Seq::empty()
    } else if pieces[n - 1].len() == 0 {
        endings(pieces, n - 1)
    } else {
        endings(pieces, n - 1).push(text::ascii_lower(without_dots(pieces[n - 1])))
    }
}

/// The endings that are tried, in lower case.
pub open spec fn extension_list(configured: Option<Seq<char>>) -> Seq<Seq<char>> {
    let pieces = text::split_on(
        match configured {
            Some(s) => s,
            None => DEFAULT_EXTENSIONS@,
        },
        ';',
    );
    endings(pieces, pieces.len() as int)
}

fn lower_ending(piece: &[char]) -> (r: String)
    ensures
        r@ == text::ascii_lower(without_dots(piece@)),
{
    let mut i: usize = 0;
    assert(piece@.skip(0) =~= piece@);
    while i < piece.len() && piece[i] == '.'
        invariant
            i <= piece.len(),
            without_dots(piece@) == without_dots(piece@.skip(i as int)),
        decreases piece.len() - i,
    {
        assert(piece@.skip(i as int).skip(1) =~= piece@.skip(i + 1));
        i = i + 1;
    }
    let rest = text::sub_vec(piece, i, piece.len());
    assert(rest@ =~= piece@.skip(i as int));
    let lower = text::to_ascii_lower(rest.as_slice());
    text::string_of(lower.as_slice())
}

/// The endings that are tried, in lower case.
pub fn path_extensions(configured: Option<&str>) -> (r: Vec<String>)
    ensures
        text::string_views(r@) == extension_list(windows_paths::str_view(configured)),
{
    let s = text::chars_of(
        match configured {
            Some(s) => s,
            None => DEFAULT_EXTENSIONS,
        },
    );
    let pieces = text::split_chars(s.as_slice(), ';');
    let ghost all = text::char_views(pieces@);
    let mut r: Vec<String> = Vec::new();
    let mut i: usize = 0;
    assert(text::string_views(r@) =~= endings(all, 0));
    while i < pieces.len()
        invariant
            i <= pieces.len(),
            all == text::char_views(pieces@),
            text::string_views(r@) == endings(all, i as int),
        decreases pieces.len() - i,
    {
        assert(all[i as int] == pieces@[i as int]@);
        if pieces[i].len() > 0 {
            let ghost before = r@;
            let ending = lower_ending(pieces[i].as_slice());
            r.push(ending);
            assert(text::string_views(r@) =~= text::string_views(before).push(ending@));
        }
        i = i + 1;
    }
    r
}

// ---- candidates ----

/// Whether a name says where its program is.
pub open spec fn is_qualified(program: Seq<char>) -> bool {
    windows_paths::prefix_len(program) > 0 || exists|i: int|
        0 <= i < program.len() && windows_paths::is_separator(#[trigger] program[i])
}

pub open spec fn is_cmd(program: Seq<char>) -> bool {
    text::ascii_lower(program) == "cmd"@ || text::ascii_lower(program) == "cmd.exe"@
}

/// Whether a name has an ending of its own.
pub open spec fn has_ending(program: Seq<char>) -> bool {
    match windows_paths::file_name(program) {
        Some(name) => paths::stem(name).len() < name.len(),
        None => false,
    }
}

/// The files that a name may stand for in a directory.
pub open spec fn in_directory(dir: Seq<char>, name: Seq<char>, extensions: Seq<Seq<char>>) -> Seq<
    Seq<char>,
> {
    let direct = windows_paths::pushed(dir, name);
    seq![direct] + if has_ending(name) {
        Seq::empty()
    } else {
        Seq::new(
            extensions.len(),
            |i: int| windows_paths::replace_extension(direct, extensions[i]),
        )
    }
}

/// The files that a name may stand for in the first `n` directories.
pub open spec fn in_directories(
    dirs: Seq<Seq<char>>,
    name: Seq<char>,
    extensions: Seq<Seq<char>>,
    n: int,
) -> Seq<Seq<char>>
    decreases n,
{
    if n <= 0 {
        Seq::empty()
    } else {
        in_directories(dirs, name, extensions, n - 1) + in_directory(
            dirs[n - 1],
            name,
            extensions,
        )
    }
}

impl ProgramSearch<'_> {
    /// The files that a plain name may stand for: the command interpreter, then what the
    /// search path has.
    pub open spec fn plain(self, name: Seq<char>) -> Seq<Seq<char>> {
        (match self.comspec {
            Some(c) => if is_cmd(name) {
                seq![c@]
            } else {
                Seq::empty()
            },
            None => Seq::empty(),
        }) + match self.directories {
            Some(dirs) => in_directories(
                text::string_views(dirs@),
                name,
                extension_list(windows_paths::str_view(self.extensions)),
                dirs@.len() as int,
            ),
            None => Seq::empty(),
        }
    }

    /// The files that a program may stand for, aliases among them.
    pub open spec fn any(self, program: Seq<char>) -> Seq<Seq<char>> {
        if !is_qualified(program) {
            self.plain(program)
        } else {
            let path = if windows_paths::is_complete(program) {
                program
            } else {
                windows_paths::pushed(self.cwd@, program)
            };
            if is_alias(path) {
                match windows_paths::file_name(program) {
                    Some(name) => if is_qualified(name) {
                        seq![windows_paths::pushed(self.cwd@, name)]
                    } else {
                        self.plain(name)
                    },
                    None => Seq::empty(),
                }
            } else {
                seq![path]
            }
        }
    }

    /// The files that a program may stand for, the first that is there first.
    pub open spec fn candidates(self, program: Seq<char>) -> Seq<Seq<char>> {
        no_aliases(self.any(program), self.any(program).len() as int)
    }

    fn plain_candidates(&self, name: &str) -> (r: Vec<String>)
        ensures
            text::string_views(r@) == self.plain(name@),
    {
        let mut r: Vec<String> = Vec::new();
        if let Some(c) = self.comspec {
            if is_cmd_program(name) {
                r.push(c.to_owned());
            }
        }
        let ghost first = text::string_views(r@);
        assert(first =~= match self.comspec {
            Some(c) => if is_cmd(name@) {
                seq![c@]
            } else {
                Seq::empty()
            },
            None => Seq::empty(),
        });
        match self.directories {
            Some(dirs) => {
                let extensions = path_extensions(self.extensions);
                let ghost list = text::string_views(dirs@);
                let ghost tried = text::string_views(extensions@);
                let mut i: usize = 0;
                assert(text::string_views(r@) =~= first + in_directories(list, name@, tried, 0));
                while i < dirs.len()
                    invariant
                        i <= dirs.len(),
                        list == text::string_views(dirs@),
                        tried == text::string_views(extensions@),
                        text::string_views(r@) == first + in_directories(
                            list,
                            name@,
                            tried,
                            i as int,
                        ),
                    decreases dirs.len() - i,
                {
                    assert(list[i as int] == dirs@[i as int]@);
                    let ghost before = r@;
                    let mut more = directory_candidates(
                        dirs[i].as_str(),
                        name,
                        extensions.as_slice(),
                    );
                    let ghost added = more@;
                    r.append(&mut more);
                    assert(text::string_views(r@) =~= text::string_views(before)
                        + text::string_views(added));
                    assert(first + in_directories(list, name@, tried, i + 1) =~= (first
                        + in_directories(list, name@, tried, i as int)) + in_directory(
                        list[i as int],
                        name@,
                        tried,
                    ));
                    i = i + 1;
                }
                r
            },
            None => {
                assert(first + Seq::<Seq<char>>::empty() =~= first);
                r
            },
        }
    }

    /// The files that a program may stand for. The first of them that is a file is run.
    pub fn program_candidates(&self, program: &str) -> (r: Vec<String>)
        ensures
            text::string_views(r@) == self.candidates(program@),
    {
        let all = if !has_path_qualifier(program) {
            self.plain_candidates(program)
        } else {
            let path = if windows_paths::is_absolute(program) {
                program.to_owned()
            } else {
                windows_paths::push_path(self.cwd, program)
            };
            if is_windowsapps_path(path.as_str()) {
                match windows_paths::file_name_of(program) {
                    Some(name) => if has_path_qualifier(name.as_str()) {
                        one_path(windows_paths::push_path(self.cwd, name.as_str()))
                    } else {
                        self.plain_candidates(name.as_str())
                    },
                    None => {
                        let none: Vec<String> = Vec::new();
                        assert(text::string_views(none@) =~= Seq::<Seq<char>>::empty());
                        none
                    },
                }
            } else {
                one_path(path)
            }
        };
        assert(text::string_views(all@).len() == all@.len());
        drop_aliases(all)
    }
}

fn one_path(path: String) -> (r: Vec<String>)
    ensures
        text::string_views(r@) == seq![path@],
{
    let mut r: Vec<String> = Vec::new();
    r.push(path);
    assert(text::string_views(r@) =~= seq![path@]);
    r
}

/// Whether a name says where its program is: it is more than the name of a file.
pub fn has_path_qualifier(program: &str) -> (r: bool)
    ensures
        r == is_qualified(program@),
{
    let s = text::chars_of(program);
    if windows_paths::prefix_length(s.as_slice()) > 0 {
        return true;
    }
    let mut i: usize = 0;
    while i < s.len()
        invariant
            i <= s.len(),
            s@ == program@,
            forall|j: int| 0 <= j < i ==> !windows_paths::is_separator(#[trigger] program@[j]),
        decreases s.len() - i,
    {
        if windows_paths::separator(s[i]) {
            assert(windows_paths::is_separator(program@[i as int]));
            return true;
        }
        i = i + 1;
    }
    false
}

/// Whether a name is that of the command interpreter.
pub fn is_cmd_program(program: &str) -> (r: bool)
    ensures
        r == is_cmd(program@),
{
    let s = text::chars_of(program);
    let lower = text::to_ascii_lower(s.as_slice());
    text::eq_str(lower.as_slice(), "cmd") || text::eq_str(lower.as_slice(), "cmd.exe")
}

fn has_own_ending(program: &str) -> (r: bool)
    ensures
        r == has_ending(program@),
{
    match windows_paths::file_name_of(program) {
        Some(name) => {
            let chars = text::chars_of(name.as_str());
            let stem = paths::stem_of(chars.as_slice());
            stem.len() < chars.len()
        },
        None => false,
    }
}

fn directory_candidates(dir: &str, name: &str, extensions: &[String]) -> (r: Vec<String>)
    ensures
        text::string_views(r@) == in_directory(dir@, name@, text::string_views(extensions@)),
{
    let ghost tried = text::string_views(extensions@);
    let direct = windows_paths::push_path(dir, name);
    let ghost path = direct@;
    let skip = has_own_ending(name);
    let mut r: Vec<String> = Vec::new();
    r.push(direct.clone());
    assert(text::string_views(r@) =~= seq![path]);
    if skip {
        assert(seq![path] + Seq::<Seq<char>>::empty() =~= seq![path]);
        return r;
    }
    let ghost made = Seq::new(
        tried.len(),
        |i: int| windows_paths::replace_extension(path, tried[i]),
    );
    let mut i: usize = 0;
    assert(text::string_views(r@) =~= seq![path] + made.take(0));
    while i < extensions.len()
        invariant
            i <= extensions.len(),
            tried == text::string_views(extensions@),
            path == direct@,
            made == Seq::new(
                tried.len(),
                |i: int| windows_paths::replace_extension(path, tried[i]),
            ),
            text::string_views(r@) == seq![path] + made.take(i as int),
        decreases extensions.len() - i,
    {
        assert(tried[i as int] == extensions@[i as int]@);
        let ghost before = r@;
        let next = windows_paths::with_extension(direct.as_str(), extensions[i].as_str());
        r.push(next);
        assert(text::string_views(r@) =~= text::string_views(before).push(next@));
        assert(made.take(i + 1) =~= made.take(i as int).push(made[i as int]));
        i = i + 1;
    }
    assert(made.take(i as int) =~= made);
    r
}

// ---- the command ----

/// The first position from `i` on at which there is a file, or the end.
pub open spec fn first_file(is_file: Seq<bool>, i: int) -> int
    decreases is_file.len() - i,
{
    if i < 0 || i >= is_file.len() {
        is_file.len() as int
    } else if is_file[i] {
        i
    } else {
        first_file(is_file, i + 1)
    }
}

/// A command with its program replaced by the first candidate that is a file. Where none is,
/// the command stays as it is.
pub fn resolve_spawn_command(argv: &[String], candidates: &[String], is_file: &[bool]) -> (r:
    ResolvedSpawnCommand)
    requires
        is_file@.len() == candidates@.len(),
    ensures
        ({
            let words = text::string_views(argv@);
            let i = first_file(is_file@, 0);
            if argv@.len() == 0 || i == candidates@.len() {
                text::string_views(r.argv@) == words && r.application_name is None
            } else {
                let file = candidates@[i]@;
                text::string_views(r.argv@) == words.update(0, file) && text::option_view(
                    r.application_name,
                ) == Some(file)
            }
        }),
{
    let mut words = text::clone_strings(argv);
    if argv.len() == 0 {
        return ResolvedSpawnCommand { argv: words, application_name: None };
    }
    let mut i: usize = 0;
    while i < is_file.len()
        invariant
            i <= is_file.len(),
            is_file@.len() == candidates@.len(),
            words@.len() == argv@.len(),
            words@.len() > 0,
            text::string_views(words@) == text::string_views(argv@),
            first_file(is_file@, 0) == first_file(is_file@, i as int),
        decreases is_file.len() - i,
    {
        if is_file[i] {
            let ghost before = words@;
            words.set(0, candidates[i].clone());
            assert(text::string_views(words@) =~= text::string_views(before).update(
                0,
                candidates@[i as int]@,
            ));
            return ResolvedSpawnCommand {
                argv: words,
                application_name: Some(candidates[i].clone()),
            };
        }
        i = i + 1;
    }
    ResolvedSpawnCommand { argv: words, application_name: None }
}

proof fn lemma_no_aliases(list: Seq<Seq<char>>, n: int)
    requires
        0 <= n <= list.len(),
    ensures
        forall|i: int|
            0 <= i < no_aliases(list, n).len() ==> !is_alias(#[trigger] no_aliases(list, n)[i]),
    decreases n,
{
    if n > 0 {
        lemma_no_aliases(list, n - 1);
        let before = no_aliases(list, n - 1);
        assert forall|i: int| 0 <= i < no_aliases(list, n).len() implies !is_alias(
            #[trigger] no_aliases(list, n)[i],
        ) by {
            if i < before.len() {
                assert(!is_alias(before[i]));
            }
        }
    }
}

/// No alias of an installed package is ever run.
pub proof fn aliases_are_never_candidates(search: ProgramSearch, program: Seq<char>, i: int)
    requires
        0 <= i < search.candidates(program).len(),
    ensures
        !is_alias(search.candidates(program)[i]),
{
    lemma_no_aliases(search.any(program), search.any(program).len() as int);
}

// ---- which programs are looked for ----

/// Of the candidates all that are no aliases stay, in their order.
pub proof fn only_aliases_are_dropped(list: Seq<Seq<char>>, n: int, i: int)
    requires
        0 <= i < n <= list.len(),
    ensures
        !is_alias(list[i]) ==> no_aliases(list, n).contains(list[i]),
        no_aliases(list, n).len() <= n,
        (forall|k: int| 0 <= k < n ==> !is_alias(#[trigger] list[k])) ==> no_aliases(list, n)
            == list.take(n),
    decreases n,
{
    let before = no_aliases(list, n - 1);
    let after = no_aliases(list, n);
    if n > 1 {
        only_aliases_are_dropped(list, n - 1, if i < n - 1 {
            i
        } else {
            0
        });
    }
    if i < n - 1 && before.contains(list[i]) {
        assert(after[before.index_of(list[i])] == list[i]);
    }
    if !is_alias(list[n - 1]) {
        assert(after[before.len() as int] == list[n - 1]);
    }
    if forall|k: int| 0 <= k < n ==> !is_alias(#[trigger] list[k]) {
        if n == 1 {
            assert(before =~= list.take(0));
        }
        assert(!is_alias(list[n - 1]));
        assert(list.take(n) =~= list.take(n - 1).push(list[n - 1]));
    }
}

/// An alias is told alike with either separator and in either case.
pub proof fn aliases_are_told_by_their_directory(before: Seq<char>, after: Seq<char>)
    requires
        alias_form(before) == before,
        alias_form(after) == after,
    ensures
        is_alias(before + "\\program files\\windowsapps\\"@ + after),
        is_alias(before + "\\appdata\\local\\microsoft\\windowsapps\\"@ + after),
        forall|path: Seq<char>| is_alias(alias_form(path)) == #[trigger] is_alias(path),
{
    let a = "\\program files\\windowsapps\\"@;
    let b = "\\appdata\\local\\microsoft\\windowsapps\\"@;
    reveal_strlit("\\program files\\windowsapps\\");
    reveal_strlit("\\appdata\\local\\microsoft\\windowsapps\\");
    assert(alias_form(a) =~= a);
    assert(alias_form(b) =~= b);
    assert(alias_form(before + a + after) =~= alias_form(before) + alias_form(a) + alias_form(
        after,
    ));
    assert(alias_form(before + b + after) =~= alias_form(before) + alias_form(b) + alias_form(
        after,
    ));
    text::texts_hold_their_parts(before, a, after);
    text::texts_hold_their_parts(before, b, after);
    assert forall|path: Seq<char>| is_alias(alias_form(path)) == #[trigger] is_alias(path) by {
        assert(alias_form(alias_form(path)) =~= alias_form(path));
    }
}

/// An ending is written without its dots.
pub proof fn dots_before_an_ending_are_dropped(s: Seq<char>)
    ensures
        ({
            let t = without_dots(s);
            &&& t.len() <= s.len()
            &&& t == s.skip(s.len() - t.len())
            &&& t.len() > 0 ==> t[0] != '.'
            &&& forall|i: int| 0 <= i < s.len() - t.len() ==> #[trigger] s[i] == '.'
        }),
    decreases s.len(),
{
    if s.len() > 0 && s[0] == '.' {
        dots_before_an_ending_are_dropped(s.skip(1));
        let t = without_dots(s);
        assert(s.skip(1).skip(s.len() - 1 - t.len()) =~= s.skip(s.len() - t.len()));
        assert forall|i: int| 0 <= i < s.len() - t.len() implies #[trigger] s[i] == '.' by {
            if i > 0 {
                assert(s[i] == s.skip(1)[i - 1]);
            }
        }
    } else {
        assert(s.skip(0) =~= s);
    }
}

/// Every ending that is configured is tried, in order: each between two semicolons that is not
/// empty, in lower case and without its dots.
pub proof fn every_ending_is_tried(pieces: Seq<Seq<char>>, n: int, i: int)
    requires
        0 <= i < n <= pieces.len(),
    ensures
        pieces[i].len() > 0 ==> endings(pieces, n).contains(
            text::ascii_lower(without_dots(pieces[i])),
        ),
        endings(pieces, n).len() <= n,
        (forall|k: int| 0 <= k < n ==> (#[trigger] pieces[k]).len() > 0) ==> endings(
            pieces,
            n,
        ).len() == n && endings(pieces, n)[i] == text::ascii_lower(without_dots(pieces[i])),
    decreases n,
{
    let before = endings(pieces, n - 1);
    let after = endings(pieces, n);
    let own = text::ascii_lower(without_dots(pieces[i]));
    if n > 1 {
        every_ending_is_tried(pieces, n - 1, if i < n - 1 {
            i
        } else {
            0
        });
    }
    if i < n - 1 && before.contains(own) {
        assert(after[before.index_of(own)] == own);
    }
    if pieces[n - 1].len() > 0 {
        assert(after[before.len() as int] == text::ascii_lower(without_dots(pieces[n - 1])));
    }
    if forall|k: int| 0 <= k < n ==> (#[trigger] pieces[k]).len() > 0 {
        assert(pieces[n - 1].len() > 0);
    }
}

/// In a directory the name itself is looked for first and then, unless it has an ending, the name
/// with each ending in turn.
pub proof fn names_are_tried_with_every_ending(
    dir: Seq<char>,
    name: Seq<char>,
    extensions: Seq<Seq<char>>,
    i: int,
)
    requires
        0 <= i < extensions.len(),
    ensures
        ({
            let tried = in_directory(dir, name, extensions);
            let direct = windows_paths::pushed(dir, name);
            &&& tried[0] == direct
            &&& has_ending(name) ==> tried.len() == 1
            &&& !has_ending(name) ==> tried.len() == 1 + extensions.len() && tried[1 + i]
                == windows_paths::replace_extension(direct, extensions[i])
        }),
{
}

/// Every directory of the search path is tried, in order.
pub proof fn every_directory_is_tried(
    dirs: Seq<Seq<char>>,
    name: Seq<char>,
    extensions: Seq<Seq<char>>,
    n: int,
    i: int,
    k: int,
)
    requires
        0 <= i < n <= dirs.len(),
        0 <= k < in_directory(dirs[i], name, extensions).len(),
    ensures
        in_directories(dirs, name, extensions, n).contains(
            in_directory(dirs[i], name, extensions)[k],
        ),
        in_directories(dirs, name, extensions, n) == in_directories(
            dirs,
            name,
            extensions,
            n - 1,
        ) + in_directory(dirs[n - 1], name, extensions),
        in_directories(dirs, name, extensions, 0).len() == 0,
    decreases n,
{
    let tried = in_directory(dirs[i], name, extensions)[k];
    let before = in_directories(dirs, name, extensions, n - 1);
    let after = in_directories(dirs, name, extensions, n);
    if i < n - 1 {
        every_directory_is_tried(dirs, name, extensions, n - 1, i, k);
        let p = before.index_of(tried);
        assert(after[p] == tried);
    } else {
        assert(after[before.len() + k] == tried);
    }
}

/// The candidate that is taken is the first that is a file.
pub proof fn the_first_file_is_taken(is_file: Seq<bool>, i: int)
    requires
        0 <= i <= is_file.len(),
    ensures
        ({
            let k = first_file(is_file, i);
            &&& i <= k <= is_file.len()
            &&& k < is_file.len() ==> is_file[k]
            &&& forall|j: int| i <= j < k ==> !#[trigger] is_file[j]
        }),
    decreases is_file.len() - i,
{
    if i < is_file.len() && !is_file[i] {
        the_first_file_is_taken(is_file, i + 1);
    }
}

/// A program with a path of its own is looked for there and nowhere else: at that path, or below the
/// working directory if it is not complete. An alias is looked for by its name instead.
pub proof fn programs_with_a_path_are_looked_for_there(search: ProgramSearch, program: Seq<char>)
    requires
        is_qualified(program),
    ensures
        windows_paths::is_complete(program) && !is_alias(program) ==> search.any(program) == seq![
            program,
        ],
        !windows_paths::is_complete(program) && !is_alias(
            windows_paths::pushed(search.cwd@, program),
        ) ==> search.any(program) == seq![windows_paths::pushed(search.cwd@, program)],
        windows_paths::is_complete(program) && is_alias(program) && windows_paths::file_name(
            program,
        ) is None ==> search.any(program).len() == 0,
        windows_paths::is_complete(program) && is_alias(program) ==> (windows_paths::file_name(
            program,
        ) matches Some(name) ==> (!is_qualified(name) ==> search.any(program) == search.plain(
            name,
        ))),
{
}

/// A program without one is looked for on the search path; the command interpreter first where it is
/// known to be, in either case of its name.
pub proof fn programs_without_a_path_are_searched_for(search: ProgramSearch, name: Seq<char>)
    requires
        !is_qualified(name),
    ensures
        search.any(name) == search.plain(name),
        search.directories is None && !is_cmd(name) ==> search.plain(name).len() == 0,
        search.comspec matches Some(c) ==> (is_cmd(name) ==> search.plain(name).len() > 0
            && search.plain(name)[0] == c@),
        search.directories matches Some(dirs) ==> (!is_cmd(name) ==> search.plain(name)
            == in_directories(
            text::string_views(dirs@),
            name,
            extension_list(windows_paths::str_view(search.extensions)),
            dirs@.len() as int,
        )),
        is_cmd(name) <==> text::ascii_lower(name) == "cmd"@ || text::ascii_lower(name) == "cmd.exe"@,
{
    if search.directories is Some && !is_cmd(name) {
        let dirs = search.directories->0;
        let found = in_directories(
            text::string_views(dirs@),
            name,
            extension_list(windows_paths::str_view(search.extensions)),
            dirs@.len() as int,
        );
        assert(search.plain(name) =~= found);
    }
}

/// A program has a path of its own exactly if it begins with a drive or a share or holds a
/// separator.
pub proof fn separators_make_a_path(a: Seq<char>, b: Seq<char>, c: char)
    requires
        c == '/' || c == '\\',
    ensures
        is_qualified(a + seq![c] + b),
        windows_paths::prefix_len(a) == 0 && !a.contains('/') && !a.contains('\\') ==> !is_qualified(
            a,
        ),
{
    let whole = a + seq![c] + b;
    assert(windows_paths::is_separator(whole[a.len() as int]));
    if windows_paths::prefix_len(a) == 0 && !a.contains('/') && !a.contains('\\') {
        assert forall|i: int| 0 <= i < a.len() implies !windows_paths::is_separator(
            #[trigger] a[i],
        ) by {
            assert(a.contains(a[i]));
        }
    }
}

} // verus!
