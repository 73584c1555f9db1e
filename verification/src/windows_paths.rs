//! Paths as Windows writes them: their prefixes, how they are joined and compared, and the
//! network paths that drives stand for.

use vstd::prelude::*;

use crate::paths;
use crate::text;

verus! {

// ---- characters ----

pub open spec fn is_separator(c: char) -> bool {
    c == '\\' || c == '/'
}

pub open spec fn is_letter(c: char) -> bool {
    ('a' <= c && c <= 'z') || ('A' <= c && c <= 'Z')
}

/// `s` with one separator for both.
pub open spec fn slashed(s: Seq<char>) -> Seq<char> {
    Seq::new(
        s.len(),
        |i: int|
            if s[i] == '\\' {
                '/'
            } else {
                s[i]
            },
    )
}

/// How paths are compared: without regard to ASCII case and to which separator is written.
pub open spec fn text_key(path: Seq<char>) -> Seq<char> {
    text::ascii_lower(slashed(path))
}

pub(crate) fn separator(c: char) -> (r: bool)
    ensures
        r == is_separator(c),
{
    c == '\\' || c == '/'
}

pub(crate) fn slashes_of(s: &[char]) -> (r: Vec<char>)
    ensures
        r@ == slashed(s@),
{
    let mut r: Vec<char> = Vec::new();
    let mut i: usize = 0;
    while i < s.len()
        invariant
            i <= s.len(),
            r@ == slashed(s@).take(i as int),
        decreases s.len() - i,
    {
        r.push(
            if s[i] == '\\' {
                '/'
            } else {
                s[i]
            },
        );
        assert(r@ =~= slashed(s@).take(i + 1));
        i = i + 1;
    }
    assert(slashed(s@).take(i as int) =~= slashed(s@));
    r
}

/// The text that a path is compared by.
pub fn path_text_key(path: &str) -> (r: String)
    ensures
        r@ == text_key(path@),
{
    let chars = text::chars_of(path);
    let slashes = slashes_of(chars.as_slice());
    let lower = text::to_ascii_lower(slashes.as_slice());
    text::string_of(lower.as_slice())
}

/// Paths that differ in ASCII case and separators alone have the same key.
pub proof fn keys_ignore_case_and_separators(a: Seq<char>, b: Seq<char>)
    requires
        a.len() == b.len(),
        forall|i: int|
            0 <= i < a.len() ==> (is_separator(#[trigger] a[i]) && is_separator(b[i]))
                || text::ascii_lower_char(a[i]) == text::ascii_lower_char(b[i]),
    ensures
        text_key(a) == text_key(b),
{
    assert forall|i: int| 0 <= i < a.len() implies #[trigger] text_key(a)[i] == text_key(b)[i] by {
        assert(is_separator(a[i]) || text::ascii_lower_char(a[i]) == text::ascii_lower_char(b[i]));
    }
    assert(text_key(a) =~= text_key(b));
}

/// A key is its own key.
pub proof fn keys_are_their_own_keys(path: Seq<char>)
    ensures
        text_key(text_key(path)) == text_key(path),
{
    assert(text_key(text_key(path)) =~= text_key(path));
}

// ---- prefixes ----

/// Whether a path starts with a drive.
pub open spec fn has_drive(s: Seq<char>) -> bool {
    s.len() >= 2 && is_letter(s[0]) && s[1] == ':'
}

/// The first separator from `i` on, or the end.
pub open spec fn separator_from(s: Seq<char>, i: int) -> int
    decreases s.len() - i,
{
    if i < 0 || i >= s.len() {
        s.len() as int
    } else if is_separator(s[i]) {
        i
    } else {
        separator_from(s, i + 1)
    }
}

/// The length of a path's prefix: a drive, or the server and share of a network path.
pub open spec fn prefix_len(s: Seq<char>) -> int {
    if has_drive(s) {
        2
    } else if s.len() >= 2 && is_separator(s[0]) && is_separator(s[1]) {
        let server = separator_from(s, 2);
        let share = separator_from(s, server + 1);
        if server > 2 && server < s.len() && share > server + 1 {
            share
        } else {
            0
        }
    } else {
        0
    }
}

/// What follows the prefix, with one separator.
pub open spec fn after_prefix(s: Seq<char>) -> Seq<char> {
    slashed(s.skip(prefix_len(s)))
}

/// Whether a path is complete.
pub open spec fn is_complete(s: Seq<char>) -> bool {
    prefix_len(s) > 2 || (has_drive(s) && s.len() > 2 && is_separator(s[2]))
}

/// `part` as seen from `base`: a part with a prefix stands for itself, one that starts at a
/// root keeps the prefix of the base.
pub open spec fn pushed(base: Seq<char>, part: Seq<char>) -> Seq<char> {
    if prefix_len(part) > 0 {
        part
    } else if part.len() > 0 && is_separator(part[0]) {
        base.take(prefix_len(base)) + part
    } else if base.len() == 0 || is_separator(base.last()) || (base.len() == 2 && has_drive(
        base,
    )) {
        base + part
    } else {
        base.push('\\') + part
    }
}

/// The name of the file that a path leads to.
pub open spec fn file_name(path: Seq<char>) -> Option<Seq<char>> {
    paths::file_name(after_prefix(path))
}

/// The path without its last part.
pub open spec fn parent(path: Seq<char>) -> Option<Seq<char>> {
    match paths::parent(after_prefix(path)) {
        Some(head) => Some(path.take(prefix_len(path) + head.len())),
        None => None,
    }
}

/// A path with the extension of its file replaced; an empty one takes the extension away.
pub open spec fn replace_extension(path: Seq<char>, extension: Seq<char>) -> Seq<char> {
    match file_name(path) {
        None => path,
        Some(name) => {
            let kept = prefix_len(path) + paths::last_start(after_prefix(path)) + paths::stem(
                name,
            ).len();
            if extension.len() == 0 {
                path.take(kept)
            } else {
                path.take(kept).push('.') + extension
            }
        },
    }
}

proof fn lemma_separator_from(s: Seq<char>, i: int)
    ensures
        separator_from(s, i) <= s.len(),
        0 <= i <= s.len() ==> i <= separator_from(s, i),
    decreases s.len() - i,
{
    if 0 <= i < s.len() && !is_separator(s[i]) {
        lemma_separator_from(s, i + 1);
    }
}

pub proof fn lemma_prefix_len(s: Seq<char>)
    ensures
        0 <= prefix_len(s) <= s.len(),
        prefix_len(s) == 2 ==> has_drive(s),
{
    lemma_separator_from(s, 2);
    lemma_separator_from(s, separator_from(s, 2) + 1);
}

fn drive_at_start(s: &[char]) -> (r: bool)
    ensures
        r == has_drive(s@),
{
    s.len() >= 2 && (('a' <= s[0] && s[0] <= 'z') || ('A' <= s[0] && s[0] <= 'Z')) && s[1] == ':'
}

fn separator_position(s: &[char], start: usize) -> (r: usize)
    requires
        start <= s.len(),
    ensures
        r == separator_from(s@, start as int),
        start <= r <= s.len(),
{
    let mut i: usize = start;
    while i < s.len() && !separator(s[i])
        invariant
            start <= i <= s.len(),
            separator_from(s@, start as int) == separator_from(s@, i as int),
        decreases s.len() - i,
    {
        i = i + 1;
    }
    i
}

pub(crate) fn prefix_length(s: &[char]) -> (r: usize)
    ensures
        r == prefix_len(s@),
        r <= s.len(),
{
    proof {
        lemma_prefix_len(s@);
    }
    if drive_at_start(s) {
        return 2;
    }
    if s.len() >= 2 && separator(s[0]) && separator(s[1]) {
        let server = separator_position(s, 2);
        if server > 2 && server < s.len() {
            let share = separator_position(s, server + 1);
            if share > server + 1 {
                return share;
            }
        }
    }
    0
}

fn rest_of(s: &[char]) -> (r: Vec<char>)
    ensures
        r@ == after_prefix(s@),
{
    let n = prefix_length(s);
    let rest = text::sub_vec(s, n, s.len());
    assert(rest@ =~= s@.skip(n as int));
    slashes_of(rest.as_slice())
}

/// Whether a path is complete.
pub fn is_absolute(path: &str) -> (r: bool)
    ensures
        r == is_complete(path@),
{
    let s = text::chars_of(path);
    prefix_length(s.as_slice()) > 2 || (drive_at_start(s.as_slice()) && s.len() > 2 && separator(
        s[2],
    ))
}

/// `part` as seen from `base`.
pub fn push_path(base: &str, part: &str) -> (r: String)
    ensures
        r@ == pushed(base@, part@),
{
    let b = text::chars_of(base);
    let p = text::chars_of(part);
    if prefix_length(p.as_slice()) > 0 {
        return part.to_owned();
    }
    if p.len() > 0 && separator(p[0]) {
        let n = prefix_length(b.as_slice());
        let mut r = text::string_of_range(b.as_slice(), 0, n);
        assert(r@ =~= base@.take(n as int));
        r.push_str(part);
        return r;
    }
    let mut r = base.to_owned();
    if !(b.len() == 0 || separator(b[b.len() - 1]) || (b.len() == 2 && drive_at_start(
        b.as_slice(),
    ))) {
        r.push('\\');
    }
    r.push_str(part);
    r
}

/// The name of the file that a path leads to.
pub fn file_name_of(path: &str) -> (r: Option<String>)
    ensures
        text::option_view(r) == file_name(path@),
{
    let s = text::chars_of(path);
    let rest = rest_of(s.as_slice());
    match paths::file_name_of(rest.as_slice()) {
        Some(name) => Some(text::string_of(name.as_slice())),
        None => None,
    }
}

/// The path without its last part.
pub fn parent_of(path: &str) -> (r: Option<String>)
    ensures
        text::option_view(r) == parent(path@),
{
    let s = text::chars_of(path);
    let n = prefix_length(s.as_slice());
    let rest = rest_of(s.as_slice());
    let rest_text = text::string_of(rest.as_slice());
    match paths::parent_of(rest_text.as_str()) {
        Some(head) => {
            let kept = text::chars_of(head.as_str()).len();
            proof {
                paths::lemma_parent_is_shorter(rest@);
            }
            let r = text::string_of_range(s.as_slice(), 0, n + kept);
            assert(r@ =~= path@.take(n + kept));
            Some(r)
        },
        None => None,
    }
}

/// A path with the extension of its file replaced.
pub fn with_extension(path: &str, extension: &str) -> (r: String)
    ensures
        r@ == replace_extension(path@, extension@),
{
    let s = text::chars_of(path);
    let n = prefix_length(s.as_slice());
    let rest = rest_of(s.as_slice());
    match paths::file_name_of(rest.as_slice()) {
        None => path.to_owned(),
        Some(name) => {
            let start = paths::start_of_last(rest.as_slice());
            let stem = paths::stem_of(name.as_slice());
            proof {
                paths::lemma_last_part(rest@);
                paths::lemma_last_index(name@, '.');
            }
            let mut r = text::string_of_range(s.as_slice(), 0, n + start + stem.len());
            assert(r@ =~= path@.take(n + start + stem@.len()));
            if text::chars_of(extension).len() > 0 {
                r.push('.');
                r.push_str(extension);
            }
            r
        },
    }
}

// ---- drives that stand for network paths ----

/// The drive of a path that starts at the root of a drive, and what follows the root.
pub open spec fn drive_split(path: Seq<char>) -> Option<(Seq<char>, Option<Seq<char>>)> {
    if !has_drive(path) || (path.len() > 2 && !is_separator(path[2])) {
        None
    } else {
        Some(
            (
                path.take(2),
                if path.len() > 3 {
                    Some(path.skip(3))
                } else {
                    None
                },
            ),
        )
    }
}

/// A drive split from a path, as mathematical values.
pub open spec fn split_view(r: Option<(String, Option<String>)>) -> Option<
    (Seq<char>, Option<Seq<char>>),
> {
    match r {
        Some(p) => Some((p.0@, text::option_view(p.1))),
        None => None,
    }
}

/// The path that a path on a drive stands for, where its drive stands for `remote`.
pub open spec fn sandbox_path(path: Seq<char>, remote: Option<Seq<char>>) -> Seq<char> {
    match (drive_split(path), remote) {
        (Some(p), Some(remote)) => if remote.len() == 0 {
            path
        } else {
            match p.1 {
                Some(suffix) => pushed(remote, suffix),
                None => remote,
            }
        },
        _ => path,
    }
}

/// A path that may be missing, as mathematical values.
pub open spec fn str_view(s: Option<&str>) -> Option<Seq<char>> {
    match s {
        Some(s) => Some(s@),
        None => None,
    }
}

/// The canonical form of a path, where there is one.
pub open spec fn canonical_path(
    path: Seq<char>,
    remote: Option<Seq<char>>,
    canonical: Option<Seq<char>>,
) -> Seq<char> {
    match canonical {
        Some(c) => c,
        None => sandbox_path(path, remote),
    }
}

/// The drive of a path that starts at the root of a drive, and what follows the root.
pub fn split_mapped_drive_path(path: &str) -> (r: Option<(String, Option<String>)>)
    ensures
        split_view(r) == drive_split(path@),
{
    let s = text::chars_of(path);
    if !drive_at_start(s.as_slice()) || (s.len() > 2 && !separator(s[2])) {
        return None;
    }
    let drive = text::string_of_range(s.as_slice(), 0, 2);
    assert(drive@ =~= path@.take(2));
    let suffix = if s.len() > 3 {
        let suffix = text::string_of_range(s.as_slice(), 3, s.len());
        assert(suffix@ =~= path@.skip(3));
        Some(suffix)
    } else {
        None
    };
    Some((drive, suffix))
}

/// The path that a path stands for, where its drive stands for the network path `remote`.
pub fn resolve_sandbox_path(path: &str, remote: Option<&str>) -> (r: String)
    ensures
        r@ == sandbox_path(path@, str_view(remote)),
{
    match split_mapped_drive_path(path) {
        Some((_, suffix)) => match remote {
            Some(remote) => {
                if text::chars_of(remote).len() == 0 {
                    return path.to_owned();
                }
                match suffix {
                    Some(suffix) => push_path(remote, suffix.as_str()),
                    None => remote.to_owned(),
                }
            },
            None => path.to_owned(),
        },
        None => path.to_owned(),
    }
}

/// The canonical form of a path: what the file system gives for the path that it stands for,
/// or else that path itself.
pub fn canonicalize_path(path: &str, remote: Option<&str>, canonical: Option<&str>) -> (r: String)
    ensures
        r@ == canonical_path(path@, str_view(remote), str_view(canonical)),
{
    match canonical {
        Some(c) => c.to_owned(),
        None => resolve_sandbox_path(path, remote),
    }
}

/// The text that the canonical form of a path is compared by.
pub fn canonical_path_key(path: &str, remote: Option<&str>, canonical: Option<&str>) -> (r:
    String)
    ensures
        r@ == text_key(canonical_path(path@, str_view(remote), str_view(canonical))),
{
    let c = canonicalize_path(path, remote, canonical);
    path_text_key(c.as_str())
}

/// What `String::from_utf16_lossy` reads from 16-bit units.
pub uninterp spec fn lossy_utf16(units: Seq<u16>) -> Seq<char>;

/// Reads 16-bit units with `String::from_utf16_lossy`. The result depends on the units alone;
/// nothing more is claimed of it.
#[verifier::external_body]
fn utf16_text(units: &[u16]) -> (r: String)
    ensures
        r@ == lossy_utf16(units@),
{
    String::from_utf16_lossy(units)
}

/// The first zero from `i` on, or the end.
pub open spec fn zero_from(units: Seq<u16>, i: int) -> int
    decreases units.len() - i,
{
    if i < 0 || i >= units.len() {
        units.len() as int
    } else if units[i] == 0 {
        i
    } else {
        zero_from(units, i + 1)
    }
}

/// The network path in a buffer that was filled for a drive: the units before the first zero.
pub fn connection_name(buffer: &[u16]) -> (r: String)
    ensures
        r@ == lossy_utf16(buffer@.take(zero_from(buffer@, 0))),
{
    let mut end: usize = 0;
    while end < buffer.len() && buffer[end] != 0
        invariant
            end <= buffer.len(),
            zero_from(buffer@, 0) == zero_from(buffer@, end as int),
        decreases buffer.len() - end,
    {
        end = end + 1;
    }
    let name = vstd::slice::slice_subrange(buffer, 0, end);
    assert(name@ =~= buffer@.take(end as int));
    utf16_text(name)
}

/// A path that does not start at the root of a drive stands for itself, whatever its drive
/// stands for.
pub proof fn other_paths_stand_for_themselves(path: Seq<char>, remote: Option<Seq<char>>)
    requires
        drive_split(path) is None,
    ensures
        sandbox_path(path, remote) == path,
{
}

// ---- what paths are made of ----

proof fn lemma_separator_at(s: Seq<char>, i: int, k: int)
    requires
        0 <= i <= k <= s.len(),
        forall|j: int| i <= j < k ==> !is_separator(#[trigger] s[j]),
        k < s.len() ==> is_separator(s[k]),
    ensures
        separator_from(s, i) == k,
    decreases k - i,
{
    if i < k {
        assert(!is_separator(s[i]));
        lemma_separator_at(s, i + 1, k);
    }
}

/// A path begins with its drive, or with its server and share, and nothing else counts as such a
/// beginning.
pub proof fn shares_are_prefixes(server: Seq<char>, share: Seq<char>, rest: Seq<char>)
    requires
        server.len() > 0,
        share.len() > 0,
        forall|i: int| 0 <= i < server.len() ==> !is_separator(#[trigger] server[i]),
        forall|i: int| 0 <= i < share.len() ==> !is_separator(#[trigger] share[i]),
        rest.len() > 0 ==> is_separator(rest[0]),
    ensures
        ({
            let path = seq!['\\', '\\'] + server + seq!['\\'] + share + rest;
            &&& prefix_len(path) == 3 + server.len() + share.len()
            &&& is_complete(path)
            &&& after_prefix(path) == slashed(rest)
        }),
{
    let path = seq!['\\', '\\'] + server + seq!['\\'] + share + rest;
    let a = 2 + server.len() as int;
    let b = a + 1 + share.len();
    assert forall|j: int| 2 <= j < a implies !is_separator(#[trigger] path[j]) by {
        assert(path[j] == server[j - 2]);
    }
    assert(path[a] == '\\');
    lemma_separator_at(path, 2, a);
    assert forall|j: int| a + 1 <= j < b implies !is_separator(#[trigger] path[j]) by {
        assert(path[j] == share[j - a - 1]);
    }
    if b < path.len() {
        assert(path[b] == rest[0]);
    }
    lemma_separator_at(path, a + 1, b);
    assert(path[0] == '\\' && path[1] == '\\');
    assert(path.skip(b) =~= rest);
}

/// A drive is a letter and a colon; a path on one is complete if a separator follows.
pub proof fn drives_are_prefixes(drive: char, rest: Seq<char>)
    requires
        is_letter(drive),
    ensures
        ({
            let path = seq![drive, ':'] + rest;
            &&& prefix_len(path) == 2
            &&& is_complete(path) <==> rest.len() > 0 && is_separator(rest[0])
            &&& after_prefix(path) == slashed(rest)
        }),
{
    let path = seq![drive, ':'] + rest;
    assert(path[0] == drive && path[1] == ':');
    assert(path.skip(2) =~= rest);
    if rest.len() > 0 {
        assert(path[2] == rest[0]);
    }
}

/// A part that has a drive or a share of its own takes the place of what it is pushed to; one that
/// begins at the root keeps the drive; any other is appended, behind one separator at least.
pub proof fn pushed_parts_stand_at_the_end(base: Seq<char>, part: Seq<char>)
    ensures
        ({
            let path = pushed(base, part);
            &&& path.len() >= part.len()
            &&& path.skip(path.len() - part.len()) == part
            &&& prefix_len(part) > 0 ==> path == part
            &&& prefix_len(part) == 0 && part.len() > 0 && is_separator(part[0]) ==> path
                == base.take(prefix_len(base)) + part
            &&& prefix_len(part) == 0 && (part.len() == 0 || !is_separator(part[0]))
                ==> path.len() >= base.len() + part.len() && path.take(base.len() as int) == base
            &&& prefix_len(part) == 0 && part.len() > 0 && !is_separator(part[0]) && base.len() > 0
                && !has_drive(base) ==> is_separator(path[path.len() - part.len() - 1])
        }),
{
    let path = pushed(base, part);
    lemma_prefix_len(base);
    lemma_prefix_len(part);
    assert(path.skip(path.len() - part.len()) =~= part);
    if prefix_len(part) == 0 && (part.len() == 0 || !is_separator(part[0])) {
        assert(path.take(base.len() as int) =~= base);
    }
}

/// To replace the extension of a file keeps all that stands before the ending of its name.
pub proof fn replaced_extensions_keep_what_is_before(path: Seq<char>, extension: Seq<char>)
    requires
        file_name(path) is Some,
    ensures
        ({
            let start = prefix_len(path) + paths::last_start(after_prefix(path));
            let kept = start + paths::stem(file_name(path)->0).len();
            let new = replace_extension(path, extension);
            &&& 0 <= start <= kept <= path.len()
            &&& kept <= new.len() && new.take(kept) == path.take(kept)
            &&& slashed(path.subrange(start, kept)) == paths::stem(file_name(path)->0)
            &&& extension.len() == 0 ==> new.len() == kept
            &&& extension.len() > 0 ==> new.skip(kept) == seq!['.'] + extension
        }),
{
    lemma_prefix_len(path);
    let rest = after_prefix(path);
    let name = file_name(path)->0;
    let start = prefix_len(path) + paths::last_start(rest);
    let stem = paths::stem(name);
    let kept = start + stem.len();
    let new = replace_extension(path, extension);
    paths::lemma_last_part(rest);
    paths::names_divide_at_their_last_dot(name);
    assert(new.take(kept) =~= path.take(kept));
    assert(slashed(path.subrange(start, kept)) =~= stem) by {
        assert(stem =~= name.take(stem.len() as int));
        assert(name =~= rest.subrange(paths::last_start(rest), paths::last_end(rest)));
    }
    if extension.len() > 0 {
        assert(new.skip(kept) =~= seq!['.'] + extension);
    }
}

/// A path on a drive that is mapped stands for the same path below what it is mapped to, and the
/// drive itself for that.
pub proof fn mapped_drives_stand_for_their_target(
    drive: char,
    separator: char,
    rest: Seq<char>,
    remote: Seq<char>,
)
    requires
        is_letter(drive),
        is_separator(separator),
        remote.len() > 0,
    ensures
        rest.len() > 0 ==> sandbox_path(seq![drive, ':', separator] + rest, Some(remote)) == pushed(
            remote,
            rest,
        ),
        sandbox_path(seq![drive, ':', separator], Some(remote)) == remote,
        sandbox_path(seq![drive, ':'], Some(remote)) == remote,
        sandbox_path(seq![drive, ':', separator] + rest, None) == seq![drive, ':', separator] + rest,
        sandbox_path(seq![drive, ':', separator] + rest, Some(Seq::empty())) == seq![
            drive,
            ':',
            separator,
        ] + rest,
{
    let path = seq![drive, ':', separator] + rest;
    assert(path[0] == drive && path[1] == ':' && path[2] == separator);
    if rest.len() > 0 {
        assert(path.skip(3) =~= rest);
    }
}

/// What is known of a path itself goes before what its drive stands for.
pub proof fn known_paths_go_first(path: Seq<char>, remote: Option<Seq<char>>, known: Seq<char>)
    ensures
        canonical_path(path, remote, Some(known)) == known,
        canonical_path(path, remote, None) == sandbox_path(path, remote),
{
}

/// A name in a buffer ends before the first zero.
pub proof fn names_end_before_the_first_zero(units: Seq<u16>, i: int)
    requires
        0 <= i <= units.len(),
    ensures
        ({
            let k = zero_from(units, i);
            &&& i <= k <= units.len()
            &&& k < units.len() ==> units[k] == 0
            &&& forall|j: int| i <= j < k ==> #[trigger] units[j] != 0
        }),
    decreases units.len() - i,
{
    if i < units.len() && units[i] != 0 {
        names_end_before_the_first_zero(units, i + 1);
    }
}

} // verus!
