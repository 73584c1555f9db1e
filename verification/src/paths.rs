//! Paths as texts with `/` between their parts.

use vstd::prelude::*;

use crate::text;

verus! {

/// The last position of `c` in `s`, or -1 where there is none.
pub open spec fn last_index(s: Seq<char>, c: char) -> int
    decreases s.len(),
{
    if s.len() == 0 {
        -1
    } else if s.last() == c {
        s.len() - 1
    } else {
        last_index(s.drop_last(), c)
    }
}

/// Where the last part of a path ends: before trailing separators and `/.`.
pub open spec fn last_end(path: Seq<char>) -> int
    decreases path.len(),
{
    if path.len() == 0 {
        0
    } else if path.last() == '/' {
        last_end(path.drop_last())
    } else if path.last() == '.' && path.len() >= 2 && path[path.len() - 2] == '/' {
        last_end(path.drop_last())
    } else {
        path.len() as int
    }
}

/// Where the last part of a path starts: behind the separator before it.
pub open spec fn last_start(path: Seq<char>) -> int {
    last_index(path.take(last_end(path)), '/') + 1
}

/// The last part of a path; empty where it has none.
pub open spec fn last_part(path: Seq<char>) -> Seq<char> {
    path.subrange(last_start(path), last_end(path))
}

/// The name of the file that a path leads to: its last part, unless that is `.` or `..`.
pub open spec fn file_name(path: Seq<char>) -> Option<Seq<char>> {
    let p = last_part(path);
    if p.len() == 0 || p == seq!['.'] || p == seq!['.', '.'] {
        None
    } else {
        Some(p)
    }
}

/// A file name without its extension; a leading dot starts no extension.
pub open spec fn stem(name: Seq<char>) -> Seq<char> {
    if last_index(name, '.') > 0 {
        name.take(last_index(name, '.'))
    } else {
        name
    }
}

/// A path with the extension of its file replaced; a path without a file is unchanged.
pub open spec fn replace_extension(path: Seq<char>, extension: Seq<char>) -> Seq<char> {
    match file_name(path) {
        None => path,
        Some(name) => path.take(last_start(path) + stem(name).len()) + seq!['.'] + extension,
    }
}

/// The path without its last part.
pub open spec fn parent(path: Seq<char>) -> Option<Seq<char>> {
    if last_end(path) == 0 {
        None
    } else {
        let end = last_end(path.take(last_start(path)));
        if end == 0 && path[0] == '/' {
            Some(seq!['/'])
        } else {
            Some(path.take(end))
        }
    }
}

/// Whether a path starts at the root.
pub open spec fn is_absolute(path: Seq<char>) -> bool {
    path.len() > 0 && path[0] == '/'
}

/// `path` as seen from `base`.
pub open spec fn joined(base: Seq<char>, path: Seq<char>) -> Seq<char> {
    if is_absolute(path) {
        path
    } else if base.len() == 0 || base.last() == '/' {
        base + path
    } else {
        base + seq!['/'] + path
    }
}

pub proof fn lemma_last_index(s: Seq<char>, c: char)
    ensures
        -1 <= last_index(s, c) < s.len(),
        last_index(s, c) >= 0 ==> s[last_index(s, c)] == c,
        forall|i: int| last_index(s, c) < i < s.len() ==> s[i] != c,
    decreases s.len(),
{
    if s.len() > 0 && s.last() != c {
        lemma_last_index(s.drop_last(), c);
        assert forall|i: int| last_index(s, c) < i < s.len() implies s[i] != c by {
            if i < s.len() - 1 {
                assert(s[i] == s.drop_last()[i]);
            }
        }
    }
}

pub proof fn lemma_last_end(path: Seq<char>)
    ensures
        0 <= last_end(path) <= path.len(),
        last_end(path) > 0 ==> path[last_end(path) - 1] != '/',
    decreases path.len(),
{
    if path.len() > 0 && (path.last() == '/' || (path.last() == '.' && path.len() >= 2
        && path[path.len() - 2] == '/')) {
        lemma_last_end(path.drop_last());
    }
}

pub proof fn lemma_last_part(path: Seq<char>)
    ensures
        0 <= last_start(path) <= last_end(path) <= path.len(),
        last_end(path) > 0 ==> last_start(path) < last_end(path),
        !last_part(path).contains('/'),
{
    lemma_last_end(path);
    let t = path.take(last_end(path));
    lemma_last_index(t, '/');
    if last_end(path) > 0 {
        assert(t.last() == path[last_end(path) - 1]);
    }
    assert(!last_part(path).contains('/')) by {
        assert forall|i: int| 0 <= i < last_part(path).len() implies last_part(path)[i] != '/' by {
            assert(last_part(path)[i] == t[last_start(path) + i]);
        }
    }
}

/// What is left of a path without its last part is no longer than the path.
pub proof fn lemma_parent_is_shorter(path: Seq<char>)
    ensures
        parent(path) matches Some(head) ==> head.len() <= path.len(),
{
    lemma_last_part(path);
    lemma_last_end(path.take(last_start(path)));
}

/// The last position of `c` in `s`.
pub fn last_position(s: &[char], c: char) -> (r: Option<usize>)
    ensures
        match r {
            Some(i) => last_index(s@, c) == i && i < s.len(),
            None => last_index(s@, c) == -1,
        },
{
    let mut i: usize = s.len();
    assert(s@.take(i as int) =~= s@);
    while i > 0
        invariant
            i <= s.len(),
            last_index(s@, c) == last_index(s@.take(i as int), c),
        decreases i,
    {
        if s[i - 1] == c {
            return Some(i - 1);
        }
        assert(s@.take(i as int).drop_last() =~= s@.take(i - 1));
        i = i - 1;
    }
    None
}

fn end_of_last(path: &[char]) -> (r: usize)
    ensures
        r == last_end(path@),
        r <= path.len(),
{
    let mut i: usize = path.len();
    assert(path@.take(i as int) =~= path@);
    while i > 0 && (path[i - 1] == '/' || (path[i - 1] == '.' && i >= 2 && path[i - 2] == '/'))
        invariant
            i <= path.len(),
            last_end(path@) == last_end(path@.take(i as int)),
        decreases i,
    {
        assert(path@.take(i as int).drop_last() =~= path@.take(i - 1));
        i = i - 1;
    }
    i
}

fn bounds_of_last(path: &[char]) -> (r: (usize, usize))
    ensures
        r.0 == last_start(path@),
        r.1 == last_end(path@),
        r.0 <= r.1 <= path.len(),
{
    proof {
        lemma_last_part(path@);
    }
    let end = end_of_last(path);
    let head = vstd::slice::slice_subrange(path, 0, end);
    assert(head@ =~= path@.take(end as int));
    let start: usize = match last_position(head, '/') {
        Some(i) => i + 1,
        None => 0,
    };
    (start, end)
}

/// Where the last part of a path starts.
pub(crate) fn start_of_last(path: &[char]) -> (r: usize)
    ensures
        r == last_start(path@),
        r <= path.len(),
{
    bounds_of_last(path).0
}

/// The name of the file that a path leads to.
pub fn file_name_of(path: &[char]) -> (r: Option<Vec<char>>)
    ensures
        match r {
            Some(name) => file_name(path@) == Some(name@),
            None => file_name(path@) is None,
        },
{
    let (start, end) = bounds_of_last(path);
    let p = text::sub_vec(path, start, end);
    if p.len() == 0 {
        return None;
    }
    if p.len() == 1 && p[0] == '.' {
        assert(p@ =~= seq!['.']);
        return None;
    }
    if p.len() == 2 && p[0] == '.' && p[1] == '.' {
        assert(p@ =~= seq!['.', '.']);
        return None;
    }
    Some(p)
}

/// A file name without its extension.
pub fn stem_of(name: &[char]) -> (r: Vec<char>)
    ensures
        r@ == stem(name@),
{
    match last_position(name, '.') {
        Some(i) => {
            if i > 0 {
                let r = text::sub_vec(name, 0, i);
                assert(r@ =~= name@.take(i as int));
                return r;
            }
        },
        None => {},
    }
    let r = text::sub_vec(name, 0, name.len());
    assert(r@ =~= name@);
    r
}

/// A path with the extension of its file replaced.
pub fn with_extension(path: &str, extension: &str) -> (r: String)
    ensures
        r@ == replace_extension(path@, extension@),
{
    let c = text::chars_of(path);
    match file_name_of(c.as_slice()) {
        None => path.to_owned(),
        Some(name) => {
            let (start, end) = bounds_of_last(c.as_slice());
            let s = stem_of(name.as_slice());
            proof {
                lemma_last_index(name@, '.');
                assert(s@.len() <= name@.len());
            }
            let mut r = text::string_of_range(c.as_slice(), 0, start + s.len());
            assert(r@ =~= path@.take(start + s@.len()));
            r.push('.');
            r.push_str(extension);
            assert(r@ =~= replace_extension(path@, extension@));
            r
        },
    }
}

/// The path without its last part.
pub fn parent_of(path: &str) -> (r: Option<String>)
    ensures
        text::option_view(r) == parent(path@),
{
    let c = text::chars_of(path);
    let (start, end) = bounds_of_last(c.as_slice());
    if end == 0 {
        return None;
    }
    let head = vstd::slice::slice_subrange(c.as_slice(), 0, start);
    assert(head@ =~= path@.take(start as int));
    let keep = end_of_last(head);
    if keep == 0 && c[0] == '/' {
        let mut root = String::new();
        root.push('/');
        assert(root@ =~= seq!['/']);
        return Some(root);
    }
    let r = text::string_of_range(c.as_slice(), 0, keep);
    assert(r@ =~= path@.take(keep as int));
    Some(r)
}

/// `path` as seen from `base`.
pub fn join_path(base: &str, path: &str) -> (r: String)
    ensures
        r@ == joined(base@, path@),
{
    let p = text::chars_of(path);
    if p.len() > 0 && p[0] == '/' {
        return path.to_owned();
    }
    let b = text::chars_of(base);
    let mut r = base.to_owned();
    if b.len() > 0 && b[b.len() - 1] != '/' {
        r.push('/');
    }
    r.push_str(path);
    assert(r@ =~= joined(base@, path@));
    r
}

/// The parts of a path among its pieces from `i` on: those that are not empty and, past the
/// first, not a single dot.
pub open spec fn parts_from(pieces: Seq<Seq<char>>, i: int) -> Seq<Seq<char>>
    decreases pieces.len() - i,
{
    if i < 0 || i >= pieces.len() {
        Seq::empty()
    } else if pieces[i].len() == 0 || (i > 0 && pieces[i] == seq!['.']) {
        parts_from(pieces, i + 1)
    } else {
        seq![pieces[i]] + parts_from(pieces, i + 1)
    }
}

/// The parts of a path.
pub open spec fn parts(path: Seq<char>) -> Seq<Seq<char>> {
    parts_from(text::split_on(path, '/'), 0)
}

/// Whether two texts are the same path: both or neither start at the root, and their parts
/// are the same.
pub open spec fn same_path(a: Seq<char>, b: Seq<char>) -> bool {
    is_absolute(a) == is_absolute(b) && parts(a) == parts(b)
}

/// The parts of a path.
pub fn parts_of(path: &str) -> (r: Vec<Vec<char>>)
    ensures
        text::char_views(r@) == parts(path@),
{
    let c = text::chars_of(path);
    let pieces = text::split_chars(c.as_slice(), '/');
    let ghost v = text::char_views(pieces@);
    let mut r: Vec<Vec<char>> = Vec::new();
    let mut i: usize = 0;
    while i < pieces.len()
        invariant
            i <= pieces.len(),
            v == text::char_views(pieces@),
            parts_from(v, 0) == text::char_views(r@) + parts_from(v, i as int),
        decreases pieces.len() - i,
    {
        let piece = &pieces[i];
        assert(v[i as int] == piece@);
        let dot = piece.len() == 1 && piece[0] == '.';
        assert(dot == (piece@ =~= seq!['.']));
        if piece.len() != 0 && !(i > 0 && dot) {
            let ghost before = r@;
            let copy = text::sub_vec(piece.as_slice(), 0, piece.len());
            assert(copy@ =~= piece@);
            r.push(copy);
            assert(text::char_views(r@) =~= text::char_views(before).push(piece@));
            assert(text::char_views(r@) + parts_from(v, i + 1) =~= text::char_views(before)
                + parts_from(v, i as int));
        }
        i = i + 1;
    }
    assert(text::char_views(r@) + parts_from(v, i as int) =~= text::char_views(r@));
    r
}

/// Whether two texts are the same path.
pub fn is_same_path(a: &str, b: &str) -> (r: bool)
    ensures
        r == same_path(a@, b@),
{
    let ca = text::chars_of(a);
    let cb = text::chars_of(b);
    let root_a = ca.len() > 0 && ca[0] == '/';
    let root_b = cb.len() > 0 && cb[0] == '/';
    if root_a != root_b {
        return false;
    }
    let x = parts_of(a);
    let y = parts_of(b);
    let ghost vx = text::char_views(x@);
    let ghost vy = text::char_views(y@);
    if x.len() != y.len() {
        assert(vx.len() != vy.len());
        return false;
    }
    let mut i: usize = 0;
    while i < x.len()
        invariant
            i <= x.len(),
            x.len() == y.len(),
            vx == text::char_views(x@),
            vy == text::char_views(y@),
            vx == parts(a@),
            vy == parts(b@),
            forall|j: int| 0 <= j < i ==> vx[j] == vy[j],
        decreases x.len() - i,
    {
        assert(vx[i as int] == x@[i as int]@ && vy[i as int] == y@[i as int]@);
        if !text::eq_chars(x[i].as_slice(), y[i].as_slice()) {
            return false;
        }
        i = i + 1;
    }
    assert(vx =~= vy);
    true
}

/// Whether a path is among those of a list.
pub open spec fn among(list: Seq<Seq<char>>, path: Seq<char>) -> bool {
    exists|i: int| 0 <= i < list.len() && same_path(#[trigger] list[i], path)
}

/// Whether a path is among those of a list.
pub fn is_among(list: &[String], path: &str) -> (r: bool)
    ensures
        r == among(text::string_views(list@), path@),
{
    let ghost v = text::string_views(list@);
    let mut i: usize = 0;
    while i < list.len()
        invariant
            i <= list.len(),
            v == text::string_views(list@),
            forall|j: int| 0 <= j < i ==> !same_path(#[trigger] v[j], path@),
        decreases list.len() - i,
    {
        assert(v[i as int] == list@[i as int]@);
        if is_same_path(list[i].as_str(), path) {
            return true;
        }
        i = i + 1;
    }
    false
}

/// Whether two lists hold the same paths in the same order.
pub open spec fn same_paths(a: Seq<Seq<char>>, b: Seq<Seq<char>>) -> bool {
    a.len() == b.len() && forall|i: int| 0 <= i < a.len() ==> same_path(#[trigger] a[i], b[i])
}

/// Whether two lists hold the same paths in the same order.
pub fn are_same_paths(a: &[String], b: &[String]) -> (r: bool)
    ensures
        r == same_paths(text::string_views(a@), text::string_views(b@)),
{
    let ghost va = text::string_views(a@);
    let ghost vb = text::string_views(b@);
    if a.len() != b.len() {
        assert(va.len() != vb.len());
        return false;
    }
    let mut i: usize = 0;
    while i < a.len()
        invariant
            i <= a.len(),
            a.len() == b.len(),
            va == text::string_views(a@),
            vb == text::string_views(b@),
            forall|j: int| 0 <= j < i ==> same_path(#[trigger] va[j], vb[j]),
        decreases a.len() - i,
    {
        assert(va[i as int] == a@[i as int]@ && vb[i as int] == b@[i as int]@);
        if !is_same_path(a[i].as_str(), b[i].as_str()) {
            assert(!same_path(va[i as int], vb[i as int]));
            return false;
        }
        i = i + 1;
    }
    true
}

/// The name of what was joined to a path is the file name of the result.
pub proof fn joined_name_is_file_name(base: Seq<char>, name: Seq<char>)
    requires
        name.len() > 0,
        !name.contains('/'),
        name != seq!['.'],
        name != seq!['.', '.'],
    ensures
        file_name(joined(base, name)) == Some(name),
{
    let p = joined(base, name);
    assert(name[0] != '/') by {
        if name[0] == '/' {
            assert(name.contains('/'));
        }
    }
    let start = p.len() - name.len();
    assert forall|i: int| start <= i < p.len() implies p[i] == name[i - start] && p[i] != '/' by {
        if name[i - start] == '/' {
            assert(name.contains('/'));
        }
    }
    if p.last() == '.' && p.len() >= 2 && p[p.len() - 2] == '/' {
        assert(name.len() == 1);
        assert(name =~= seq!['.']);
    }
    assert(last_end(p) == p.len());
    assert(p.take(p.len() as int) =~= p);
    lemma_last_index(p, '/');
    if start > 0 {
        assert(p[start - 1] == '/');
    }
    assert(last_start(p) == start);
    assert(last_part(p) =~= name);
}

// ---- what paths are made of ----

/// A name is its stem and, if it has one, an extension behind its last dot, which is not its first
/// character.
pub proof fn names_divide_at_their_last_dot(name: Seq<char>)
    ensures
        ({
            let s = stem(name);
            &&& s.len() <= name.len()
            &&& s == name.take(s.len() as int)
            &&& s.len() < name.len() ==> s.len() > 0 && name[s.len() as int] == '.' && !name.skip(
                s.len() as int + 1,
            ).contains('.')
            &&& s.len() == name.len() ==> !name.skip(1).contains('.') || name.len() == 0
        }),
{
    lemma_last_index(name, '.');
    let s = stem(name);
    if s.len() < name.len() {
        let tail = name.skip(s.len() as int + 1);
        assert forall|k: int| 0 <= k < tail.len() implies tail[k] != '.' by {
            assert(tail[k] == name[s.len() + 1 + k]);
        }
    } else {
        assert(s =~= name.take(s.len() as int));
        if name.len() > 0 {
            let tail = name.skip(1);
            assert forall|k: int| 0 <= k < tail.len() implies tail[k] != '.' by {
                assert(tail[k] == name[1 + k]);
            }
        }
    }
}

proof fn lemma_last_end_of_name(path: Seq<char>)
    requires
        path.len() > 0,
        path.last() != '/',
        path.last() != '.' || path.len() == 1 || path[path.len() - 2] != '/',
    ensures
        last_end(path) == path.len(),
{
}

proof fn lemma_last_index_at(s: Seq<char>, c: char, i: int)
    requires
        -1 <= i < s.len(),
        i >= 0 ==> s[i] == c,
        forall|k: int| i < k < s.len() ==> s[k] != c,
    ensures
        last_index(s, c) == i,
{
    lemma_last_index(s, c);
    if last_index(s, c) > i {
        assert(s[last_index(s, c)] != c);
    } else if last_index(s, c) < i {
        assert(s[i] != c);
    }
}

/// To replace the extension of a file keeps the file where it is and keeps the stem of its name;
/// behind it stand a dot and the new extension.
pub proof fn replaced_extensions_keep_place_and_stem(path: Seq<char>, extension: Seq<char>)
    requires
        file_name(path) is Some,
        extension.len() > 0,
        !extension.contains('/'),
        extension.last() != '.',
    ensures
        file_name(replace_extension(path, extension)) == Some(
            stem(file_name(path)->0) + seq!['.'] + extension,
        ),
        last_start(replace_extension(path, extension)) == last_start(path),
        replace_extension(path, extension).take(last_start(path)) == path.take(last_start(path)),
{
    let name = file_name(path)->0;
    let start = last_start(path);
    let s = stem(name);
    let new = replace_extension(path, extension);
    lemma_last_part(path);
    lemma_last_index(path.take(last_end(path)), '/');
    names_divide_at_their_last_dot(name);
    assert(new.last() == extension.last());
    assert(extension.contains(extension.last()));
    lemma_last_end_of_name(new);
    assert(new.take(new.len() as int) =~= new);
    assert forall|k: int| start <= k < new.len() implies new[k] != '/' by {
        if k < start + s.len() {
            assert(new[k] == path[k]);
            assert(name[k - start] == path[k]);
            assert(name.contains(path[k]));
        } else if k > start + s.len() {
            assert(new[k] == extension[k - start - s.len() - 1]);
            assert(extension.contains(new[k]));
        }
    }
    if start > 0 {
        assert(path[start - 1] == '/');
        assert(new[start - 1] == path[start - 1]);
    }
    lemma_last_index_at(new, '/', start - 1);
    assert(s =~= path.subrange(start, start + s.len()));
    let whole = s + seq!['.'] + extension;
    assert(last_part(new) =~= whole);
    assert(whole.len() >= 2);
    assert(whole.last() == extension.last());
    if whole == seq!['.', '.'] {
        assert(whole.last() == '.');
    }
    assert(new.take(start) =~= path.take(start));
}

/// A name joined to a directory has that directory as its parent.
pub proof fn joined_names_have_their_parent(base: Seq<char>, name: Seq<char>)
    requires
        name.len() > 0,
        !name.contains('/'),
        name != seq!['.'],
        base.len() == 0 || base == seq!['/'] || last_end(base) == base.len(),
    ensures
        parent(joined(base, name)) == Some(base),
{
    let whole = joined(base, name);
    assert(name.contains(name[0]));
    assert(name.contains(name.last()));
    assert(whole.last() == name.last());
    if whole.last() == '.' && whole.len() > 1 && whole[whole.len() - 2] == '/' {
        if name.len() > 1 {
            assert(whole[whole.len() - 2] == name[name.len() - 2]);
            assert(name.contains(name[name.len() - 2]));
        } else {
            assert(name =~= seq!['.']);
        }
    }
    lemma_last_end_of_name(whole);
    assert(whole.take(whole.len() as int) =~= whole);
    let start = whole.len() - name.len();
    assert forall|k: int| start <= k < whole.len() implies whole[k] != '/' by {
        assert(whole[k] == name[k - start]);
        assert(name.contains(name[k - start]));
    }
    if start > 0 {
        lemma_last_end(base);
    }
    lemma_last_index_at(whole, '/', start - 1);
    let head = whole.take(start);
    if base.len() == 0 {
        assert(head =~= base);
    } else if base == seq!['/'] {
        assert(head =~= base);
        assert(base.drop_last() =~= Seq::<char>::empty());
    } else {
        lemma_last_end(base);
        assert(head =~= base + seq!['/']);
        assert(head.drop_last() =~= base);
        assert(last_end(head) == last_end(base));
        assert(whole.take(last_end(head)) =~= base);
    }
}

/// Whether a piece of a path counts as a part of it.
spec fn counts(pieces: Seq<Seq<char>>, i: int) -> bool {
    pieces[i].len() > 0 && (i == 0 || pieces[i] != seq!['.'])
}

proof fn lemma_parts_from(pieces: Seq<Seq<char>>, i: int, k: int)
    requires
        0 <= i <= pieces.len(),
    ensures
        i <= k < pieces.len() && counts(pieces, k) ==> parts_from(pieces, i).contains(pieces[k]),
        forall|p: int|
            0 <= p < parts_from(pieces, i).len() ==> (#[trigger] parts_from(pieces, i)[p]).len() > 0,
        parts_from(pieces, i).len() <= pieces.len() - i,
        (forall|m: int| i <= m < pieces.len() ==> counts(pieces, m)) ==> parts_from(pieces, i)
            == pieces.skip(i),
    decreases pieces.len() - i,
{
    if i < pieces.len() {
        lemma_parts_from(pieces, i + 1, k);
        let rest = parts_from(pieces, i + 1);
        let all = parts_from(pieces, i);
        if counts(pieces, i) {
            assert(all =~= seq![pieces[i]] + rest);
            assert(all[0] == pieces[i]);
            if i < k < pieces.len() && counts(pieces, k) {
                let p = rest.index_of(pieces[k]);
                assert(all[p + 1] == pieces[k]);
            }
            assert forall|p: int| 0 <= p < all.len() implies (#[trigger] all[p]).len() > 0 by {
                if p > 0 {
                    assert(all[p] == rest[p - 1]);
                }
            }
            if forall|m: int| i <= m < pieces.len() ==> counts(pieces, m) {
                assert(pieces.skip(i) =~= seq![pieces[i]] + pieces.skip(i + 1));
            }
        } else {
            assert(all == rest);
        }
    } else {
        assert(pieces.skip(i) =~= Seq::<Seq<char>>::empty());
    }
}

/// The parts of a path are the pieces between its separators: each that is not empty and, behind
/// the first, not a dot; nothing else is left out.
pub proof fn parts_are_the_pieces_of_a_path(path: Seq<char>, k: int)
    requires
        0 <= k < text::split_on(path, '/').len(),
    ensures
        ({
            let pieces = text::split_on(path, '/');
            &&& pieces[k].len() > 0 && (k == 0 || pieces[k] != seq!['.']) ==> parts(path).contains(
                pieces[k],
            )
            &&& parts(path).len() <= pieces.len()
            &&& (forall|m: int|
                0 <= m < pieces.len() ==> (#[trigger] pieces[m]).len() > 0 && pieces[m] != seq![
                    '.',
                ]) ==> parts(path) == pieces
            &&& forall|p: int| 0 <= p < parts(path).len() ==> (#[trigger] parts(path)[p]).len() > 0
        }),
{
    let pieces = text::split_on(path, '/');
    lemma_parts_from(pieces, 0, k);
    assert(pieces.skip(0) =~= pieces);
}

/// That two paths are the same does not depend on their order, and paths that are the same as a
/// third are the same; an absolute and a relative path never are.
pub proof fn sameness_of_paths_is_an_equivalence(a: Seq<char>, b: Seq<char>, c: Seq<char>)
    ensures
        same_path(a, a),
        same_path(a, b) == same_path(b, a),
        same_path(a, b) && same_path(b, c) ==> same_path(a, c),
        same_path(a, b) ==> is_absolute(a) == is_absolute(b) && parts(a).len() == parts(b).len(),
{
}

} // verus!
