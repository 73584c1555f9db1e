//! Text as a sequence of characters: the small vocabulary that the rest of the
//! crate states its contracts in, and the functions that compute it.

use vstd::prelude::*;

verus! {

/// `String::push` appends one character.
pub assume_specification[ String::push ](s: &mut String, c: char)
    ensures
        final(s)@ == old(s)@.push(c),
;

/// `String::push_str` appends a whole string slice.
pub assume_specification[ String::push_str ](s: &mut String, other: &str)
    ensures
        final(s)@ == old(s)@ + other@,
;

/// What `str::to_lowercase` returns: the Unicode lower case of a text.
pub uninterp spec fn unicode_lowercase(s: Seq<char>) -> Seq<char>;

/// Calls `str::to_lowercase`. Claims only that the result depends on the text alone.
#[verifier::external_body]
pub(crate) fn to_lowercase(s: &str) -> (r: String)
    ensures
        r@ == unicode_lowercase(s@),
{
    s.to_lowercase()
}

/// Calls `std::str::from_utf8`: a text where the bytes are valid UTF-8, nothing otherwise.
#[verifier::external_body]
pub(crate) fn utf8_text(bytes: &[u8]) -> (r: Option<String>)
    ensures
        match r {
            Some(s) => vstd::utf8::valid_utf8(bytes@) && s@ == vstd::utf8::decode_utf8(bytes@),
            None => !vstd::utf8::valid_utf8(bytes@),
        },
{
    match std::str::from_utf8(bytes) {
        Ok(s) => Some(s.to_string()),
        Err(_) => None,
    }
}

/// What `String::from_utf8_lossy` makes of bytes.
pub uninterp spec fn lossy_utf8(bytes: Seq<u8>) -> Seq<char>;

/// Calls `String::from_utf8_lossy`. Claims that the text depends on the bytes alone, and is
/// the one that valid UTF-8 stands for.
#[verifier::external_body]
pub(crate) fn lossy_text(bytes: &[u8]) -> (r: String)
    ensures
        r@ == lossy_utf8(bytes@),
        vstd::utf8::valid_utf8(bytes@) ==> r@ == vstd::utf8::decode_utf8(bytes@),
{
    String::from_utf8_lossy(bytes).into_owned()
}

/// The views of the elements of a vector of strings.
pub open spec fn string_views(v: Seq<String>) -> Seq<Seq<char>> {
    v.map_values(|s: String| s@)
}

/// The view of an optional string.
pub open spec fn option_view(v: Option<String>) -> Option<Seq<char>> {
    match v {
        Some(s) => Some(s@),
        None => None,
    }
}

/// The views of the elements of a vector of character vectors.
pub open spec fn char_views(v: Seq<Vec<char>>) -> Seq<Seq<char>> {
    v.map_values(|s: Vec<char>| s@)
}

/// The characters with the Unicode property White_Space.
pub open spec fn is_white_space(c: char) -> bool {
    ||| '\u{9}' <= c <= '\u{d}'
    ||| c == ' '
    ||| c == '\u{85}'
    ||| c == '\u{a0}'
    ||| c == '\u{1680}'
    ||| '\u{2000}' <= c <= '\u{200a}'
    ||| c == '\u{2028}'
    ||| c == '\u{2029}'
    ||| c == '\u{202f}'
    ||| c == '\u{205f}'
    ||| c == '\u{3000}'
}

/// Decides `is_white_space`.
pub fn white_space(c: char) -> (r: bool)
    ensures
        r == is_white_space(c),
{
    ('\u{9}' <= c && c <= '\u{d}') || c == ' ' || c == '\u{85}' || c == '\u{a0}' || c == '\u{1680}'
        || ('\u{2000}' <= c && c <= '\u{200a}') || c == '\u{2028}' || c == '\u{2029}'
        || c == '\u{202f}' || c == '\u{205f}' || c == '\u{3000}'
}

/// The ASCII decimal digits.
pub open spec fn is_ascii_digit(c: char) -> bool {
    '0' <= c <= '9'
}

/// The ASCII hexadecimal digits.
pub open spec fn is_ascii_hexdigit(c: char) -> bool {
    '0' <= c <= '9' || 'a' <= c <= 'f' || 'A' <= c <= 'F'
}

/// The ASCII letters and digits.
pub open spec fn is_ascii_alphanumeric(c: char) -> bool {
    '0' <= c <= '9' || 'a' <= c <= 'z' || 'A' <= c <= 'Z'
}

/// Lower case of an ASCII letter; any other character is unchanged.
pub open spec fn ascii_lower_char(c: char) -> char {
    if 'A' <= c <= 'Z' {
        (c as u32 + 32) as char
    } else {
        c
    }
}

/// ASCII lower case, character by character.
pub open spec fn ascii_lower(s: Seq<char>) -> Seq<char> {
    s.map_values(|c: char| ascii_lower_char(c))
}

/// `s` without its leading white space.
pub open spec fn trim_start(s: Seq<char>) -> Seq<char>
    decreases s.len(),
{
    if s.len() > 0 && is_white_space(s[0]) {
        trim_start(s.drop_first())
    } else {
        s
    }
}

/// `s` without its trailing white space.
pub open spec fn trim_end(s: Seq<char>) -> Seq<char>
    decreases s.len(),
{
    if s.len() > 0 && is_white_space(s.last()) {
        trim_end(s.drop_last())
    } else {
        s
    }
}

/// `s` without leading and trailing white space.
pub open spec fn trim(s: Seq<char>) -> Seq<char> {
    trim_end(trim_start(s))
}

/// Whether `t` stands in `s` at position `i`.
pub open spec fn stands_at(s: Seq<char>, t: Seq<char>, i: int) -> bool {
    0 <= i && i + t.len() <= s.len() && s.subrange(i, i + t.len()) == t
}

/// Whether `t` stands somewhere in `s`.
pub open spec fn has_sub(s: Seq<char>, t: Seq<char>) -> bool {
    exists|i: int| stands_at(s, t, i)
}

/// Whether `t` begins `s`.
pub open spec fn has_prefix(s: Seq<char>, t: Seq<char>) -> bool {
    stands_at(s, t, 0)
}

/// Whether `t` ends `s`.
pub open spec fn has_suffix(s: Seq<char>, t: Seq<char>) -> bool {
    stands_at(s, t, s.len() - t.len())
}

/// The position of the first `c` in `s`, or the length of `s` where there is none.
pub open spec fn first_index(s: Seq<char>, c: char) -> int
    decreases s.len(),
{
    if s.len() == 0 || s[0] == c {
        0
    } else {
        1 + first_index(s.drop_first(), c)
    }
}

pub proof fn lemma_first_index(s: Seq<char>, c: char)
    ensures
        0 <= first_index(s, c) <= s.len(),
        forall|j: int| 0 <= j < first_index(s, c) ==> s[j] != c,
        first_index(s, c) < s.len() ==> s[first_index(s, c)] == c,
        first_index(s, c) == s.len() <==> !s.contains(c),
    decreases s.len(),
{
    if s.len() > 0 && s[0] != c {
        let t = s.drop_first();
        lemma_first_index(t, c);
        assert forall|j: int| 0 <= j < first_index(s, c) implies s[j] != c by {
            if j > 0 {
                assert(s[j] == t[j - 1]);
            }
        }
        if first_index(s, c) < s.len() {
            assert(s[first_index(s, c)] == t[first_index(t, c)]);
        }
    }
}

/// A position before which no `c` stands and at which one stands, or the end, is the first index.
pub proof fn lemma_first_index_is(s: Seq<char>, c: char, i: int)
    requires
        0 <= i <= s.len(),
        forall|j: int| 0 <= j < i ==> s[j] != c,
        i < s.len() ==> s[i] == c,
    ensures
        first_index(s, c) == i,
{
    lemma_first_index(s, c);
}

/// The pieces of `s` between the occurrences of `c`: one more than there are occurrences.
pub open spec fn split_on(s: Seq<char>, c: char) -> Seq<Seq<char>>
    decreases s.len(),
{
    let i = first_index(s, c);
    if 0 <= i < s.len() {
        seq![s.take(i)] + split_on(s.skip(i + 1), c)
    } else {
        seq![s]
    }
}

/// The lines of `s`, each with the newline that ends it.
pub open spec fn lines_inclusive(s: Seq<char>) -> Seq<Seq<char>>
    decreases s.len(),
{
    let i = first_index(s, '\n');
    if s.len() == 0 {
        Seq::empty()
    } else if 0 <= i < s.len() {
        seq![s.take(i + 1)] + lines_inclusive(s.skip(i + 1))
    } else {
        seq![s]
    }
}

/// A line without its ending: a final newline, and a carriage return before that newline.
pub open spec fn without_line_ending(line: Seq<char>) -> Seq<char> {
    if line.len() > 0 && line.last() == '\n' {
        if line.len() > 1 && line[line.len() - 2] == '\r' {
            line.take(line.len() - 2)
        } else {
            line.drop_last()
        }
    } else {
        line
    }
}

/// The lines of `s` without their endings, as `str::lines` yields them.
pub open spec fn text_lines(s: Seq<char>) -> Seq<Seq<char>> {
    lines_inclusive(s).map_values(|l: Seq<char>| without_line_ending(l))
}

/// The number of characters of `s` before its first white space.
pub open spec fn word_len(s: Seq<char>) -> int
    decreases s.len(),
{
    if s.len() == 0 || is_white_space(s[0]) {
        0
    } else {
        1 + word_len(s.drop_first())
    }
}

pub proof fn lemma_word_len(s: Seq<char>)
    ensures
        0 <= word_len(s) <= s.len(),
        forall|j: int| 0 <= j < word_len(s) ==> !is_white_space(s[j]),
        word_len(s) < s.len() ==> is_white_space(s[word_len(s)]),
    decreases s.len(),
{
    if s.len() > 0 && !is_white_space(s[0]) {
        let t = s.drop_first();
        lemma_word_len(t);
        assert forall|j: int| 0 <= j < word_len(s) implies !is_white_space(s[j]) by {
            if j > 0 {
                assert(s[j] == t[j - 1]);
            }
        }
        if word_len(s) < s.len() {
            assert(s[word_len(s)] == t[word_len(t)]);
        }
    }
}

pub proof fn lemma_trim_start_len(s: Seq<char>)
    ensures
        trim_start(s).len() <= s.len(),
        trim_start(s).len() > 0 ==> !is_white_space(trim_start(s)[0]),
        trim_start(s) == s.skip(s.len() - trim_start(s).len()),
    decreases s.len(),
{
    if s.len() > 0 && is_white_space(s[0]) {
        lemma_trim_start_len(s.drop_first());
        let n = trim_start(s).len();
        assert(s.drop_first().skip(s.len() - 1 - n) =~= s.skip(s.len() - n));
    } else {
        assert(s.skip(0) =~= s);
    }
}

/// The words of `s`: its maximal runs without white space.
pub open spec fn words(s: Seq<char>) -> Seq<Seq<char>>
    decreases s.len(),
    via words_decreases
{
    let t = trim_start(s);
    if t.len() == 0 {
        Seq::empty()
    } else {
        seq![t.take(word_len(t))] + words(t.skip(word_len(t)))
    }
}

#[via_fn]
proof fn words_decreases(s: Seq<char>) {
    lemma_trim_start_len(s);
    lemma_word_len(trim_start(s));
}

/// The parts in order, with `sep` between neighbours.
pub open spec fn join(parts: Seq<Seq<char>>, sep: Seq<char>) -> Seq<char>
    decreases parts.len(),
{
    if parts.len() == 0 {
        Seq::empty()
    } else if parts.len() == 1 {
        parts[0]
    } else {
        join(parts.drop_last(), sep) + sep + parts.last()
    }
}

/// The parts in order, with nothing between them.
pub open spec fn concat(parts: Seq<Seq<char>>) -> Seq<char>
    decreases parts.len(),
{
    if parts.len() == 0 {
        Seq::empty()
    } else {
        concat(parts.drop_last()) + parts.last()
    }
}

/// `n` copies of `c`.
pub open spec fn repeat_char(c: char, n: nat) -> Seq<char> {
    Seq::new(n, |i: int| c)
}

/// `s` with each occurrence of `from`, found from the left, replaced by `to`.
pub open spec fn replace_all(s: Seq<char>, from: Seq<char>, to: Seq<char>) -> Seq<char>
    decreases s.len(),
{
    if from.len() == 0 || s.len() == 0 {
        s
    } else if has_prefix(s, from) {
        to + replace_all(s.skip(from.len() as int), from, to)
    } else {
        seq![s[0]] + replace_all(s.drop_first(), from, to)
    }
}

/// The character of a decimal digit.
pub open spec fn digit_char(d: nat) -> char {
    (d + 48) as char
}

/// The decimal notation of a natural number.
pub open spec fn decimal(n: nat) -> Seq<char>
    decreases n,
{
    if n < 10 {
        seq![digit_char(n)]
    } else {
        decimal(n / 10).push(digit_char(n % 10))
    }
}

/// The decimal notation of an integer.
pub open spec fn decimal_int(n: int) -> Seq<char> {
    if n < 0 {
        seq!['-'] + decimal((-n) as nat)
    } else {
        decimal(n as nat)
    }
}

/// The characters of `s`, in order.
pub fn chars_of(s: &str) -> (r: Vec<char>)
    ensures
        r@ == s@,
{
    let mut r: Vec<char> = Vec::new();
    for c in it: s.chars()
        invariant
            r@ == it.seq().take(it.index() as int),
            it.seq() == s@,
    {
        r.push(c);
    }
    r
}

/// The string made of `chars`.
pub fn string_of(chars: &[char]) -> (r: String)
    ensures
        r@ == chars@,
{
    let mut r = String::new();
    let mut i: usize = 0;
    while i < chars.len()
        invariant
            i <= chars.len(),
            r@ == chars@.take(i as int),
        decreases chars.len() - i,
    {
        r.push(chars[i]);
        i = i + 1;
    }
    r
}

/// The string made of the characters of `chars` from `from` up to `to`.
pub fn string_of_range(chars: &[char], from: usize, to: usize) -> (r: String)
    requires
        from <= to <= chars@.len(),
    ensures
        r@ == chars@.subrange(from as int, to as int),
{
    string_of(vstd::slice::slice_subrange(chars, from, to))
}

/// A copy of the characters of `chars` from `from` up to `to`.
pub fn sub_vec(chars: &[char], from: usize, to: usize) -> (r: Vec<char>)
    requires
        from <= to <= chars@.len(),
    ensures
        r@ == chars@.subrange(from as int, to as int),
{
    let mut r: Vec<char> = Vec::new();
    let mut i: usize = from;
    while i < to
        invariant
            from <= i <= to <= chars@.len(),
            r@ == chars@.subrange(from as int, i as int),
        decreases to - i,
    {
        r.push(chars[i]);
        i = i + 1;
    }
    r
}

/// Appends `other` to `out`.
pub fn extend(out: &mut Vec<char>, other: &[char])
    ensures
        final(out)@ == old(out)@ + other@,
{
    let mut i: usize = 0;
    while i < other.len()
        invariant
            i <= other.len(),
            out@ == old(out)@ + other@.take(i as int),
        decreases other.len() - i,
    {
        out.push(other[i]);
        i = i + 1;
    }
    assert(other@.take(i as int) =~= other@);
}

/// Whether two character sequences are the same.
pub fn eq_chars(a: &[char], b: &[char]) -> (r: bool)
    ensures
        r == (a@ == b@),
{
    if a.len() != b.len() {
        return false;
    }
    let mut i: usize = 0;
    while i < a.len()
        invariant
            i <= a.len(),
            a.len() == b.len(),
            forall|j: int| 0 <= j < i ==> a@[j] == b@[j],
        decreases a.len() - i,
    {
        if a[i] != b[i] {
            return false;
        }
        i = i + 1;
    }
    assert(a@ =~= b@);
    true
}

/// Whether `a` is the text `b`.
pub fn eq_str(a: &[char], b: &str) -> (r: bool)
    ensures
        r == (a@ == b@),
{
    let chars = chars_of(b);
    eq_chars(a, chars.as_slice())
}

/// Whether two texts are the same.
pub fn same_str(a: &str, b: &str) -> (r: bool)
    ensures
        r == (a@ == b@),
{
    let chars = chars_of(a);
    eq_str(chars.as_slice(), b)
}

/// Whether `t` stands in `s` at position `i`.
pub fn sub_at(s: &[char], t: &[char], i: usize) -> (r: bool)
    requires
        i <= s@.len(),
    ensures
        r == stands_at(s@, t@, i as int),
{
    if t.len() > s.len() - i {
        return false;
    }
    let mut j: usize = 0;
    while j < t.len()
        invariant
            j <= t.len(),
            i + t.len() <= s.len(),
            forall|k: int| 0 <= k < j ==> s@[i + k] == t@[k],
        decreases t.len() - j,
    {
        if s[i + j] != t[j] {
            assert(s@.subrange(i as int, i + t@.len())[j as int] != t@[j as int]);
            return false;
        }
        j = j + 1;
    }
    assert(s@.subrange(i as int, i + t@.len()) =~= t@);
    true
}

/// The first position from `start` on at which `t` stands in `s`.
pub fn find_sub(s: &[char], t: &[char], start: usize) -> (r: Option<usize>)
    requires
        start <= s@.len(),
    ensures
        match r {
            Some(i) => start <= i && stands_at(s@, t@, i as int) && forall|j: int|
                start <= j < i ==> !stands_at(s@, t@, j),
            None => forall|j: int| start <= j ==> !stands_at(s@, t@, j),
        },
{
    let mut i: usize = start;
    loop
        invariant
            start <= i <= s@.len(),
            forall|j: int| start <= j < i ==> !stands_at(s@, t@, j),
        decreases s@.len() - i,
    {
        if sub_at(s, t, i) {
            return Some(i);
        }
        if i == s.len() {
            return None;
        }
        i = i + 1;
    }
}

/// Whether `t` stands somewhere in `s`.
pub fn contains_sub(s: &[char], t: &[char]) -> (r: bool)
    ensures
        r == has_sub(s@, t@),
{
    match find_sub(s, t, 0) {
        Some(i) => {
            assert(stands_at(s@, t@, i as int));
            true
        },
        None => false,
    }
}

/// Whether the text `t` stands somewhere in `s`.
pub fn contains_str(s: &[char], t: &str) -> (r: bool)
    ensures
        r == has_sub(s@, t@),
{
    let chars = chars_of(t);
    contains_sub(s, chars.as_slice())
}

/// Whether `c` stands somewhere in `s`.
pub fn contains_char(s: &[char], c: char) -> (r: bool)
    ensures
        r == s@.contains(c),
{
    let mut i: usize = 0;
    while i < s.len()
        invariant
            i <= s.len(),
            forall|j: int| 0 <= j < i ==> s@[j] != c,
        decreases s.len() - i,
    {
        if s[i] == c {
            return true;
        }
        i = i + 1;
    }
    false
}

/// Whether the text `t` begins `s`.
pub fn starts_with(s: &[char], t: &str) -> (r: bool)
    ensures
        r == has_prefix(s@, t@),
{
    let chars = chars_of(t);
    sub_at(s, chars.as_slice(), 0)
}

/// Whether the text `t` ends `s`.
pub fn ends_with(s: &[char], t: &str) -> (r: bool)
    ensures
        r == has_suffix(s@, t@),
{
    let chars = chars_of(t);
    if chars.len() > s.len() {
        return false;
    }
    sub_at(s, chars.as_slice(), s.len() - chars.len())
}

/// The position of the first `c` in `s` from `start` on, or the length of `s`.
pub fn index_from(s: &[char], c: char, start: usize) -> (r: usize)
    requires
        start <= s@.len(),
    ensures
        start <= r <= s@.len(),
        r == start + first_index(s@.skip(start as int), c),
{
    let mut i: usize = start;
    while i < s.len() && s[i] != c
        invariant
            start <= i <= s.len(),
            forall|j: int| start <= j < i ==> s@[j] != c,
        decreases s.len() - i,
    {
        i = i + 1;
    }
    proof {
        let t = s@.skip(start as int);
        assert forall|j: int| 0 <= j < i - start implies t[j] != c by {
            assert(t[j] == s@[start + j]);
        }
        if i < s.len() {
            assert(t[i - start] == s@[i as int]);
        }
        lemma_first_index_is(t, c, i - start);
    }
    i
}

/// ASCII lower case of one character.
pub fn lower_char(c: char) -> (r: char)
    ensures
        r == ascii_lower_char(c),
{
    if 'A' <= c && c <= 'Z' {
        ((c as u8) + 32) as char
    } else {
        c
    }
}

/// ASCII lower case of a text.
pub fn to_ascii_lower(s: &[char]) -> (r: Vec<char>)
    ensures
        r@ == ascii_lower(s@),
{
    let mut r: Vec<char> = Vec::new();
    let mut i: usize = 0;
    while i < s.len()
        invariant
            i <= s.len(),
            r@ == ascii_lower(s@.take(i as int)),
        decreases s.len() - i,
    {
        r.push(lower_char(s[i]));
        i = i + 1;
        assert(r@ =~= ascii_lower(s@.take(i as int)));
    }
    assert(s@.take(i as int) =~= s@);
    r
}

/// The bounds of `s` without leading and trailing white space.
pub fn trim_bounds(s: &[char]) -> (r: (usize, usize))
    ensures
        r.0 <= r.1 <= s@.len(),
        s@.subrange(r.0 as int, r.1 as int) == trim(s@),
{
    let mut from: usize = 0;
    assert(s@.skip(0) =~= s@);
    while from < s.len() && white_space(s[from])
        invariant
            from <= s.len(),
            trim_start(s@.skip(from as int)) == trim_start(s@),
        decreases s.len() - from,
    {
        assert(s@.skip(from as int).drop_first() =~= s@.skip(from + 1));
        from = from + 1;
    }
    let mut to: usize = s.len();
    assert(s@.skip(from as int) =~= s@.subrange(from as int, to as int));
    while to > from && white_space(s[to - 1])
        invariant
            from <= to <= s.len(),
            trim_end(s@.subrange(from as int, to as int)) == trim(s@),
        decreases to - from,
    {
        assert(s@.subrange(from as int, to as int).drop_last() =~= s@.subrange(
            from as int,
            to - 1,
        ));
        to = to - 1;
    }
    (from, to)
}

/// `s` without leading and trailing white space.
pub fn trimmed(s: &[char]) -> (r: Vec<char>)
    ensures
        r@ == trim(s@),
{
    let (from, to) = trim_bounds(s);
    sub_vec(s, from, to)
}

/// The text `s` without leading and trailing white space.
pub fn trim_str(s: &str) -> (r: String)
    ensures
        r@ == trim(s@),
{
    let chars = chars_of(s);
    let (from, to) = trim_bounds(chars.as_slice());
    string_of_range(chars.as_slice(), from, to)
}

/// Whether nothing but white space stands in `s`.
pub fn is_blank(s: &[char]) -> (r: bool)
    ensures
        r == (trim(s@).len() == 0),
{
    let (from, to) = trim_bounds(s);
    from == to
}

/// The pieces of `s` between the occurrences of `c`.
pub fn split_chars(s: &[char], c: char) -> (r: Vec<Vec<char>>)
    ensures
        char_views(r@) == split_on(s@, c),
{
    let mut r: Vec<Vec<char>> = Vec::new();
    let mut start: usize = 0;
    assert(s@.skip(0) =~= s@);
    assert(char_views(r@) + split_on(s@.skip(0), c) =~= split_on(s@, c));
    loop
        invariant
            start <= s@.len(),
            char_views(r@) + split_on(s@.skip(start as int), c) == split_on(s@, c),
        decreases s@.len() - start,
    {
        let end = index_from(s, c, start);
        let ghost before = r@;
        let ghost rest = s@.skip(start as int);
        r.push(sub_vec(s, start, end));
        assert(char_views(r@) =~= char_views(before).push(s@.subrange(start as int, end as int)));
        if end == s.len() {
            assert(s@.subrange(start as int, end as int) =~= rest);
            assert(char_views(r@) =~= split_on(s@, c));
            return r;
        }
        proof {
            let i = end - start;
            assert(rest.take(i) =~= s@.subrange(start as int, end as int));
            assert(rest.skip(i + 1) =~= s@.skip(end + 1));
            assert(char_views(r@) + split_on(s@.skip(end + 1), c) =~= split_on(s@, c));
        }
        start = end + 1;
    }
}

/// The lines of `s`, each with the newline that ends it.
pub fn split_lines_inclusive(s: &[char]) -> (r: Vec<Vec<char>>)
    ensures
        char_views(r@) == lines_inclusive(s@),
{
    let mut r: Vec<Vec<char>> = Vec::new();
    let mut start: usize = 0;
    assert(s@.skip(0) =~= s@);
    assert(char_views(r@) + lines_inclusive(s@.skip(0)) =~= lines_inclusive(s@));
    while start < s.len()
        invariant
            start <= s@.len(),
            char_views(r@) + lines_inclusive(s@.skip(start as int)) == lines_inclusive(s@),
        decreases s@.len() - start,
    {
        let newline = index_from(s, '\n', start);
        let end: usize = if newline < s.len() {
            newline + 1
        } else {
            newline
        };
        let ghost before = r@;
        let ghost rest = s@.skip(start as int);
        r.push(sub_vec(s, start, end));
        proof {
            assert(char_views(r@) =~= char_views(before).push(
                s@.subrange(start as int, end as int),
            ));
            assert(rest.take(end - start) =~= s@.subrange(start as int, end as int));
            assert(rest.skip(end - start) =~= s@.skip(end as int));
            if newline == s.len() {
                assert(rest.take(end - start) =~= rest);
                assert(lines_inclusive(s@.skip(end as int)) =~= Seq::<Seq<char>>::empty());
            }
            assert(char_views(r@) + lines_inclusive(s@.skip(end as int)) =~= lines_inclusive(s@));
        }
        start = end;
    }
    proof {
        assert(lines_inclusive(s@.skip(start as int)) =~= Seq::<Seq<char>>::empty());
        assert(char_views(r@) =~= lines_inclusive(s@));
    }
    r
}

/// The lines of `s` without their endings.
pub fn lines_of(s: &[char]) -> (r: Vec<Vec<char>>)
    ensures
        char_views(r@) == text_lines(s@),
{
    let lines = split_lines_inclusive(s);
    let mut r: Vec<Vec<char>> = Vec::new();
    let mut i: usize = 0;
    while i < lines.len()
        invariant
            i <= lines.len(),
            char_views(lines@) == lines_inclusive(s@),
            char_views(r@) == text_lines(s@).take(i as int),
        decreases lines.len() - i,
    {
        let line = &lines[i];
        let n = line.len();
        let keep: usize = if n > 0 && line[n - 1] == '\n' {
            if n > 1 && line[n - 2] == '\r' {
                n - 2
            } else {
                n - 1
            }
        } else {
            n
        };
        let ghost before = r@;
        r.push(sub_vec(line.as_slice(), 0, keep));
        proof {
            assert(lines_inclusive(s@)[i as int] == line@);
            assert(line@.subrange(0, keep as int) =~= without_line_ending(line@));
            assert(char_views(r@) =~= char_views(before).push(without_line_ending(line@)));
        }
        i = i + 1;
        assert(char_views(r@) =~= text_lines(s@).take(i as int));
    }
    assert(text_lines(s@).take(i as int) =~= text_lines(s@));
    r
}

/// The words of `s`.
pub fn words_of(s: &[char]) -> (r: Vec<Vec<char>>)
    ensures
        char_views(r@) == words(s@),
{
    let mut r: Vec<Vec<char>> = Vec::new();
    let mut start: usize = 0;
    assert(s@.skip(0) =~= s@);
    assert(char_views(r@) + words(s@.skip(0)) =~= words(s@));
    loop
        invariant
            start <= s@.len(),
            char_views(r@) + words(s@.skip(start as int)) == words(s@),
        decreases s@.len() - start,
    {
        let ghost rest = s@.skip(start as int);
        let mut from: usize = start;
        while from < s.len() && white_space(s[from])
            invariant
                start <= from <= s.len(),
                rest == s@.skip(start as int),
                trim_start(s@.skip(from as int)) == trim_start(rest),
            decreases s.len() - from,
        {
            assert(s@.skip(from as int).drop_first() =~= s@.skip(from + 1));
            from = from + 1;
        }
        let ghost t = s@.skip(from as int);
        assert(trim_start(rest) == t);
        if from == s.len() {
            assert(words(rest) =~= Seq::<Seq<char>>::empty());
            assert(char_views(r@) =~= words(s@));
            return r;
        }
        let mut to: usize = from;
        while to < s.len() && !white_space(s[to])
            invariant
                from <= to <= s.len(),
                t == s@.skip(from as int),
                word_len(t) == (to - from) + word_len(s@.skip(to as int)),
            decreases s.len() - to,
        {
            assert(s@.skip(to as int).drop_first() =~= s@.skip(to + 1));
            to = to + 1;
        }
        let ghost before = r@;
        r.push(sub_vec(s, from, to));
        proof {
            assert(word_len(t) == to - from);
            lemma_word_len(t);
            assert(t[0] == s@[from as int]);
            assert(char_views(r@) =~= char_views(before).push(s@.subrange(from as int, to as int)));
            assert(t.take(word_len(t)) =~= s@.subrange(from as int, to as int));
            assert(t.skip(word_len(t)) =~= s@.skip(to as int));
            assert(char_views(r@) + words(s@.skip(to as int)) =~= words(s@));
        }
        start = to;
    }
}

/// `n` copies of `c`, as a string.
pub fn repeated(c: char, n: usize) -> (r: String)
    ensures
        r@ == repeat_char(c, n as nat),
{
    let mut r = String::new();
    let mut i: usize = 0;
    while i < n
        invariant
            i <= n,
            r@ == repeat_char(c, i as nat),
        decreases n - i,
    {
        r.push(c);
        i = i + 1;
        assert(r@ =~= repeat_char(c, i as nat));
    }
    r
}

/// The strings in order, with `sep` between neighbours.
pub fn join_strings(parts: &[String], sep: &str) -> (r: String)
    ensures
        r@ == join(string_views(parts@), sep@),
{
    let mut r = String::new();
    let mut i: usize = 0;
    while i < parts.len()
        invariant
            i <= parts.len(),
            r@ == join(string_views(parts@).take(i as int), sep@),
        decreases parts.len() - i,
    {
        if i > 0 {
            r.push_str(sep);
        }
        r.push_str(parts[i].as_str());
        proof {
            let next = string_views(parts@).take(i + 1);
            assert(next.drop_last() =~= string_views(parts@).take(i as int));
            if i == 0 {
                assert(r@ =~= next[0]);
            }
        }
        i = i + 1;
    }
    assert(string_views(parts@).take(i as int) =~= string_views(parts@));
    r
}

/// `s` with each occurrence of `from` replaced by `to`.
pub fn replace_str(s: &[char], from: &[char], to: &[char]) -> (r: Vec<char>)
    requires
        from@.len() > 0,
    ensures
        r@ == replace_all(s@, from@, to@),
{
    let mut r: Vec<char> = Vec::new();
    let mut i: usize = 0;
    assert(s@.skip(0) =~= s@);
    assert(r@ + replace_all(s@, from@, to@) =~= replace_all(s@, from@, to@));
    while i < s.len()
        invariant
            i <= s.len(),
            from@.len() > 0,
            r@ + replace_all(s@.skip(i as int), from@, to@) == replace_all(s@, from@, to@),
        decreases s.len() - i,
    {
        let ghost rest = s@.skip(i as int);
        let found = sub_at(s, from, i);
        let ghost before = r@;
        proof {
            if i + from@.len() <= s@.len() {
                assert(rest.subrange(0, from@.len() as int) =~= s@.subrange(
                    i as int,
                    i + from@.len(),
                ));
            }
            assert(has_prefix(rest, from@) == found);
        }
        if found {
            extend(&mut r, to);
            proof {
                assert(rest.skip(from@.len() as int) =~= s@.skip(i + from@.len()));
                assert(r@ + replace_all(s@.skip(i + from@.len()), from@, to@) =~= before + (to@
                    + replace_all(s@.skip(i + from@.len()), from@, to@)));
            }
            i = i + from.len();
        } else {
            r.push(s[i]);
            proof {
                assert(rest.drop_first() =~= s@.skip(i + 1));
                assert(r@ + replace_all(s@.skip(i + 1), from@, to@) =~= before + (seq![rest[0]]
                    + replace_all(s@.skip(i + 1), from@, to@)));
            }
            i = i + 1;
        }
    }
    assert(replace_all(s@.skip(i as int), from@, to@) =~= Seq::<char>::empty());
    assert(r@ =~= replace_all(s@, from@, to@));
    r
}

/// The character of a decimal digit.
pub fn digit(d: u64) -> (r: char)
    requires
        d < 10,
    ensures
        r == digit_char(d as nat),
{
    ((d as u8) + 48) as char
}

/// The decimal notation of `n`.
pub fn decimal_u64(n: u64) -> (r: String)
    ensures
        r@ == decimal(n as nat),
    decreases n,
{
    if n < 10 {
        let mut r = String::new();
        r.push(digit(n));
        assert(r@ =~= decimal(n as nat));
        r
    } else {
        let mut r = decimal_u64(n / 10);
        r.push(digit(n % 10));
        r
    }
}

/// The decimal notation of `n`.
pub fn decimal_u128(n: u128) -> (r: String)
    ensures
        r@ == decimal(n as nat),
    decreases n,
{
    if n < 10 {
        let mut r = String::new();
        r.push(digit(n as u64));
        assert(r@ =~= decimal(n as nat));
        r
    } else {
        let mut r = decimal_u128(n / 10);
        r.push(digit((n % 10) as u64));
        r
    }
}

/// The decimal notation of `n`.
pub fn decimal_i64(n: i64) -> (r: String)
    ensures
        r@ == decimal_int(n as int),
{
    if n < 0 {
        let mut r = String::new();
        r.push('-');
        let magnitude: u64 = if n == i64::MIN {
            9223372036854775808u64
        } else {
            (-n) as u64
        };
        let digits = decimal_u64(magnitude);
        r.push_str(digits.as_str());
        assert(r@ =~= seq!['-'] + decimal(magnitude as nat));
        r
    } else {
        decimal_u64(n as u64)
    }
}

/// The last `k` hexadecimal digits of a number.
pub open spec fn hex_digits(n: nat, k: nat) -> Seq<char>
    decreases k,
{
    if k == 0 {
        Seq::empty()
    } else {
        hex_digits(n / 16, (k - 1) as nat).push("0123456789abcdef"@[(n % 16) as int])
    }
}

/// The value of a hexadecimal digit.
pub open spec fn hex_digit(c: char) -> nat {
    if '0' <= c <= '9' {
        (c as nat - '0' as nat) as nat
    } else if 'a' <= c <= 'f' {
        (c as nat - 'a' as nat + 10) as nat
    } else if 'A' <= c <= 'F' {
        (c as nat - 'A' as nat + 10) as nat
    } else {
        0
    }
}

/// The value of a hexadecimal notation.
pub open spec fn hex_value(s: Seq<char>) -> nat
    decreases s.len(),
{
    if s.len() == 0 {
        0
    } else {
        hex_value(s.drop_last()) * 16 + hex_digit(s.last())
    }
}

/// The value of a hexadecimal digit.
pub fn hex_digit_of(c: char) -> (r: u8)
    requires
        is_ascii_hexdigit(c),
    ensures
        r as nat == hex_digit(c),
        r < 16,
{
    if '0' <= c && c <= '9' {
        (c as u8) - 48
    } else if 'a' <= c && c <= 'f' {
        (c as u8) - 87
    } else {
        (c as u8) - 55
    }
}

/// Whether every character is a decimal digit.
pub open spec fn all_digits(s: Seq<char>) -> bool {
    forall|i: int| 0 <= i < s.len() ==> is_ascii_digit(#[trigger] s[i])
}

/// A decimal notation is made of digits.
pub proof fn lemma_decimal_is_digits(n: nat)
    ensures
        all_digits(decimal(n)),
        decimal(n).len() > 0,
    decreases n,
{
    if n >= 10 {
        lemma_decimal_is_digits(n / 10);
        let d = decimal(n);
        assert forall|i: int| 0 <= i < d.len() implies is_ascii_digit(#[trigger] d[i]) by {
            if i < d.len() - 1 {
                assert(d[i] == decimal(n / 10)[i]);
            }
        }
    }
}

/// The value of a decimal notation.
pub open spec fn decimal_value(s: Seq<char>) -> nat
    decreases s.len(),
{
    if s.len() == 0 {
        0
    } else {
        decimal_value(s.drop_last()) * 10 + (s.last() as nat - '0' as nat) as nat
    }
}

/// A text without a leading plus sign.
pub open spec fn without_plus(s: Seq<char>) -> Seq<char> {
    if s.len() > 0 && s[0] == '+' {
        s.drop_first()
    } else {
        s
    }
}

/// The unsigned number that a text is a notation of: decimal digits, with an optional
/// plus sign before them, of a value that fits.
pub open spec fn parsed_u64(s: Seq<char>) -> Option<u64> {
    let digits = without_plus(s);
    if digits.len() > 0 && all_digits(digits) && decimal_value(digits) <= u64::MAX {
        Some(decimal_value(digits) as u64)
    } else {
        None
    }
}

/// The unsigned number that a text is a notation of.
pub fn parse_u64(s: &str) -> (r: Option<u64>)
    ensures
        r == parsed_u64(s@),
{
    let c = chars_of(s);
    let from: usize = if c.len() > 0 && c[0] == '+' {
        1
    } else {
        0
    };
    let d = sub_vec(c.as_slice(), from, c.len());
    proof {
        if from == 1 {
            assert(d@ =~= s@.drop_first());
        } else {
            assert(d@ =~= s@);
        }
    }
    if d.len() == 0 {
        return None;
    }
    let mut value: u64 = 0;
    let mut fits = true;
    let mut i: usize = 0;
    while i < d.len()
        invariant
            i <= d.len(),
            d@ == without_plus(s@),
            forall|j: int| 0 <= j < i ==> is_ascii_digit(#[trigger] d@[j]),
            fits ==> value == decimal_value(d@.take(i as int)),
            !fits ==> decimal_value(d@.take(i as int)) > u64::MAX,
        decreases d.len() - i,
    {
        let x = d[i];
        if !('0' <= x && x <= '9') {
            assert(!is_ascii_digit(d@[i as int]));
            return None;
        }
        assert(d@.take(i + 1).drop_last() =~= d@.take(i as int));
        if fits {
            let digit: u64 = ((x as u8) - 48) as u64;
            if value > 1844674407370955161u64 || (value == 1844674407370955161u64 && digit > 5) {
                fits = false;
            } else {
                value = value * 10 + digit;
            }
        }
        i = i + 1;
    }
    assert(d@.take(i as int) =~= d@);
    if fits {
        Some(value)
    } else {
        None
    }
}

/// Reading a decimal notation gives back the number it was written for.
pub proof fn decimal_round_trip(n: nat)
    ensures
        decimal_value(decimal(n)) == n,
        n <= u64::MAX ==> parsed_u64(decimal(n)) == Some(n as u64),
    decreases n,
{
    lemma_decimal_is_digits(n);
    assert(is_ascii_digit(decimal(n)[0]));
    if n >= 10 {
        decimal_round_trip(n / 10);
        assert(decimal(n).drop_last() =~= decimal(n / 10));
    } else {
        assert(decimal(n).drop_last() =~= Seq::<char>::empty());
        assert(decimal_value(decimal(n).drop_last()) == 0);
    }
}

/// A copy of an optional string.
pub fn clone_option(s: &Option<String>) -> (r: Option<String>)
    ensures
        r == *s,
{
    match s {
        Some(v) => Some(v.clone()),
        None => None,
    }
}

/// A copy of a list of strings.
pub fn clone_strings(v: &[String]) -> (r: Vec<String>)
    ensures
        r@ == v@,
{
    let mut r: Vec<String> = Vec::new();
    let mut i: usize = 0;
    while i < v.len()
        invariant
            i <= v.len(),
            r@ == v@.take(i as int),
        decreases v.len() - i,
    {
        r.push(v[i].clone());
        i = i + 1;
        assert(r@ =~= v@.take(i as int));
    }
    assert(v@.take(i as int) =~= v@);
    r
}

/// A text holds another just where something stands before it and something behind it.
pub proof fn texts_hold_their_parts(before: Seq<char>, part: Seq<char>, behind: Seq<char>)
    ensures
        has_sub(before + part + behind, part),
        has_prefix(part + behind, part),
        has_suffix(before + part, part),
{
    let s = before + part + behind;
    assert(s.subrange(before.len() as int, (before.len() + part.len()) as int) =~= part);
    assert(stands_at(s, part, before.len() as int));
    assert((part + behind).subrange(0, part.len() as int) =~= part);
    let t = before + part;
    assert(t.subrange(t.len() - part.len(), t.len() as int) =~= part);
}

/// What a text holds divides it.
pub proof fn held_parts_divide_a_text(s: Seq<char>, part: Seq<char>)
    requires
        has_sub(s, part),
    ensures
        exists|i: int|
            0 <= i <= s.len() - part.len() && s == #[trigger] s.take(i) + part + s.skip(
                i + part.len(),
            ),
{
    let i = choose|i: int| stands_at(s, part, i);
    assert(s =~= s.take(i) + part + s.skip(i + part.len()));
}

// ---- what the parts of a text make up ----

proof fn lemma_trim_start_parts(s: Seq<char>)
    ensures
        ({
            let i = s.len() - trim_start(s).len();
            &&& 0 <= i <= s.len()
            &&& trim_start(s) == s.skip(i)
            &&& forall|k: int| 0 <= k < i ==> is_white_space(#[trigger] s[k])
            &&& i < s.len() ==> !is_white_space(s[i])
        }),
    decreases s.len(),
{
    if s.len() > 0 && is_white_space(s[0]) {
        lemma_trim_start_parts(s.drop_first());
        let i = s.len() - trim_start(s).len();
        assert(s.skip(i) =~= s.drop_first().skip(i - 1));
        assert forall|k: int| 0 <= k < i implies is_white_space(#[trigger] s[k]) by {
            if k > 0 {
                assert(s[k] == s.drop_first()[k - 1]);
            }
        }
        if i < s.len() {
            assert(s[i] == s.drop_first()[i - 1]);
        }
    } else {
        assert(s.skip(0) =~= s);
    }
}

proof fn lemma_trim_end_parts(s: Seq<char>)
    ensures
        ({
            let j = trim_end(s).len() as int;
            &&& 0 <= j <= s.len()
            &&& trim_end(s) == s.take(j)
            &&& forall|k: int| j <= k < s.len() ==> is_white_space(#[trigger] s[k])
            &&& j > 0 ==> !is_white_space(s[j - 1])
        }),
    decreases s.len(),
{
    if s.len() > 0 && is_white_space(s.last()) {
        lemma_trim_end_parts(s.drop_last());
        let j = trim_end(s).len() as int;
        assert(s.take(j) =~= s.drop_last().take(j));
        assert forall|k: int| j <= k < s.len() implies is_white_space(#[trigger] s[k]) by {
            if k < s.len() - 1 {
                assert(s[k] == s.drop_last()[k]);
            }
        }
    } else {
        assert(s.take(s.len() as int) =~= s);
    }
}

/// To trim a text takes all the white space off its ends, and nothing else.
pub proof fn trimming_takes_white_space_off_the_ends(s: Seq<char>)
    ensures
        ({
            let t = trim(s);
            &&& t.len() > 0 ==> !is_white_space(t[0]) && !is_white_space(t.last())
            &&& exists|i: int|
                #![trigger s.skip(i)]
                0 <= i <= s.len() - t.len() && t == s.subrange(i, i + t.len()) && (forall|k: int|
                    0 <= k < i || i + t.len() <= k < s.len() ==> is_white_space(#[trigger] s[k]))
        }),
{
    let a = trim_start(s);
    let t = trim(s);
    lemma_trim_start_parts(s);
    lemma_trim_end_parts(a);
    let i = s.len() - a.len();
    assert(s.skip(i).take(t.len() as int) =~= s.subrange(i, i + t.len()));
    assert forall|k: int| 0 <= k < i || i + t.len() <= k < s.len() implies is_white_space(
        #[trigger] s[k],
    ) by {
        if k >= i {
            assert(s[k] == a[k - i]);
        }
    }
    if t.len() > 0 {
        assert(t[0] == a[0]);
        assert(t.last() == a[t.len() - 1]);
        assert(a[0] == s[i]);
    }
}

/// A join begins with its first part and a separator.
pub proof fn lemma_join_first(first: Seq<char>, rest: Seq<Seq<char>>, sep: Seq<char>)
    requires
        rest.len() > 0,
    ensures
        join(seq![first] + rest, sep) == first + sep + join(rest, sep),
    decreases rest.len(),
{
    let all = seq![first] + rest;
    assert(all.last() == rest.last());
    if rest.len() == 1 {
        assert(all.drop_last() =~= seq![first]);
        assert(join(seq![first], sep) == first);
    } else {
        assert(all.drop_last() =~= seq![first] + rest.drop_last());
        lemma_join_first(first, rest.drop_last(), sep);
        assert(join(all, sep) =~= first + sep + join(rest, sep));
    }
}

/// What parts make up begins with the first of them.
pub proof fn lemma_concat_first(first: Seq<char>, rest: Seq<Seq<char>>)
    ensures
        concat(seq![first] + rest) == first + concat(rest),
    decreases rest.len(),
{
    let all = seq![first] + rest;
    if rest.len() == 0 {
        assert(all.drop_last() =~= Seq::<Seq<char>>::empty());
        assert(all.last() == first);
        assert(rest =~= Seq::<Seq<char>>::empty());
        assert(concat(all) == concat(all.drop_last()) + all.last());
        assert(concat(all.drop_last()) =~= Seq::<char>::empty());
        assert(concat(all) =~= first + concat(rest));
    } else {
        assert(all.last() == rest.last());
        assert(all.drop_last() =~= seq![first] + rest.drop_last());
        lemma_concat_first(first, rest.drop_last());
        assert(concat(all) =~= first + concat(rest));
    }
}

/// The pieces that a text is split into at a character do not hold it, and joined by it again they
/// are the text.
pub proof fn splitting_is_undone_by_joining(s: Seq<char>, c: char)
    ensures
        split_on(s, c).len() > 0,
        join(split_on(s, c), seq![c]) == s,
        forall|i: int| 0 <= i < split_on(s, c).len() ==> !(#[trigger] split_on(s, c)[i]).contains(c),
    decreases s.len(),
{
    lemma_first_index(s, c);
    let i = first_index(s, c);
    let pieces = split_on(s, c);
    if i < s.len() {
        let rest = s.skip(i + 1);
        splitting_is_undone_by_joining(rest, c);
        lemma_join_first(s.take(i), split_on(rest, c), seq![c]);
        assert(s =~= s.take(i) + seq![c] + rest);
        assert forall|k: int| 0 <= k < pieces.len() implies !(#[trigger] pieces[k]).contains(c) by {
            if k == 0 {
                assert(pieces[0] =~= s.take(i));
            } else {
                assert(pieces[k] == split_on(rest, c)[k - 1]);
            }
        }
    }
}

/// The lines of a text with their endings make up the text. No line is empty, a line feed stands
/// only at the end of a line, and at the end of each line but the last.
pub proof fn lines_make_up_the_text(s: Seq<char>)
    ensures
        concat(lines_inclusive(s)) == s,
        forall|i: int|
            0 <= i < lines_inclusive(s).len() ==> (#[trigger] lines_inclusive(s)[i]).len() > 0
                && !lines_inclusive(s)[i].drop_last().contains('\n'),
        forall|i: int|
            0 <= i < lines_inclusive(s).len() - 1 ==> (#[trigger] lines_inclusive(s)[i]).last()
                == '\n',
    decreases s.len(),
{
    lemma_first_index(s, '\n');
    let i = first_index(s, '\n');
    let lines = lines_inclusive(s);
    if s.len() == 0 {
        assert(concat(lines) =~= s);
    } else if i < s.len() {
        let rest = s.skip(i + 1);
        lines_make_up_the_text(rest);
        lemma_concat_first(s.take(i + 1), lines_inclusive(rest));
        assert(s =~= s.take(i + 1) + rest);
        assert forall|k: int| 0 <= k < lines.len() implies (#[trigger] lines[k]).len() > 0
            && !lines[k].drop_last().contains('\n') by {
            if k == 0 {
                assert(lines[0] =~= s.take(i + 1));
                assert(s.take(i + 1).drop_last() =~= s.take(i));
            } else {
                assert(lines[k] == lines_inclusive(rest)[k - 1]);
            }
        }
        assert forall|k: int| 0 <= k < lines.len() - 1 implies (#[trigger] lines[k]).last()
            == '\n' by {
            if k == 0 {
                assert(lines[0] =~= s.take(i + 1));
            } else {
                assert(lines[k] == lines_inclusive(rest)[k - 1]);
            }
        }
    } else {
        lemma_concat_first(s, Seq::empty());
        assert(lines =~= seq![s] + Seq::<Seq<char>>::empty());
        assert(s + concat(Seq::empty()) =~= s);
        assert(!s.drop_last().contains('\n'));
    }
}

/// A line ending is a line feed or a carriage return and a line feed; without it the rest of the
/// line is kept.
pub proof fn line_endings_are_taken_off(line: Seq<char>)
    ensures
        without_line_ending(line + seq!['\r', '\n']) == line,
        line.len() == 0 || line.last() != '\r' ==> without_line_ending(line.push('\n')) == line,
        line.len() == 0 || line.last() != '\n' ==> without_line_ending(line) == line,
{
    let both = line + seq!['\r', '\n'];
    assert(both.take(both.len() - 2) =~= line);
    assert(line.push('\n').drop_last() =~= line);
}

/// The characters of a text that are not white space.
pub open spec fn without_white_space(s: Seq<char>) -> Seq<char>
    decreases s.len(),
{
    if s.len() == 0 {
        Seq::empty()
    } else if is_white_space(s[0]) {
        without_white_space(s.drop_first())
    } else {
        seq![s[0]] + without_white_space(s.drop_first())
    }
}

proof fn lemma_without_leading(s: Seq<char>)
    ensures
        without_white_space(trim_start(s)) == without_white_space(s),
    decreases s.len(),
{
    if s.len() > 0 && is_white_space(s[0]) {
        lemma_without_leading(s.drop_first());
    }
}

proof fn lemma_without_word(s: Seq<char>)
    ensures
        without_white_space(s) == s.take(word_len(s)) + without_white_space(s.skip(word_len(s))),
    decreases s.len(),
{
    lemma_word_len(s);
    let n = word_len(s);
    if n == 0 {
        assert(s.skip(0) =~= s);
        assert(s.take(0) =~= Seq::<char>::empty());
        assert(without_white_space(s) =~= s.take(n) + without_white_space(s.skip(n)));
    } else {
        lemma_without_word(s.drop_first());
        assert(s.take(n) =~= seq![s[0]] + s.drop_first().take(n - 1));
        assert(s.skip(n) =~= s.drop_first().skip(n - 1));
        assert(without_white_space(s) =~= s.take(n) + without_white_space(s.skip(n)));
    }
}

/// The words of a text are not empty and hold no white space, and together they are all of the
/// text that is not white space.
pub proof fn words_make_up_the_text(s: Seq<char>)
    ensures
        concat(words(s)) == without_white_space(s),
        forall|i: int|
            0 <= i < words(s).len() ==> (#[trigger] words(s)[i]).len() > 0 && (forall|k: int|
                0 <= k < words(s)[i].len() ==> !is_white_space(#[trigger] words(s)[i][k])),
    decreases s.len(),
{
    let t = trim_start(s);
    lemma_trim_start_len(s);
    lemma_without_leading(s);
    lemma_word_len(t);
    if t.len() > 0 {
        let n = word_len(t);
        assert(n > 0);
        words_make_up_the_text(t.skip(n));
        lemma_concat_first(t.take(n), words(t.skip(n)));
        lemma_without_word(t);
        assert forall|i: int| 0 <= i < words(s).len() implies (#[trigger] words(s)[i]).len() > 0
            && (forall|k: int|
            0 <= k < words(s)[i].len() ==> !is_white_space(#[trigger] words(s)[i][k])) by {
            if i == 0 {
                assert(words(s)[0] == t.take(n));
            } else {
                assert(words(s)[i] == words(t.skip(n))[i - 1]);
            }
        }
    }
}

/// Where a text does not hold what is to be replaced, it stays as it is; where it begins with it,
/// the replacement stands in its place and the rest follows, replaced in turn; and what stands
/// before the first place stays.
pub proof fn replacing_takes_each_place(s: Seq<char>, from: Seq<char>, to: Seq<char>, i: int)
    requires
        from.len() > 0,
    ensures
        !has_sub(s, from) ==> replace_all(s, from, to) == s,
        stands_at(s, from, i) && (forall|k: int| 0 <= k < i ==> !stands_at(s, from, k))
            ==> replace_all(s, from, to) == s.take(i) + to + replace_all(
            s.skip(i + from.len()),
            from,
            to,
        ),
    decreases s.len(),
{
    if s.len() > 0 {
        let rest = s.drop_first();
        if !has_prefix(s, from) {
            replacing_takes_each_place(rest, from, to, i - 1);
            assert forall|k: int| #[trigger] stands_at(rest, from, k) implies stands_at(
                s,
                from,
                k + 1,
            ) by {
                assert(s.subrange(k + 1, k + 1 + from.len()) =~= rest.subrange(
                    k,
                    k + from.len(),
                ));
            }
        }
        if !has_sub(s, from) {
            assert(!stands_at(s, from, 0));
            assert(!has_sub(rest, from)) by {
                if has_sub(rest, from) {
                    let k = choose|k: int| stands_at(rest, from, k);
                    assert(stands_at(s, from, k + 1));
                }
            }
            assert(replace_all(s, from, to) =~= s);
        }
        if stands_at(s, from, i) && (forall|k: int| 0 <= k < i ==> !stands_at(s, from, k)) {
            if i == 0 {
                assert(s.take(0) + to =~= to);
            } else {
                assert(!stands_at(s, from, 0));
                assert(s.subrange(i, i + from.len()) =~= rest.subrange(
                    i - 1,
                    i - 1 + from.len(),
                ));
                assert forall|k: int| 0 <= k < i - 1 implies !stands_at(rest, from, k) by {
                    if stands_at(rest, from, k) {
                        assert(stands_at(s, from, k + 1));
                    }
                }
                assert(rest.skip(i - 1 + from.len()) =~= s.skip(i + from.len()));
                assert(seq![s[0]] + rest.take(i - 1) =~= s.take(i));
                assert(replace_all(s, from, to) =~= s.take(i) + to + replace_all(
                    s.skip(i + from.len()),
                    from,
                    to,
                ));
            }
        }
    }
}

/// Lower case keeps every character in its place, changes nothing but capital letters of ASCII, and
/// is the same again in lower case.
pub proof fn lower_case_changes_capitals_only(s: Seq<char>, i: int)
    requires
        0 <= i < s.len(),
    ensures
        ascii_lower(s).len() == s.len(),
        'A' <= s[i] <= 'Z' ==> ascii_lower(s)[i] as u32 == s[i] as u32 + 32,
        !('A' <= s[i] <= 'Z') ==> ascii_lower(s)[i] == s[i],
        ascii_lower(ascii_lower(s)) == ascii_lower(s),
{
    assert(ascii_lower(ascii_lower(s)) =~= ascii_lower(s));
}

/// A text that ends with the character that it is split at has an empty last piece.
pub proof fn lemma_split_ends_empty(s: Seq<char>, c: char)
    requires
        s.len() > 0,
        s.last() == c,
    ensures
        exists|i: int|
            0 <= i < split_on(s, c).len() && (#[trigger] split_on(s, c)[i]).len() == 0,
    decreases s.len(),
{
    lemma_first_index(s, c);
    let i = first_index(s, c);
    let rest = s.skip(i + 1);
    assert(s.contains(s.last()));
    let pieces = split_on(s, c);
    if rest.len() == 0 {
        lemma_first_index(rest, c);
        assert(split_on(rest, c) =~= seq![rest]);
        assert(pieces[1] == rest);
    } else {
        lemma_split_ends_empty(rest, c);
        let k = choose|k: int|
            0 <= k < split_on(rest, c).len() && (#[trigger] split_on(rest, c)[k]).len() == 0;
        assert(pieces[k + 1] == split_on(rest, c)[k]);
    }
}

/// Pieces that do not hold a character are what their join by it is split into at it.
pub proof fn joining_is_undone_by_splitting(parts: Seq<Seq<char>>, c: char)
    requires
        parts.len() > 0,
        forall|i: int| 0 <= i < parts.len() ==> !(#[trigger] parts[i]).contains(c),
    ensures
        split_on(join(parts, seq![c]), c) == parts,
    decreases parts.len(),
{
    let first = parts[0];
    if parts.len() == 1 {
        lemma_first_index(first, c);
        assert(split_on(first, c) =~= parts);
    } else {
        let rest = parts.drop_first();
        joining_is_undone_by_splitting(rest, c);
        assert(parts =~= seq![first] + rest);
        lemma_join_first(first, rest, seq![c]);
        let whole = join(parts, seq![c]);
        let tail = join(rest, seq![c]);
        assert(whole == first + seq![c] + tail);
        assert forall|j: int| 0 <= j < first.len() implies whole[j] != c by {
            assert(whole[j] == first[j]);
            assert(first.contains(first[j]));
        }
        lemma_first_index_is(whole, c, first.len() as int);
        assert(whole.take(first.len() as int) =~= first);
        assert(whole.skip(first.len() as int + 1) =~= tail);
    }
}

/// Sixteen to the power of a number of digits.
pub open spec fn hex_range(k: nat) -> nat
    decreases k,
{
    if k == 0 {
        1
    } else {
        16 * hex_range((k - 1) as nat)
    }
}

/// A number that is written with enough hexadecimal digits is read back, and it is written in as
/// many as were asked for.
pub proof fn hex_round_trip(n: nat, k: nat)
    requires
        n < hex_range(k),
    ensures
        hex_digits(n, k).len() == k,
        hex_value(hex_digits(n, k)) == n,
    decreases k,
{
    if k > 0 {
        let rest = (k - 1) as nat;
        assert(n / 16 < hex_range(rest)) by {
            assert(n < 16 * hex_range(rest));
        }
        hex_round_trip(n / 16, rest);
        reveal_strlit("0123456789abcdef");
        let d = n % 16;
        let c = "0123456789abcdef"@[d as int];
        let s = hex_digits(n, k);
        assert(s.drop_last() =~= hex_digits(n / 16, rest));
        assert(s.last() == c);
        assert(hex_digit(c) == d);
    }
}

} // verus!
