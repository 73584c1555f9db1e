//! Reading what a terminal answers to queries: its cursor position, its colours, and
//! whether it supports the extended keyboard protocol.

use vstd::prelude::*;

use crate::text;

verus! {

/// A cell of the terminal, counted from zero.
#[derive(Clone, Copy, Debug, PartialEq, Eq, Structural)]
pub struct Position {
    pub x: u16,
    pub y: u16,
}

/// Whether the bytes `t` stand in `b` at position `i`.
pub open spec fn bytes_at(b: Seq<u8>, t: Seq<u8>, i: int) -> bool {
    0 <= i && i + t.len() <= b.len() && b.subrange(i, i + t.len()) == t
}

/// The first position from `i` on at which `t` stands in `b`.
pub open spec fn first_bytes(b: Seq<u8>, t: Seq<u8>, i: int) -> Option<int>
    decreases b.len() - i + 1,
{
    if i < 0 || i > b.len() {
        None
    } else if bytes_at(b, t, i) {
        Some(i)
    } else {
        first_bytes(b, t, i + 1)
    }
}

/// The first position from `i` on that holds `x`, or the length of `b`.
pub open spec fn first_byte(b: Seq<u8>, x: u8, i: int) -> int
    decreases b.len() - i,
{
    if i < 0 || i >= b.len() {
        b.len() as int
    } else if b[i] == x {
        i
    } else {
        first_byte(b, x, i + 1)
    }
}

fn matches_at(b: &[u8], t: &[u8], i: usize) -> (r: bool)
    requires
        i <= b.len(),
    ensures
        r == bytes_at(b@, t@, i as int),
{
    if t.len() > b.len() - i {
        return false;
    }
    let mut j: usize = 0;
    while j < t.len()
        invariant
            j <= t.len(),
            i + t.len() <= b.len(),
            forall|k: int| 0 <= k < j ==> b@[i + k] == t@[k],
        decreases t.len() - j,
    {
        if b[i + j] != t[j] {
            assert(b@.subrange(i as int, i + t@.len())[j as int] != t@[j as int]);
            return false;
        }
        j = j + 1;
    }
    assert(b@.subrange(i as int, i + t@.len()) =~= t@);
    true
}

/// The first position from `from` on at which `needle` stands.
pub fn find_subslice(haystack: &[u8], needle: &[u8], from: usize) -> (r: Option<usize>)
    requires
        from <= haystack.len(),
    ensures
        match r {
            Some(i) => first_bytes(haystack@, needle@, from as int) == Some(i as int) && from <= i
                && i + needle.len() <= haystack.len(),
            None => first_bytes(haystack@, needle@, from as int) is None,
        },
{
    let mut i: usize = from;
    loop
        invariant
            from <= i <= haystack.len(),
            first_bytes(haystack@, needle@, from as int) == first_bytes(
                haystack@,
                needle@,
                i as int,
            ),
        decreases haystack.len() - i,
    {
        if matches_at(haystack, needle, i) {
            return Some(i);
        }
        if i == haystack.len() {
            assert(first_bytes(haystack@, needle@, i + 1) is None);
            return None;
        }
        i = i + 1;
    }
}

fn byte_index(b: &[u8], x: u8, from: usize) -> (r: usize)
    requires
        from <= b.len(),
    ensures
        r == first_byte(b@, x, from as int),
        from <= r <= b.len(),
{
    let mut i: usize = from;
    while i < b.len() && b[i] != x
        invariant
            from <= i <= b.len(),
            first_byte(b@, x, from as int) == first_byte(b@, x, i as int),
        decreases b.len() - i,
    {
        i = i + 1;
    }
    i
}

/// The text of the bytes from `a` up to `b`, where they are valid UTF-8.
pub open spec fn text_between(bytes: Seq<u8>, a: int, b: int) -> Option<Seq<char>> {
    if vstd::utf8::valid_utf8(bytes.subrange(a, b)) {
        Some(vstd::utf8::decode_utf8(bytes.subrange(a, b)))
    } else {
        None
    }
}

fn text_of_range(bytes: &[u8], a: usize, b: usize) -> (r: Option<String>)
    requires
        a <= b <= bytes@.len(),
    ensures
        text::option_view(r) == text_between(bytes@, a as int, b as int),
{
    text::utf8_text(vstd::slice::slice_subrange(bytes, a, b))
}

// ---- cursor position ----

/// One less, but not below zero.
pub open spec fn zero_based(n: u64) -> int {
    if n == 0 {
        0
    } else {
        n - 1
    }
}

/// A number that fits sixteen bits.
pub open spec fn small_number(s: Seq<char>) -> Option<u64> {
    match text::parsed_u64(s) {
        Some(n) => if n <= 0xffff {
            Some(n)
        } else {
            None
        },
        None => None,
    }
}

/// The position that `row;column`, counted from one, stands for.
pub open spec fn cursor_payload(s: Seq<char>) -> Option<(int, int)> {
    let i = text::first_index(s, ';');
    if i >= s.len() {
        None
    } else {
        match (small_number(s.take(i)), small_number(s.skip(i + 1))) {
            (Some(row), Some(col)) => Some((zero_based(col), zero_based(row))),
            _ => None,
        }
    }
}

/// The position that a terminal reports: between the first `ESC [` and the `R` after it.
pub open spec fn cursor_of(b: Seq<u8>) -> Option<(int, int)> {
    match first_bytes(b, seq![0x1bu8, 0x5bu8], 0) {
        None => None,
        Some(start) => {
            let end = first_byte(b, 0x52, start + 2);
            if end >= b.len() {
                None
            } else {
                match text_between(b, start + 2, end) {
                    Some(s) => cursor_payload(s),
                    None => None,
                }
            }
        },
    }
}

fn parse_small(s: &[char]) -> (r: Option<u16>)
    ensures
        match r {
            Some(n) => small_number(s@) == Some(n as u64),
            None => small_number(s@) is None,
        },
{
    match text::parse_u64(text::string_of(s).as_str()) {
        Some(n) => if n <= 0xffff {
            Some(n as u16)
        } else {
            None
        },
        None => None,
    }
}

/// The cursor position in a terminal's answer.
pub fn parse_cursor_position(buffer: &[u8]) -> (r: Option<Position>)
    ensures
        match r {
            Some(p) => cursor_of(buffer@) == Some((p.x as int, p.y as int)),
            None => cursor_of(buffer@) is None,
        },
{
    let needle: Vec<u8> = vec![0x1b, 0x5b];
    assert(needle@ =~= seq![0x1bu8, 0x5bu8]);
    let start = match find_subslice(buffer, needle.as_slice(), 0) {
        Some(i) => i,
        None => {
            return None;
        },
    };
    let end = byte_index(buffer, 0x52, start + 2);
    if end == buffer.len() {
        return None;
    }
    let payload = match text_of_range(buffer, start + 2, end) {
        Some(s) => text::chars_of(s.as_str()),
        None => {
            return None;
        },
    };
    let n = payload.len();
    let semicolon = text::index_from(payload.as_slice(), ';', 0);
    assert(payload@.skip(0) =~= payload@);
    if semicolon == n {
        return None;
    }
    let row_text = text::sub_vec(payload.as_slice(), 0, semicolon);
    let col_text = text::sub_vec(payload.as_slice(), semicolon + 1, n);
    proof {
        assert(row_text@ =~= payload@.take(semicolon as int));
        assert(col_text@ =~= payload@.skip(semicolon + 1));
    }
    match (parse_small(row_text.as_slice()), parse_small(col_text.as_slice())) {
        (Some(row), Some(col)) => Some(
            Position {
                x: if col == 0 {
                    0
                } else {
                    col - 1
                },
                y: if row == 0 {
                    0
                } else {
                    row - 1
                },
            },
        ),
        _ => None,
    }
}

// ---- colours ----

/// Where a control string ends that starts at `i`: at a bell, or at an escape that a
/// backslash follows. With the length of that terminator.
pub open spec fn payload_end(b: Seq<u8>, i: int) -> Option<(int, int)>
    decreases b.len() - i,
{
    if i < 0 || i >= b.len() {
        None
    } else if b[i] == 0x07 {
        Some((i, 1))
    } else if b[i] == 0x1b && i + 1 < b.len() && b[i + 1] == 0x5c {
        Some((i, 2))
    } else {
        payload_end(b, i + 1)
    }
}

/// The end of the control string that starts at `from`.
pub fn osc_payload_end(buffer: &[u8], from: usize) -> (r: Option<(usize, usize)>)
    requires
        from <= buffer.len(),
    ensures
        match r {
            Some((end, len)) => payload_end(buffer@, from as int) == Some((end as int, len as int))
                && from <= end < buffer@.len(),
            None => payload_end(buffer@, from as int) is None,
        },
{
    let mut i: usize = from;
    while i < buffer.len()
        invariant
            from <= i <= buffer.len(),
            payload_end(buffer@, from as int) == payload_end(buffer@, i as int),
        decreases buffer.len() - i,
    {
        if buffer[i] == 0x07 {
            return Some((i, 1));
        }
        if buffer[i] == 0x1b && i + 1 < buffer.len() && buffer[i + 1] == 0x5c {
            return Some((i, 2));
        }
        i = i + 1;
    }
    None
}

/// Whether every character is a hexadecimal digit.
pub open spec fn all_hex(s: Seq<char>) -> bool {
    forall|i: int| 0 <= i < s.len() ==> text::is_ascii_hexdigit(#[trigger] s[i])
}

/// A colour component of two hexadecimal digits, or of four that are scaled down. A
/// plus sign may stand in place of the first digit.
pub open spec fn component(s: Seq<char>) -> Option<nat> {
    let d = text::without_plus(s);
    if !all_hex(d) {
        None
    } else if s.len() == 2 {
        Some(text::hex_value(d))
    } else if s.len() == 4 {
        Some(text::hex_value(d) / 257)
    } else {
        None
    }
}

fn hex_u16(d: &[char]) -> (r: u16)
    requires
        d@.len() <= 4,
        all_hex(d@),
    ensures
        r as nat == text::hex_value(d@),
        d@.len() <= 2 ==> r < 256,
{
    let mut value: u16 = 0;
    let mut i: usize = 0;
    while i < d.len()
        invariant
            i <= d.len(),
            d@.len() <= 4,
            all_hex(d@),
            value as nat == text::hex_value(d@.take(i as int)),
            i == 0 ==> value == 0,
            i == 1 ==> value < 16,
            i == 2 ==> value < 256,
            i == 3 ==> value < 4096,
        decreases d.len() - i,
    {
        assert(d@.take(i + 1).drop_last() =~= d@.take(i as int));
        assert(text::is_ascii_hexdigit(d@[i as int]));
        value = value * 16 + (text::hex_digit_of(d[i]) as u16);
        i = i + 1;
    }
    assert(d@.take(i as int) =~= d@);
    value
}

/// The value of a colour component.
pub fn parse_osc_component(c: &[char]) -> (r: Option<u8>)
    ensures
        match r {
            Some(v) => component(c@) == Some(v as nat),
            None => component(c@) is None,
        },
{
    if c.len() != 2 && c.len() != 4 {
        return None;
    }
    let from: usize = if c[0] == '+' {
        1
    } else {
        0
    };
    let d = text::sub_vec(c, from, c.len());
    proof {
        if from == 1 {
            assert(d@ =~= c@.drop_first());
        } else {
            assert(d@ =~= c@);
        }
    }
    let mut i: usize = 0;
    while i < d.len()
        invariant
            i <= d.len(),
            d@ == text::without_plus(c@),
            forall|j: int| 0 <= j < i ==> text::is_ascii_hexdigit(#[trigger] d@[j]),
        decreases d.len() - i,
    {
        let x = d[i];
        if !(('0' <= x && x <= '9') || ('a' <= x && x <= 'f') || ('A' <= x && x <= 'F')) {
            assert(!text::is_ascii_hexdigit(d@[i as int]));
            return None;
        }
        i = i + 1;
    }
    let value = hex_u16(d.as_slice());
    if c.len() == 2 {
        Some(value as u8)
    } else {
        Some((value / 257) as u8)
    }
}

/// The colour that `rgb:r/g/b` or `rgba:r/g/b/a` stands for.
pub open spec fn rgb_payload(payload: Seq<char>) -> Option<(nat, nat, nat)> {
    let s = text::trim(payload);
    let i = text::first_index(s, ':');
    if i >= s.len() {
        None
    } else {
        let kind = text::ascii_lower(s.take(i));
        let parts = text::split_on(s.skip(i + 1), '/');
        if !(kind == "rgb"@ && parts.len() == 3 || kind == "rgba"@ && parts.len() == 4) {
            None
        } else {
            match (component(parts[0]), component(parts[1]), component(parts[2])) {
                (Some(r), Some(g), Some(b)) => if kind == "rgba"@ && component(parts[3]) is None {
                    None
                } else {
                    Some((r, g, b))
                },
                _ => None,
            }
        }
    }
}

/// The colour in the payload of an answer.
pub fn parse_osc_rgb(payload: &str) -> (r: Option<(u8, u8, u8)>)
    ensures
        match r {
            Some((red, green, blue)) => rgb_payload(payload@) == Some(
                (red as nat, green as nat, blue as nat),
            ),
            None => rgb_payload(payload@) is None,
        },
{
    let chars = text::chars_of(payload);
    let s = text::trimmed(chars.as_slice());
    let n = s.len();
    let colon = text::index_from(s.as_slice(), ':', 0);
    assert(s@.skip(0) =~= s@);
    if colon == n {
        return None;
    }
    let name = text::sub_vec(s.as_slice(), 0, colon);
    let kind = text::to_ascii_lower(name.as_slice());
    let values = text::sub_vec(s.as_slice(), colon + 1, n);
    proof {
        assert(name@ =~= s@.take(colon as int));
        assert(values@ =~= s@.skip(colon + 1));
    }
    let parts = text::split_chars(values.as_slice(), '/');
    let ghost v = text::char_views(parts@);
    let with_alpha = text::eq_str(kind.as_slice(), "rgba");
    let plain = text::eq_str(kind.as_slice(), "rgb");
    proof {
        reveal_strlit("rgb");
        reveal_strlit("rgba");
        assert("rgb"@.len() != "rgba"@.len());
    }
    if !(plain && parts.len() == 3 || with_alpha && parts.len() == 4) {
        return None;
    }
    assert(v[0] == parts@[0]@ && v[1] == parts@[1]@ && v[2] == parts@[2]@);
    let red = parse_osc_component(parts[0].as_slice());
    let green = parse_osc_component(parts[1].as_slice());
    let blue = parse_osc_component(parts[2].as_slice());
    if with_alpha {
        assert(v[3] == parts@[3]@);
        if parse_osc_component(parts[3].as_slice()).is_none() {
            return None;
        }
    }
    match (red, green, blue) {
        (Some(r), Some(g), Some(b)) => Some((r, g, b)),
        _ => None,
    }
}

/// The bytes that start the answer for colour slot `slot`: `ESC ] slot ;`.
pub open spec fn osc_prefix(slot: u8) -> Seq<u8> {
    seq![0x1bu8, 0x5du8] + text::decimal(slot as nat).map_values(|c: char| c as u8) + seq![0x3bu8]
}

/// The colour of slot `slot` in a terminal's answer.
pub open spec fn color_of(b: Seq<u8>, slot: u8) -> Option<(nat, nat, nat)> {
    match first_bytes(b, osc_prefix(slot), 0) {
        None => None,
        Some(start) => {
            let from = start + osc_prefix(slot).len();
            match payload_end(b, from) {
                None => None,
                Some((end, _)) => match text_between(b, from, end) {
                    Some(s) => rgb_payload(s),
                    None => None,
                },
            }
        },
    }
}

fn osc_prefix_bytes(slot: u8) -> (r: Vec<u8>)
    ensures
        r@ == osc_prefix(slot),
{
    let mut r: Vec<u8> = vec![0x1b, 0x5d];
    let digits = text::chars_of(text::decimal_u64(slot as u64).as_str());
    let ghost head = r@;
    let mut i: usize = 0;
    proof {
        text::lemma_decimal_is_digits(slot as nat);
    }
    while i < digits.len()
        invariant
            i <= digits.len(),
            digits@ == text::decimal(slot as nat),
            text::all_digits(digits@),
            r@ == head + digits@.take(i as int).map_values(|c: char| c as u8),
        decreases digits.len() - i,
    {
        assert(text::is_ascii_digit(digits@[i as int]));
        r.push(digits[i] as u8);
        i = i + 1;
        assert(r@ =~= head + digits@.take(i as int).map_values(|c: char| c as u8));
    }
    r.push(0x3b);
    assert(digits@.take(i as int) =~= digits@);
    assert(head =~= seq![0x1bu8, 0x5du8]);
    assert(r@ =~= osc_prefix(slot));
    r
}

/// The colour of slot `slot` in a terminal's answer.
pub fn parse_osc_color(buffer: &[u8], slot: u8) -> (r: Option<(u8, u8, u8)>)
    ensures
        match r {
            Some((red, green, blue)) => color_of(buffer@, slot) == Some(
                (red as nat, green as nat, blue as nat),
            ),
            None => color_of(buffer@, slot) is None,
        },
{
    let prefix = osc_prefix_bytes(slot);
    let start = match find_subslice(buffer, prefix.as_slice(), 0) {
        Some(i) => i,
        None => {
            return None;
        },
    };
    let from = start + prefix.len();
    match osc_payload_end(buffer, from) {
        None => None,
        Some((end, _)) => match text_of_range(buffer, from, end) {
            Some(s) => parse_osc_rgb(s.as_str()),
            None => None,
        },
    }
}

// ---- keyboard protocol ----

/// The bytes `ESC [ ?`.
pub open spec fn private_prefix() -> Seq<u8> {
    seq![0x1bu8, 0x5bu8, 0x3fu8]
}

/// A number that fits eight bits.
pub open spec fn byte_number(s: Seq<char>) -> Option<u64> {
    match text::parsed_u64(s) {
        Some(n) => if n <= 0xff {
            Some(n)
        } else {
            None
        },
        None => None,
    }
}

/// The keyboard flags in the first answer `ESC [ ? flags u` from `i` on: its four
/// lowest bits.
pub open spec fn keyboard_flags(b: Seq<u8>, i: int) -> Option<u8>
    decreases b.len() - i + 1,
{
    if i < 0 || i > b.len() {
        None
    } else if !bytes_at(b, private_prefix(), i) {
        keyboard_flags(b, i + 1)
    } else {
        let end = first_byte(b, 0x75, i + 3);
        if end >= b.len() || end == i + 3 {
            keyboard_flags(b, i + 1)
        } else {
            match text_between(b, i + 3, end) {
                Some(s) => match byte_number(s) {
                    Some(n) => Some((n as u8) & 15),
                    None => None,
                },
                None => None,
            }
        }
    }
}

/// Whether the bytes from `a` up to `e` are digits and semicolons.
pub open spec fn only_parameters(b: Seq<u8>, a: int, e: int) -> bool {
    forall|k: int| a <= k < e ==> (0x30 <= #[trigger] b[k] <= 0x39 || b[k] == 0x3b)
}

/// Whether an answer `ESC [ ? parameters c` stands at `i`.
pub open spec fn device_attributes_at(b: Seq<u8>, i: int) -> bool {
    &&& bytes_at(b, private_prefix(), i)
    &&& i + 3 < first_byte(b, 0x63, i + 3) < b.len()
    &&& only_parameters(b, i + 3, first_byte(b, 0x63, i + 3))
}

/// Whether an answer `ESC [ ? parameters c` stands somewhere.
pub open spec fn has_device_attributes(b: Seq<u8>) -> bool {
    exists|i: int| #[trigger] device_attributes_at(b, i)
}

/// What a terminal's answer says of the keyboard protocol: supported where it reports
/// flags, not supported where it only identifies itself, and nothing otherwise.
pub open spec fn keyboard_support(b: Seq<u8>) -> Option<bool> {
    if keyboard_flags(b, 0) is Some {
        Some(true)
    } else if has_device_attributes(b) {
        Some(false)
    } else {
        None
    }
}

/// The keyboard flags in a terminal's answer.
pub fn find_keyboard_flags(buffer: &[u8]) -> (r: Option<u8>)
    ensures
        r == keyboard_flags(buffer@, 0),
{
    let prefix: Vec<u8> = vec![0x1b, 0x5b, 0x3f];
    assert(prefix@ =~= private_prefix());
    let mut i: usize = 0;
    loop
        invariant
            i <= buffer.len(),
            prefix@ == private_prefix(),
            keyboard_flags(buffer@, 0) == keyboard_flags(buffer@, i as int),
        decreases buffer.len() - i,
    {
        if matches_at(buffer, prefix.as_slice(), i) {
            let end = byte_index(buffer, 0x75, i + 3);
            if end < buffer.len() && end > i + 3 {
                return match text_of_range(buffer, i + 3, end) {
                    Some(s) => match text::parse_u64(s.as_str()) {
                        Some(n) => if n <= 0xff {
                            Some((n as u8) & 15)
                        } else {
                            None
                        },
                        None => None,
                    },
                    None => None,
                };
            }
        }
        if i == buffer.len() {
            assert(keyboard_flags(buffer@, i + 1) is None);
            return None;
        }
        i = i + 1;
    }
}

/// Whether a terminal's answer identifies the terminal.
pub fn find_primary_device_attributes(buffer: &[u8]) -> (r: bool)
    ensures
        r == has_device_attributes(buffer@),
{
    let prefix: Vec<u8> = vec![0x1b, 0x5b, 0x3f];
    assert(prefix@ =~= private_prefix());
    let mut i: usize = 0;
    while i < buffer.len()
        invariant
            i <= buffer.len(),
            prefix@ == private_prefix(),
            forall|j: int| j < i ==> !#[trigger] device_attributes_at(buffer@, j),
        decreases buffer.len() - i,
    {
        if matches_at(buffer, prefix.as_slice(), i) {
            let end = byte_index(buffer, 0x63, i + 3);
            if end < buffer.len() && end > i + 3 {
                let mut k: usize = i + 3;
                while k < end && ((0x30 <= buffer[k] && buffer[k] <= 0x39) || buffer[k] == 0x3b)
                    invariant
                        i + 3 <= k <= end < buffer.len(),
                        only_parameters(buffer@, i + 3, k as int),
                    decreases end - k,
                {
                    k = k + 1;
                }
                if k == end {
                    assert(device_attributes_at(buffer@, i as int));
                    return true;
                }
            }
        }
        i = i + 1;
    }
    assert forall|j: int| !#[trigger] device_attributes_at(buffer@, j) by {
        if j >= i {
            assert(!bytes_at(buffer@, private_prefix(), j));
        }
    }
    false
}

/// What a terminal's answer says of the keyboard protocol.
pub fn parse_keyboard_enhancement_support(buffer: &[u8]) -> (r: Option<bool>)
    ensures
        r == keyboard_support(buffer@),
{
    if find_keyboard_flags(buffer).is_some() {
        return Some(true);
    }
    if find_primary_device_attributes(buffer) {
        Some(false)
    } else {
        None
    }
}

// ---- what is found ----

/// What is searched for is found at its first place, and wherever there is one.
pub proof fn bytes_are_found_at_their_first_place(b: Seq<u8>, t: Seq<u8>, i: int)
    requires
        0 <= i,
    ensures
        match first_bytes(b, t, i) {
            Some(k) => i <= k && bytes_at(b, t, k) && forall|j: int|
                i <= j < k ==> !#[trigger] bytes_at(b, t, j),
            None => forall|j: int| i <= j ==> !#[trigger] bytes_at(b, t, j),
        },
    decreases b.len() - i + 1,
{
    if i <= b.len() && !bytes_at(b, t, i) {
        bytes_are_found_at_their_first_place(b, t, i + 1);
    }
}

/// A byte is found at its first place, and the end stands for none.
pub proof fn a_byte_is_found_at_its_first_place(b: Seq<u8>, x: u8, i: int)
    requires
        0 <= i <= b.len(),
    ensures
        ({
            let k = first_byte(b, x, i);
            &&& i <= k <= b.len()
            &&& k < b.len() ==> b[k] == x
            &&& forall|j: int| i <= j < k ==> #[trigger] b[j] != x
        }),
    decreases b.len() - i,
{
    if i < b.len() && b[i] != x {
        a_byte_is_found_at_its_first_place(b, x, i + 1);
    }
}

/// Whether what is told ends at a place: with a bell, or with an escape and a backslash.
pub open spec fn ends_at(b: Seq<u8>, i: int) -> bool {
    b[i] == 0x07 || b[i] == 0x1b && i + 1 < b.len() && b[i + 1] == 0x5c
}

/// What a terminal tells ends at its first ending, of one byte or of two.
pub proof fn payloads_end_at_their_first_ending(b: Seq<u8>, i: int)
    requires
        0 <= i,
    ensures
        match payload_end(b, i) {
            Some((k, len)) => i <= k < b.len() && ends_at(b, k) && (len == 1 <==> b[k] == 0x07) && (
            len == 2 <==> b[k] == 0x1b) && forall|j: int| i <= j < k ==> !#[trigger] ends_at(b, j),
            None => forall|j: int| i <= j < b.len() ==> !#[trigger] ends_at(b, j),
        },
    decreases b.len() - i,
{
    if i < b.len() && !ends_at(b, i) {
        payloads_end_at_their_first_ending(b, i + 1);
    }
}

/// A position that a terminal tells is read back: the row and the column, which it counts from one.
pub proof fn positions_are_read_back(row: nat, col: nat)
    requires
        1 <= row <= 0xffff,
        1 <= col <= 0xffff,
    ensures
        cursor_payload(text::decimal(row) + seq![';'] + text::decimal(col)) == Some(
            (col - 1, row - 1),
        ),
{
    let r = text::decimal(row);
    let c = text::decimal(col);
    let s = r + seq![';'] + c;
    text::lemma_decimal_is_digits(row);
    text::lemma_decimal_is_digits(col);
    text::decimal_round_trip(row);
    text::decimal_round_trip(col);
    assert forall|j: int| 0 <= j < r.len() implies s[j] != ';' by {
        assert(s[j] == r[j]);
        assert(text::is_ascii_digit(r[j]));
    }
    text::lemma_first_index_is(s, ';', r.len() as int);
    assert(s.take(r.len() as int) =~= r);
    assert(s.skip(r.len() as int + 1) =~= c);
}

/// A position is only read of two numbers, each of which fits a screen.
pub proof fn positions_fit_a_screen(s: Seq<char>)
    ensures
        cursor_payload(s) matches Some((x, y)) ==> 0 <= x < 0xffff && 0 <= y < 0xffff && s.contains(
            ';',
        ),
{
    text::lemma_first_index(s, ';');
}

/// A colour of four digits is read as the colour of two digits that it stands for: where they are
/// doubled, it is the same.
pub proof fn doubled_digits_are_the_same_colour(d: Seq<char>)
    requires
        d.len() == 2,
        all_hex(d),
    ensures
        component(d) == Some(text::hex_value(d)),
        component(d + d) == Some(text::hex_value(d)),
        text::hex_value(d) < 256,
{
    let dd = d + d;
    let v = text::hex_value(d);
    assert(d[0] != '+') by {
        assert(text::is_ascii_hexdigit(d[0]));
    }
    assert forall|i: int| 0 <= i < dd.len() implies text::is_ascii_hexdigit(#[trigger] dd[i]) by {
        if i < 2 {
            assert(dd[i] == d[i]);
        } else {
            assert(dd[i] == d[i - 2]);
        }
    }
    assert(dd.drop_last().last() == d[0]);
    assert(dd.drop_last().drop_last() =~= d);
    assert(dd.last() == d[1]);
    assert(d.drop_last().drop_last() =~= Seq::<char>::empty());
    reveal_with_fuel(text::hex_value, 4);
    let a = text::hex_digit(d[0]);
    let b = text::hex_digit(d[1]);
    assert(a < 16 && b < 16) by {
        assert(text::is_ascii_hexdigit(d[0]));
        assert(text::is_ascii_hexdigit(d[1]));
    }
    assert(d.drop_last().last() == d[0]);
    assert(v == a * 16 + b);
    assert(text::hex_value(dd) == (v * 16 + a) * 16 + b);
    assert(text::hex_value(dd) == v * 257);
    assert((v * 257) / 257 == v) by (nonlinear_arith);
}

/// A colour is told by its red, its green and its blue part, in this order; what else it may tell
/// does not change it.
pub proof fn colours_are_red_green_and_blue(r: Seq<char>, g: Seq<char>, b: Seq<char>, a: Seq<char>)
    requires
        component(r) is Some,
        component(g) is Some,
        component(b) is Some,
        component(a) is Some,
        !r.contains('/') && !g.contains('/') && !b.contains('/') && !a.contains('/'),
        !text::is_white_space(b.last()),
        !text::is_white_space(a.last()),
    ensures
        rgb_payload("rgb:"@ + text::join(seq![r, g, b], seq!['/'])) == Some(
            (component(r)->0, component(g)->0, component(b)->0),
        ),
        rgb_payload("rgba:"@ + text::join(seq![r, g, b, a], seq!['/'])) == Some(
            (component(r)->0, component(g)->0, component(b)->0),
        ),
{
    reveal_strlit("rgb:");
    reveal_strlit("rgba:");
    reveal_strlit("rgb");
    reveal_strlit("rgba");
    let three = seq![r, g, b];
    let four = seq![r, g, b, a];
    text::joining_is_undone_by_splitting(three, '/');
    text::joining_is_undone_by_splitting(four, '/');
    assert("rgb:"@ =~= "rgb"@ + seq![':']);
    assert("rgba:"@ =~= "rgba"@ + seq![':']);
    assert(text::ascii_lower("rgb"@) =~= "rgb"@);
    assert(text::ascii_lower("rgba"@) =~= "rgba"@);
    lemma_kind("rgb"@, "rgb:"@, text::join(three, seq!['/']), three);
    lemma_kind("rgba"@, "rgba:"@, text::join(four, seq!['/']), four);
    assert("rgb"@.len() == 3 && "rgba"@.len() == 4);
}

proof fn lemma_kind(kind: Seq<char>, head: Seq<char>, rest: Seq<char>, parts: Seq<Seq<char>>)
    requires
        kind.len() > 0,
        !kind.contains(':'),
        head == kind + seq![':'],
        text::ascii_lower(kind) == kind,
        !text::is_white_space(kind[0]),
        parts.len() >= 2,
        parts.last().len() > 0,
        !text::is_white_space(parts.last().last()),
        rest == text::join(parts, seq!['/']),
    ensures
        ({
            let s = head + rest;
            &&& text::trim(s) == s
            &&& text::first_index(s, ':') == kind.len()
            &&& s.take(kind.len() as int) == kind
            &&& s.skip(kind.len() as int + 1) == rest
        }),
{
    let s = head + rest;
    assert(rest.last() == parts.last().last());
    assert(s[0] == kind[0]);
    assert(s.last() == rest.last());
    assert forall|j: int| 0 <= j < kind.len() implies s[j] != ':' by {
        assert(s[j] == kind[j]);
        assert(kind.contains(kind[j]));
    }
    text::lemma_first_index_is(s, ':', kind.len() as int);
    assert(s.take(kind.len() as int) =~= kind);
    assert(s.skip(kind.len() as int + 1) =~= rest);
}

/// A terminal that tells its keyboard flags supports them; one that tells only what it is does not;
/// of one that tells neither nothing is known.
pub proof fn support_is_told_by_flags(b: Seq<u8>)
    ensures
        keyboard_support(b) == Some(true) <==> keyboard_flags(b, 0) is Some,
        keyboard_support(b) == Some(false) <==> keyboard_flags(b, 0) is None
            && has_device_attributes(b),
        keyboard_support(b) is None <==> keyboard_flags(b, 0) is None && !has_device_attributes(b),
{
}

/// Flags are read of a report of them: between its beginning and its end stands a number of one
/// byte, and of it the four lowest bits count.
pub proof fn flags_are_read_of_a_report(b: Seq<u8>, i: int)
    requires
        0 <= i,
    ensures
        keyboard_flags(b, i) matches Some(flags) ==> exists|k: int|
            i <= k && #[trigger] bytes_at(b, private_prefix(), k) && k + 3 < first_byte(
                b,
                0x75,
                k + 3,
            ) < b.len() && (text_between(b, k + 3, first_byte(b, 0x75, k + 3)) matches Some(s)
                && text::parsed_u64(s) matches Some(n) && n <= 0xff && flags == (n as u8) & 15),
    decreases b.len() - i + 1,
{
    if i <= b.len() && keyboard_flags(b, i) is Some {
        if !bytes_at(b, private_prefix(), i) {
            flags_are_read_of_a_report(b, i + 1);
        } else {
            let end = first_byte(b, 0x75, i + 3);
            if end >= b.len() || end == i + 3 {
                flags_are_read_of_a_report(b, i + 1);
            } else {
                a_byte_is_found_at_its_first_place(b, 0x75, i + 3);
                assert(bytes_at(b, private_prefix(), i));
            }
        }
    }
}

/// Text is read between two places exactly if what stands there is UTF-8.
pub proof fn only_valid_text_is_read(b: Seq<u8>, from: int, to: int)
    ensures
        text_between(b, from, to) is Some <==> vstd::utf8::valid_utf8(b.subrange(from, to)),
        text_between(b, from, to) matches Some(s) ==> s == vstd::utf8::decode_utf8(
            b.subrange(from, to),
        ),
{
}

proof fn lemma_first_after(before: Seq<u8>, t: Seq<u8>, behind: Seq<u8>)
    requires
        t.len() > 0,
        t[0] == 0x1b,
        forall|i: int| 0 <= i < before.len() ==> #[trigger] before[i] != 0x1b,
    ensures
        first_bytes(before + t + behind, t, 0) == Some(before.len() as int),
{
    let b = before + t + behind;
    let at = before.len() as int;
    bytes_are_found_at_their_first_place(b, t, 0);
    assert(b.subrange(at, at + t.len()) =~= t);
    assert(bytes_at(b, t, at));
    let k = first_bytes(b, t, 0)->0;
    if k < at {
        assert(b.subrange(k, k + t.len())[0] == t[0]);
        assert(b[k] == before[k]);
    } else if k > at {
        assert(!bytes_at(b, t, at));
    }
}

/// The position is read of the first report there is, whatever stands before and behind it: of the
/// text between its beginning and its end.
pub proof fn positions_are_read_of_the_first_report(
    before: Seq<u8>,
    payload: Seq<u8>,
    behind: Seq<u8>,
)
    requires
        forall|i: int| 0 <= i < before.len() ==> #[trigger] before[i] != 0x1b,
        forall|i: int| 0 <= i < payload.len() ==> #[trigger] payload[i] != 0x52,
        vstd::utf8::valid_utf8(payload),
    ensures
        cursor_of(before + seq![0x1bu8, 0x5bu8] + (payload + seq![0x52u8] + behind))
            == cursor_payload(vstd::utf8::decode_utf8(payload)),
{
    let t = seq![0x1bu8, 0x5bu8];
    let rest = payload + seq![0x52u8] + behind;
    let b = before + t + rest;
    lemma_first_after(before, t, rest);
    let from = before.len() as int + 2;
    let end = from + payload.len();
    a_byte_is_found_at_its_first_place(b, 0x52, from);
    let k = first_byte(b, 0x52, from);
    assert(b[end] == 0x52);
    if k < end {
        assert(b[k] == payload[k - from]);
    }
    assert(k == end);
    assert(b.subrange(from, end) =~= payload);
}

/// A colour is read of the first answer for its slot, whatever stands before and behind it: of the
/// text between its beginning and its end.
pub proof fn colours_are_read_of_the_first_answer(
    before: Seq<u8>,
    slot: u8,
    payload: Seq<u8>,
    behind: Seq<u8>,
)
    requires
        forall|i: int| 0 <= i < before.len() ==> #[trigger] before[i] != 0x1b,
        forall|i: int|
            0 <= i < payload.len() ==> #[trigger] payload[i] != 0x07 && payload[i] != 0x1b,
        vstd::utf8::valid_utf8(payload),
    ensures
        color_of(before + osc_prefix(slot) + (payload + seq![0x07u8] + behind), slot)
            == rgb_payload(vstd::utf8::decode_utf8(payload)),
        color_of(before + osc_prefix(slot) + (payload + seq![0x1bu8, 0x5cu8] + behind), slot)
            == rgb_payload(vstd::utf8::decode_utf8(payload)),
{
    lemma_answer(before, slot, payload, seq![0x07u8], behind);
    lemma_answer(before, slot, payload, seq![0x1bu8, 0x5cu8], behind);
}

proof fn lemma_answer(
    before: Seq<u8>,
    slot: u8,
    payload: Seq<u8>,
    ending: Seq<u8>,
    behind: Seq<u8>,
)
    requires
        forall|i: int| 0 <= i < before.len() ==> #[trigger] before[i] != 0x1b,
        forall|i: int|
            0 <= i < payload.len() ==> #[trigger] payload[i] != 0x07 && payload[i] != 0x1b,
        ending == seq![0x07u8] || ending == seq![0x1bu8, 0x5cu8],
        vstd::utf8::valid_utf8(payload),
    ensures
        color_of(before + osc_prefix(slot) + (payload + ending + behind), slot) == rgb_payload(
            vstd::utf8::decode_utf8(payload),
        ),
{
    let t = osc_prefix(slot);
    let rest = payload + ending + behind;
    let b = before + t + rest;
    assert(t[0] == 0x1b);
    lemma_first_after(before, t, rest);
    let from = before.len() as int + t.len();
    let end = from + payload.len();
    payloads_end_at_their_first_ending(b, from);
    assert(b[end] == ending[0]);
    if ending.len() == 2 {
        assert(b[end + 1] == ending[1]);
    }
    assert(ends_at(b, end));
    let k = (payload_end(b, from)->0).0;
    if k < end {
        assert(b[k] == payload[k - from]);
    }
    assert(k == end);
    assert(b.subrange(from, end) =~= payload);
}

} // verus!
