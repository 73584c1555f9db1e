//! Span records that tools report on their standard error: checking a record,
//! keeping what may be exported of it, and finding its parent.

use vstd::prelude::*;

use crate::json;
use crate::json::JsonValue;
use crate::text;

verus! {

/// Why a span record is refused.
#[derive(Debug)]
pub enum StderrSpanTelemetryError {
    NotObject,
    UnsupportedVersion,
    UnsupportedType,
    InvalidField(&'static str),
    UnsupportedSpanName,
}

/// The view of a refusal.
pub ghost enum Refusal {
    NotObject,
    UnsupportedVersion,
    UnsupportedType,
    InvalidField(Seq<char>),
    UnsupportedSpanName,
}

/// The schema version of the records.
pub const CURRENT_SCHEMA_VERSION: u64 = 1;

/// The most bytes that are kept of a text attribute.
pub const MAX_ATTRIBUTE_STRING_BYTES: usize = 1024;

impl View for StderrSpanTelemetryError {
    type V = Refusal;

    open spec fn view(&self) -> Refusal {
        match self {
            StderrSpanTelemetryError::NotObject => Refusal::NotObject,
            StderrSpanTelemetryError::UnsupportedVersion => Refusal::UnsupportedVersion,
            StderrSpanTelemetryError::UnsupportedType => Refusal::UnsupportedType,
            StderrSpanTelemetryError::InvalidField(f) => Refusal::InvalidField(f@),
            StderrSpanTelemetryError::UnsupportedSpanName => Refusal::UnsupportedSpanName,
        }
    }
}

impl StderrSpanTelemetryError {
    /// What the refusal reads like.
    pub fn message(&self) -> (r: String)
        ensures
            r@ == match self@ {
                Refusal::NotObject => "telemetry payload must be a JSON object"@,
                Refusal::UnsupportedVersion => "unsupported telemetry schema version"@,
                Refusal::UnsupportedType => "unsupported telemetry record type"@,
                Refusal::InvalidField(f) => "missing or invalid telemetry field `"@ + f + "`"@,
                Refusal::UnsupportedSpanName => "unsupported telemetry span name"@,
            },
    {
        match self {
            StderrSpanTelemetryError::NotObject => "telemetry payload must be a JSON object".to_owned(),
            StderrSpanTelemetryError::UnsupportedVersion => "unsupported telemetry schema version".to_owned(),
            StderrSpanTelemetryError::UnsupportedType => "unsupported telemetry record type".to_owned(),
            StderrSpanTelemetryError::InvalidField(f) => {
                let mut m = "missing or invalid telemetry field `".to_owned();
                m.push_str(f);
                m.push_str("`");
                m
            },
            StderrSpanTelemetryError::UnsupportedSpanName => "unsupported telemetry span name".to_owned(),
        }
    }
}

/// The value of an exported attribute.
#[derive(Debug)]
pub enum AttributeValue {
    Bool(bool),
    Int(i64),
    Unsigned(u64),
    Float { bits: u64 },
    Text(String),
}

/// An exported attribute.
#[derive(Debug)]
pub struct Attribute {
    pub key: String,
    pub value: AttributeValue,
}

/// A checked span record. Times are nanoseconds since the Unix epoch.
#[derive(Debug)]
pub struct SpanTelemetryRecord {
    pub name: String,
    pub span_id: Option<u64>,
    pub trace_id: Option<u128>,
    pub parent_span_id: Option<u64>,
    pub trace_flags: Option<u8>,
    pub traceparent: Option<String>,
    pub tracestate: Option<String>,
    pub start_unix_nanos: u64,
    pub end_unix_nanos: u64,
    pub attributes: Vec<Attribute>,
}

// ---- identifiers ----

/// Whether a text is exactly `len` hexadecimal digits.
pub open spec fn exact_hex(s: Seq<char>, len: int) -> bool {
    s.len() == len && forall|i: int| 0 <= i < s.len() ==> text::is_ascii_hexdigit(#[trigger] s[i])
}

/// The identifier that `len` hexadecimal digits stand for; zero stands for none.
pub open spec fn identifier(s: Seq<char>, len: int) -> Option<nat> {
    if exact_hex(s, len) && text::hex_value(s) != 0 {
        Some(text::hex_value(s))
    } else {
        None
    }
}

/// The flags that two hexadecimal digits stand for.
pub open spec fn flags(s: Seq<char>) -> Option<nat> {
    if exact_hex(s, 2) {
        Some(text::hex_value(s))
    } else {
        None
    }
}

/// Decides `exact_hex`.
pub fn is_exact_hex(value: &str, len: usize) -> (r: bool)
    ensures
        r == exact_hex(value@, len as int),
{
    let c = text::chars_of(value);
    if c.len() != len {
        return false;
    }
    let mut i: usize = 0;
    while i < c.len()
        invariant
            i <= c.len(),
            c@ == value@,
            forall|j: int| 0 <= j < i ==> text::is_ascii_hexdigit(#[trigger] c@[j]),
        decreases c.len() - i,
    {
        let d = c[i];
        if !(('0' <= d && d <= '9') || ('a' <= d && d <= 'f') || ('A' <= d && d <= 'F')) {
            assert(!text::is_ascii_hexdigit(c@[i as int]));
            return false;
        }
        i = i + 1;
    }
    true
}

/// Calls `opentelemetry::trace::TraceId::from_hex`, which reads hexadecimal digits as a
/// 128-bit number; thirty-two of them always fit.
#[verifier::external_body]
fn trace_id_from_hex(value: &str) -> (r: u128)
    requires
        exact_hex(value@, 32),
    ensures
        r as nat == text::hex_value(value@),
{
    match opentelemetry::trace::TraceId::from_hex(value) {
        Ok(id) => u128::from_be_bytes(id.to_bytes()),
        Err(_) => 0,
    }
}

/// Calls `opentelemetry::trace::SpanId::from_hex`, which reads hexadecimal digits as a
/// 64-bit number; sixteen of them always fit.
#[verifier::external_body]
fn span_id_from_hex(value: &str) -> (r: u64)
    requires
        exact_hex(value@, 16),
    ensures
        r as nat == text::hex_value(value@),
{
    match opentelemetry::trace::SpanId::from_hex(value) {
        Ok(id) => u64::from_be_bytes(id.to_bytes()),
        Err(_) => 0,
    }
}

/// Whether `opentelemetry::trace::TraceState` parses a `tracestate` header.
pub uninterp spec fn trace_state_parses(header: Seq<char>) -> bool;

/// Calls `TraceState::from_str`. Claims only that the outcome depends on the header alone.
#[verifier::external_body]
fn is_trace_state(header: &str) -> (r: bool)
    ensures
        r == trace_state_parses(header@),
{
    header.parse::<opentelemetry::trace::TraceState>().is_ok()
}

/// The trace identifier that a text stands for.
pub fn parse_trace_id(value: &str) -> (r: Option<u128>)
    ensures
        match r {
            Some(id) => identifier(value@, 32) == Some(id as nat),
            None => identifier(value@, 32) is None,
        },
{
    if !is_exact_hex(value, 32) {
        return None;
    }
    let id = trace_id_from_hex(value);
    if id == 0 {
        None
    } else {
        Some(id)
    }
}

/// The span identifier that a text stands for.
pub fn parse_span_id(value: &str) -> (r: Option<u64>)
    ensures
        match r {
            Some(id) => identifier(value@, 16) == Some(id as nat),
            None => identifier(value@, 16) is None,
        },
{
    if !is_exact_hex(value, 16) {
        return None;
    }
    let id = span_id_from_hex(value);
    if id == 0 {
        None
    } else {
        Some(id)
    }
}

/// The trace flags that a text stands for.
pub fn parse_trace_flags(value: &str) -> (r: Option<u8>)
    ensures
        match r {
            Some(f) => flags(value@) == Some(f as nat),
            None => flags(value@) is None,
        },
{
    if !is_exact_hex(value, 2) {
        return None;
    }
    let c = text::chars_of(value);
    proof {
        let s = value@;
        assert(text::is_ascii_hexdigit(s[0]));
        assert(text::is_ascii_hexdigit(s[1]));
        assert(s.drop_last().drop_last().len() == 0);
        assert(s.drop_last().last() == s[0]);
        assert(text::hex_value(s.drop_last().drop_last()) == 0);
        assert(text::hex_value(s.drop_last()) == text::hex_digit(s[0]));
    }
    Some(text::hex_digit_of(c[0]) * 16 + text::hex_digit_of(c[1]))
}

// ---- numbers ----

/// A value as an unsigned number: a number, or a text that is a notation of one.
pub open spec fn number_of(value: JsonValue) -> Option<u64> {
    match json::unsigned(value) {
        Some(n) => Some(n),
        None => match json::text_of(value) {
            Some(s) => text::parsed_u64(s),
            None => None,
        },
    }
}

fn u64_value(value: &JsonValue) -> (r: Option<u64>)
    ensures
        r == number_of(*value),
{
    match json::as_u64(value) {
        Some(n) => Some(n),
        None => match value {
            JsonValue::Text(s) => text::parse_u64(s.as_str()),
            _ => None,
        },
    }
}

// ---- fields under several names ----

/// The first of two fields that holds a text that is not empty, with its name.
pub open spec fn string_alias(
    fields: Seq<(String, JsonValue)>,
    a: Seq<char>,
    b: Seq<char>,
) -> Option<(Seq<char>, Seq<char>)> {
    match json::string_field(fields, a) {
        Some(s) => Some((a, s)),
        None => match json::string_field(fields, b) {
            Some(s) => Some((b, s)),
            None => None,
        },
    }
}

fn optional_string_alias(
    fields: &Vec<(String, JsonValue)>,
    a: &'static str,
    b: &'static str,
) -> (r: Option<(&'static str, String)>)
    ensures
        match r {
            Some((k, s)) => string_alias(fields@, a@, b@) == Some((k@, s@)),
            None => string_alias(fields@, a@, b@) is None,
        },
{
    match json::get_string(fields, a) {
        Some(s) => Some((a, s)),
        None => match json::get_string(fields, b) {
            Some(s) => Some((b, s)),
            None => None,
        },
    }
}

/// The number in field `key`.
pub open spec fn number_field(fields: Seq<(String, JsonValue)>, key: Seq<char>) -> Option<u64> {
    match json::field(fields, key) {
        Some(v) => number_of(v),
        None => None,
    }
}

fn get_number(fields: &Vec<(String, JsonValue)>, key: &str) -> (r: Option<u64>)
    ensures
        r == number_field(fields@, key@),
{
    match json::get(fields, key) {
        Some(v) => u64_value(v),
        None => None,
    }
}

/// The number in the first of four fields that holds one.
pub open spec fn number_alias(
    fields: Seq<(String, JsonValue)>,
    a: Seq<char>,
    b: Seq<char>,
    c: Seq<char>,
    d: Seq<char>,
) -> Option<u64> {
    if number_field(fields, a) is Some {
        number_field(fields, a)
    } else if number_field(fields, b) is Some {
        number_field(fields, b)
    } else if number_field(fields, c) is Some {
        number_field(fields, c)
    } else {
        number_field(fields, d)
    }
}

fn get_number_alias(
    fields: &Vec<(String, JsonValue)>,
    a: &str,
    b: &str,
    c: &str,
    d: &str,
) -> (r: Option<u64>)
    ensures
        r == number_alias(fields@, a@, b@, c@, d@),
{
    let first = get_number(fields, a);
    if first.is_some() {
        return first;
    }
    let second = get_number(fields, b);
    if second.is_some() {
        return second;
    }
    let third = get_number(fields, c);
    if third.is_some() {
        return third;
    }
    get_number(fields, d)
}

// ---- attributes ----

/// The attributes that may be exported.
pub open spec fn allowed_key(key: Seq<char>) -> bool {
    key == "error.type"@ || key == "error.message"@ || text::has_prefix(key, "browser_use."@)
        || text::has_prefix(key, "node_repl."@) || text::has_prefix(key, "js."@)
}

/// Decides `allowed_key`.
pub fn is_allowed_attribute_key(key: &str) -> (r: bool)
    ensures
        r == allowed_key(key@),
{
    let c = text::chars_of(key);
    let k = c.as_slice();
    text::eq_str(k, "error.type") || text::eq_str(k, "error.message") || text::starts_with(
        k,
        "browser_use.",
    ) || text::starts_with(k, "node_repl.") || text::starts_with(k, "js.")
}

/// The bytes of a character in UTF-8.
pub open spec fn utf8_len(c: char) -> int {
    if (c as u32) < 0x80 {
        1
    } else if (c as u32) < 0x800 {
        2
    } else if (c as u32) < 0x10000 {
        3
    } else {
        4
    }
}

/// The bytes of a text in UTF-8.
pub open spec fn utf8_size(s: Seq<char>) -> int
    decreases s.len(),
{
    if s.len() == 0 {
        0
    } else {
        utf8_size(s.drop_last()) + utf8_len(s.last())
    }
}

/// How many characters from `i` on fit into `room` bytes.
pub open spec fn fitting_bytes(s: Seq<char>, i: int, room: int) -> int
    decreases s.len() - i,
{
    if 0 <= i < s.len() && utf8_len(s[i]) <= room {
        1 + fitting_bytes(s, i + 1, room - utf8_len(s[i]))
    } else {
        0
    }
}

/// The longest beginning of a text that is not longer than the attribute limit.
pub open spec fn cut_attribute(s: Seq<char>) -> Seq<char> {
    s.take(fitting_bytes(s, 0, MAX_ATTRIBUTE_STRING_BYTES as int))
}

proof fn lemma_fitting_bytes(s: Seq<char>, i: int, room: int)
    requires
        0 <= i <= s.len(),
        room >= 0,
    ensures
        ({
            let n = i + fitting_bytes(s, i, room);
            &&& i <= n <= s.len()
            &&& utf8_size(s.take(n)) <= utf8_size(s.take(i)) + room
            &&& n < s.len() ==> utf8_size(s.take(n + 1)) > utf8_size(s.take(i)) + room
        }),
    decreases s.len() - i,
{
    if i < s.len() {
        assert(s.take(i + 1).drop_last() =~= s.take(i));
        if utf8_len(s[i]) <= room {
            lemma_fitting_bytes(s, i + 1, room - utf8_len(s[i]));
        }
    }
}

/// A text attribute is cut to its longest beginning that fits the limit: it fits, and one
/// character more would not.
pub proof fn attribute_cut_is_longest(s: Seq<char>)
    ensures
        utf8_size(cut_attribute(s)) <= MAX_ATTRIBUTE_STRING_BYTES,
        cut_attribute(s) == s.take(cut_attribute(s).len() as int),
        cut_attribute(s).len() < s.len() ==> utf8_size(s.take(cut_attribute(s).len() as int + 1))
            > MAX_ATTRIBUTE_STRING_BYTES,
{
    lemma_fitting_bytes(s, 0, MAX_ATTRIBUTE_STRING_BYTES as int);
    assert(s.take(0).len() == 0);
}

/// Cuts a text to the attribute limit.
pub fn truncate_attribute_string(value: &str) -> (r: String)
    ensures
        r@ == cut_attribute(value@),
{
    let c = text::chars_of(value);
    let mut room: usize = MAX_ATTRIBUTE_STRING_BYTES;
    let mut open = true;
    let mut i: usize = 0;
    while open && i < c.len()
        invariant
            i <= c.len(),
            c@ == value@,
            open ==> fitting_bytes(c@, 0, MAX_ATTRIBUTE_STRING_BYTES as int) == i + fitting_bytes(
                c@,
                i as int,
                room as int,
            ),
            !open ==> fitting_bytes(c@, 0, MAX_ATTRIBUTE_STRING_BYTES as int) == i,
        decreases c.len() - i, (if open { 1int } else { 0int }),
    {
        let code = c[i] as u32;
        let n: usize = if code < 0x80 {
            1
        } else if code < 0x800 {
            2
        } else if code < 0x10000 {
            3
        } else {
            4
        };
        if n <= room {
            room = room - n;
            i = i + 1;
        } else {
            open = false;
        }
    }
    let r = text::string_of_range(c.as_slice(), 0, i);
    assert(r@ =~= cut_attribute(value@));
    r
}

/// The view of an attribute value.
pub ghost enum AttributeView {
    Bool(bool),
    Int(i64),
    Unsigned(u64),
    Float { bits: u64 },
    Text(Seq<char>),
}

impl View for AttributeValue {
    type V = AttributeView;

    open spec fn view(&self) -> AttributeView {
        match self {
            AttributeValue::Bool(b) => AttributeView::Bool(*b),
            AttributeValue::Int(n) => AttributeView::Int(*n),
            AttributeValue::Unsigned(n) => AttributeView::Unsigned(*n),
            AttributeValue::Float { bits } => AttributeView::Float { bits: *bits },
            AttributeValue::Text(s) => AttributeView::Text(s@),
        }
    }
}

/// What is exported of an attribute value; nothing of a nested or missing one.
pub open spec fn exported_value(value: JsonValue) -> Option<AttributeView> {
    match value {
        JsonValue::Bool(b) => Some(AttributeView::Bool(b)),
        JsonValue::Int(n) => Some(AttributeView::Int(n)),
        JsonValue::Unsigned(n) => Some(
            if n <= i64::MAX {
                AttributeView::Int(n as i64)
            } else {
                AttributeView::Unsigned(n)
            },
        ),
        JsonValue::Float { bits } => Some(AttributeView::Float { bits }),
        JsonValue::Text(s) => Some(AttributeView::Text(cut_attribute(s@))),
        _ => None,
    }
}

/// The views of attributes: their names and values.
pub open spec fn attribute_views(a: Seq<Attribute>) -> Seq<(Seq<char>, AttributeView)> {
    a.map_values(|x: Attribute| (x.key@, x.value@))
}

/// What is exported of the first `n` attributes.
pub open spec fn exported(fields: Seq<(String, JsonValue)>, n: int) -> Seq<
    (Seq<char>, AttributeView),
>
    decreases n,
{
    if n <= 0 {
        Seq::empty()
    } else {
        let rest = exported(fields, n - 1);
        if allowed_key(fields[n - 1].0@) && json::counts(fields, n - 1) {
            match exported_value(fields[n - 1].1) {
                Some(v) => rest.push((fields[n - 1].0@, v)),
                None => rest,
            }
        } else {
            rest
        }
    }
}

fn safe_attribute_value(value: &JsonValue) -> (r: Option<AttributeValue>)
    ensures
        match r {
            Some(v) => exported_value(*value) == Some(v@),
            None => exported_value(*value) is None,
        },
{
    match value {
        JsonValue::Bool(b) => Some(AttributeValue::Bool(*b)),
        JsonValue::Int(n) => Some(AttributeValue::Int(*n)),
        JsonValue::Unsigned(n) => if *n <= 0x7fff_ffff_ffff_ffff {
            Some(AttributeValue::Int(*n as i64))
        } else {
            Some(AttributeValue::Unsigned(*n))
        },
        JsonValue::Float { bits } => Some(AttributeValue::Float { bits: *bits }),
        JsonValue::Text(s) => Some(AttributeValue::Text(truncate_attribute_string(s.as_str()))),
        _ => None,
    }
}

/// The attributes that may be exported, in order.
pub fn sanitized_attributes(fields: &Vec<(String, JsonValue)>) -> (r: Vec<Attribute>)
    ensures
        attribute_views(r@) == exported(fields@, fields@.len() as int),
{
    let mut r: Vec<Attribute> = Vec::new();
    let mut i: usize = 0;
    assert(attribute_views(r@) =~= exported(fields@, 0));
    while i < fields.len()
        invariant
            i <= fields.len(),
            attribute_views(r@) == exported(fields@, i as int),
        decreases fields.len() - i,
    {
        let entry = &fields[i];
        let ghost before = r@;
        if is_allowed_attribute_key(entry.0.as_str()) && json::field_counts(fields, i) {
            if let Some(value) = safe_attribute_value(&entry.1) {
                let ghost seen = value@;
                r.push(Attribute { key: entry.0.clone(), value });
                assert(attribute_views(r@) =~= attribute_views(before).push((entry.0@, seen)));
            }
        }
        i = i + 1;
    }
    r
}

/// Nothing is exported under a name that is not allowed.
pub proof fn exported_names_are_allowed(fields: Seq<(String, JsonValue)>, n: int)
    requires
        0 <= n <= fields.len(),
    ensures
        forall|i: int|
            0 <= i < exported(fields, n).len() ==> allowed_key((#[trigger] exported(fields, n)[i]).0),
    decreases n,
{
    if n > 0 {
        exported_names_are_allowed(fields, n - 1);
        let rest = exported(fields, n - 1);
        let all = exported(fields, n);
        assert forall|i: int| 0 <= i < all.len() implies allowed_key((#[trigger] all[i]).0) by {
            if i < rest.len() {
                assert(all[i] == rest[i]);
            }
        }
    }
}

// ---- records ----

/// The span names that may be reported.
pub open spec fn allowed_name(name: Seq<char>) -> bool {
    name == "node_repl.js"@ || name == "browser_use.playwright.dom_snapshot"@ || name
        == "browser_use.tab.goto"@ || name == "browser_use.tab.click"@ || name
        == "browser_use.tab.type"@ || name == "browser_use.tab.screenshot"@ || name
        == "browser_use.cdp.execute"@ || name == "browser_use.tab.wait_for_load_state"@
}

fn is_allowed_span_name(name: &str) -> (r: bool)
    ensures
        r == allowed_name(name@),
{
    let c = text::chars_of(name);
    let n = c.as_slice();
    text::eq_str(n, "node_repl.js") || text::eq_str(n, "browser_use.playwright.dom_snapshot")
        || text::eq_str(n, "browser_use.tab.goto") || text::eq_str(n, "browser_use.tab.click")
        || text::eq_str(n, "browser_use.tab.type") || text::eq_str(n, "browser_use.tab.screenshot")
        || text::eq_str(n, "browser_use.cdp.execute") || text::eq_str(
        n,
        "browser_use.tab.wait_for_load_state",
    )
}

/// What is wrong with the version, the type or the name of a record.
pub open spec fn header_refusal(fields: Seq<(String, JsonValue)>) -> Option<Refusal> {
    let version = match json::field(fields, "v"@) {
        Some(v) => json::unsigned(v),
        None => None,
    };
    let kind = match json::field(fields, "type"@) {
        Some(v) => json::text_of(v),
        None => None,
    };
    if version is None {
        Some(Refusal::InvalidField("v"@))
    } else if version != Some(CURRENT_SCHEMA_VERSION) {
        Some(Refusal::UnsupportedVersion)
    } else if kind is None {
        Some(Refusal::InvalidField("type"@))
    } else if kind != Some("span"@) {
        Some(Refusal::UnsupportedType)
    } else {
        match json::string_field(fields, "name"@) {
            None => Some(Refusal::InvalidField("name"@)),
            Some(name) => if allowed_name(name) {
                None
            } else {
                Some(Refusal::UnsupportedSpanName)
            },
        }
    }
}

/// The text of an identifier of the record, under either of its names.
pub open spec fn span_text(f: Seq<(String, JsonValue)>) -> Option<(Seq<char>, Seq<char>)> {
    string_alias(f, "span_id"@, "spanId"@)
}

/// The text of the trace identifier.
pub open spec fn trace_text(f: Seq<(String, JsonValue)>) -> Option<(Seq<char>, Seq<char>)> {
    string_alias(f, "trace_id"@, "traceId"@)
}

/// The text of the parent's span identifier.
pub open spec fn parent_text(f: Seq<(String, JsonValue)>) -> Option<(Seq<char>, Seq<char>)> {
    string_alias(f, "parent_span_id"@, "parentSpanId"@)
}

/// The text of the trace flags.
pub open spec fn flags_text(f: Seq<(String, JsonValue)>) -> Option<(Seq<char>, Seq<char>)> {
    string_alias(f, "trace_flags"@, "traceFlags"@)
}

/// What is wrong with the identifiers of a record: one that does not parse, explicit
/// identifiers that are not complete, or neither identifiers nor a `traceparent`.
pub open spec fn identity_refusal(f: Seq<(String, JsonValue)>) -> Option<Refusal> {
    if span_text(f) matches Some((k, s)) && identifier(s, 16) is None {
        Some(Refusal::InvalidField((span_text(f)->0).0))
    } else if trace_text(f) matches Some((k, s)) && identifier(s, 32) is None {
        Some(Refusal::InvalidField((trace_text(f)->0).0))
    } else if parent_text(f) matches Some((k, s)) && identifier(s, 16) is None {
        Some(Refusal::InvalidField((parent_text(f)->0).0))
    } else if flags_text(f) matches Some((k, s)) && flags(s) is None {
        Some(Refusal::InvalidField((flags_text(f)->0).0))
    } else if span_text(f) is Some || trace_text(f) is Some || parent_text(f) is Some || flags_text(
        f,
    ) is Some {
        if span_text(f) is None {
            Some(Refusal::InvalidField("span_id"@))
        } else if trace_text(f) is None {
            Some(Refusal::InvalidField("trace_id"@))
        } else if parent_text(f) is None {
            Some(Refusal::InvalidField("parent_span_id"@))
        } else if flags_text(f) is None {
            Some(Refusal::InvalidField("trace_flags"@))
        } else {
            None
        }
    } else if json::string_field(f, "traceparent"@) is None {
        Some(Refusal::InvalidField("traceparent"@))
    } else {
        None
    }
}

/// The start of the span.
pub open spec fn start_of(f: Seq<(String, JsonValue)>) -> Option<u64> {
    number_alias(
        f,
        "start_unix_nanos"@,
        "startTimeUnixNanos"@,
        "startTimeUnixNano"@,
        "start_time_unix_nanos"@,
    )
}

/// The end of the span.
pub open spec fn end_of(f: Seq<(String, JsonValue)>) -> Option<u64> {
    number_alias(
        f,
        "end_unix_nanos"@,
        "endTimeUnixNanos"@,
        "endTimeUnixNano"@,
        "end_time_unix_nanos"@,
    )
}

/// What is wrong with the times of a record.
pub open spec fn time_refusal(f: Seq<(String, JsonValue)>) -> Option<Refusal> {
    match (start_of(f), end_of(f)) {
        (None, _) => Some(Refusal::InvalidField("start_unix_nanos"@)),
        (Some(_), None) => Some(Refusal::InvalidField("end_unix_nanos"@)),
        (Some(s), Some(e)) => if e < s {
            Some(Refusal::InvalidField("end_unix_nanos"@))
        } else {
            None
        },
    }
}

/// Why a payload is refused, if it is.
pub open spec fn record_refusal(payload: JsonValue) -> Option<Refusal> {
    match payload {
        JsonValue::Object(fields) => if header_refusal(fields@) is Some {
            header_refusal(fields@)
        } else if identity_refusal(fields@) is Some {
            identity_refusal(fields@)
        } else {
            time_refusal(fields@)
        },
        _ => Some(Refusal::NotObject),
    }
}

/// The attributes of a record: the fields of `attrs`, or of `attributes` where there is no
/// `attrs`, as far as they may be exported.
pub open spec fn record_attributes(f: Seq<(String, JsonValue)>) -> Seq<
    (Seq<char>, AttributeView),
> {
    let holder = match json::field(f, "attrs"@) {
        Some(v) => Some(v),
        None => json::field(f, "attributes"@),
    };
    match holder {
        Some(JsonValue::Object(a)) => exported(a@, a@.len() as int),
        _ => Seq::empty(),
    }
}

/// Whether a record is what the fields of a payload say.
pub open spec fn describes(r: SpanTelemetryRecord, f: Seq<(String, JsonValue)>) -> bool {
    &&& Some(r.name@) == json::string_field(f, "name"@)
    &&& match (r.span_id, span_text(f)) {
        (Some(id), Some((_, s))) => identifier(s, 16) == Some(id as nat),
        (None, None) => true,
        _ => false,
    }
    &&& match (r.trace_id, trace_text(f)) {
        (Some(id), Some((_, s))) => identifier(s, 32) == Some(id as nat),
        (None, None) => true,
        _ => false,
    }
    &&& match (r.parent_span_id, parent_text(f)) {
        (Some(id), Some((_, s))) => identifier(s, 16) == Some(id as nat),
        (None, None) => true,
        _ => false,
    }
    &&& match (r.trace_flags, flags_text(f)) {
        (Some(x), Some((_, s))) => flags(s) == Some(x as nat),
        (None, None) => true,
        _ => false,
    }
    &&& text::option_view(r.traceparent) == json::string_field(f, "traceparent"@)
    &&& text::option_view(r.tracestate) == json::string_field(f, "tracestate"@)
    &&& Some(r.start_unix_nanos) == start_of(f)
    &&& Some(r.end_unix_nanos) == end_of(f)
    &&& attribute_views(r.attributes@) == record_attributes(f)
}

fn check_header(fields: &Vec<(String, JsonValue)>) -> (r: Result<String, StderrSpanTelemetryError>)
    ensures
        match r {
            Ok(name) => header_refusal(fields@) is None && json::string_field(fields@, "name"@)
                == Some(name@),
            Err(e) => header_refusal(fields@) == Some(e@),
        },
{
    let version = match json::get(fields, "v") {
        Some(v) => json::as_u64(v),
        None => None,
    };
    match version {
        None => {
            return Err(StderrSpanTelemetryError::InvalidField("v"));
        },
        Some(v) => {
            if v != CURRENT_SCHEMA_VERSION {
                return Err(StderrSpanTelemetryError::UnsupportedVersion);
            }
        },
    }
    match json::get(fields, "type") {
        Some(JsonValue::Text(kind)) => {
            if !text::same_str(kind.as_str(), "span") {
                return Err(StderrSpanTelemetryError::UnsupportedType);
            }
        },
        _ => {
            return Err(StderrSpanTelemetryError::InvalidField("type"));
        },
    }
    match json::get_string(fields, "name") {
        None => Err(StderrSpanTelemetryError::InvalidField("name")),
        Some(name) => if is_allowed_span_name(name.as_str()) {
            Ok(name)
        } else {
            Err(StderrSpanTelemetryError::UnsupportedSpanName)
        },
    }
}

fn attributes_of(fields: &Vec<(String, JsonValue)>) -> (r: Vec<Attribute>)
    ensures
        attribute_views(r@) == record_attributes(fields@),
{
    let holder = match json::get(fields, "attrs") {
        Some(v) => Some(v),
        None => json::get(fields, "attributes"),
    };
    match holder {
        Some(JsonValue::Object(a)) => sanitized_attributes(a),
        _ => {
            let r: Vec<Attribute> = Vec::new();
            assert(attribute_views(r@) =~= record_attributes(fields@));
            r
        },
    }
}

/// Checks a payload and keeps what may be exported of it.
pub fn parse_span_telemetry_record(payload: &JsonValue) -> (r: Result<
    SpanTelemetryRecord,
    StderrSpanTelemetryError,
>)
    ensures
        match r {
            Ok(record) => record_refusal(*payload) is None && (payload matches JsonValue::Object(f)
                && describes(record, f@)),
            Err(e) => record_refusal(*payload) == Some(e@),
        },
{
    let fields = match payload {
        JsonValue::Object(fields) => fields,
        _ => {
            return Err(StderrSpanTelemetryError::NotObject);
        },
    };
    let name = match check_header(fields) {
        Ok(name) => name,
        Err(e) => {
            return Err(e);
        },
    };
    let span_id = match optional_string_alias(fields, "span_id", "spanId") {
        None => None,
        Some((key, s)) => match parse_span_id(s.as_str()) {
            Some(id) => Some(id),
            None => {
                return Err(StderrSpanTelemetryError::InvalidField(key));
            },
        },
    };
    let trace_id = match optional_string_alias(fields, "trace_id", "traceId") {
        None => None,
        Some((key, s)) => match parse_trace_id(s.as_str()) {
            Some(id) => Some(id),
            None => {
                return Err(StderrSpanTelemetryError::InvalidField(key));
            },
        },
    };
    let parent_span_id = match optional_string_alias(fields, "parent_span_id", "parentSpanId") {
        None => None,
        Some((key, s)) => match parse_span_id(s.as_str()) {
            Some(id) => Some(id),
            None => {
                return Err(StderrSpanTelemetryError::InvalidField(key));
            },
        },
    };
    let trace_flags = match optional_string_alias(fields, "trace_flags", "traceFlags") {
        None => None,
        Some((key, s)) => match parse_trace_flags(s.as_str()) {
            Some(f) => Some(f),
            None => {
                return Err(StderrSpanTelemetryError::InvalidField(key));
            },
        },
    };
    let traceparent = json::get_string(fields, "traceparent");
    let tracestate = json::get_string(fields, "tracestate");
    if span_id.is_some() || trace_id.is_some() || parent_span_id.is_some()
        || trace_flags.is_some() {
        if span_id.is_none() {
            return Err(StderrSpanTelemetryError::InvalidField("span_id"));
        }
        if trace_id.is_none() {
            return Err(StderrSpanTelemetryError::InvalidField("trace_id"));
        }
        if parent_span_id.is_none() {
            return Err(StderrSpanTelemetryError::InvalidField("parent_span_id"));
        }
        if trace_flags.is_none() {
            return Err(StderrSpanTelemetryError::InvalidField("trace_flags"));
        }
    } else if traceparent.is_none() {
        return Err(StderrSpanTelemetryError::InvalidField("traceparent"));
    }
    assert(identity_refusal(fields@) is None);
    let start = match get_number_alias(
        fields,
        "start_unix_nanos",
        "startTimeUnixNanos",
        "startTimeUnixNano",
        "start_time_unix_nanos",
    ) {
        Some(n) => n,
        None => {
            return Err(StderrSpanTelemetryError::InvalidField("start_unix_nanos"));
        },
    };
    let end = match get_number_alias(
        fields,
        "end_unix_nanos",
        "endTimeUnixNanos",
        "endTimeUnixNano",
        "end_time_unix_nanos",
    ) {
        Some(n) => n,
        None => {
            return Err(StderrSpanTelemetryError::InvalidField("end_unix_nanos"));
        },
    };
    if end < start {
        return Err(StderrSpanTelemetryError::InvalidField("end_unix_nanos"));
    }
    Ok(
        SpanTelemetryRecord {
            name,
            span_id,
            trace_id,
            parent_span_id,
            trace_flags,
            traceparent,
            tracestate,
            start_unix_nanos: start,
            end_unix_nanos: end,
            attributes: attributes_of(fields),
        },
    )
}

/// A time as whole seconds and the nanoseconds of the last one.
pub fn timestamp_from_unix_nanos(nanos: u64) -> (r: (u64, u32))
    ensures
        r.0 * 1_000_000_000 + r.1 == nanos,
        r.1 < 1_000_000_000,
{
    (nanos / 1_000_000_000, (nanos % 1_000_000_000) as u32)
}

// ---- the parent of a span ----

/// Where the parent of a span is found.
#[derive(Debug)]
pub enum ParentContext {
    Explicit { trace_id: u128, parent_span_id: u64, trace_flags: u8, tracestate: Option<String> },
    Headers { traceparent: String, tracestate: Option<String> },
}

/// Whether a record names its parent by explicit identifiers.
pub open spec fn has_explicit_parent(r: SpanTelemetryRecord) -> bool {
    r.trace_id is Some && r.parent_span_id is Some && r.trace_flags is Some
}

/// The parent of a record, when its trace state is known to parse or not.
pub open spec fn parent_is(
    r: SpanTelemetryRecord,
    trace_state_ok: bool,
    result: Result<ParentContext, StderrSpanTelemetryError>,
) -> bool {
    if has_explicit_parent(r) {
        if r.tracestate is Some && !trace_state_ok {
            result matches Err(e) && e@ == Refusal::InvalidField("tracestate"@)
        } else {
            result matches Ok(ParentContext::Explicit {
                trace_id,
                parent_span_id,
                trace_flags,
                tracestate,
            }) && r.trace_id == Some(trace_id) && r.parent_span_id == Some(parent_span_id)
                && r.trace_flags == Some(trace_flags) && tracestate == r.tracestate
        }
    } else {
        match r.traceparent {
            Some(t) => result matches Ok(ParentContext::Headers { traceparent, tracestate })
                && traceparent == t && tracestate == r.tracestate,
            None => result matches Err(e) && e@ == Refusal::InvalidField("traceparent"@),
        }
    }
}

impl SpanTelemetryRecord {
    /// The parent of the record, given whether its trace state parses.
    pub fn parent_context_with(&self, trace_state_ok: bool) -> (r: Result<
        ParentContext,
        StderrSpanTelemetryError,
    >)
        ensures
            parent_is(*self, trace_state_ok, r),
    {
        match (self.trace_id, self.parent_span_id, self.trace_flags) {
            (Some(trace_id), Some(parent_span_id), Some(trace_flags)) => {
                if self.tracestate.is_some() && !trace_state_ok {
                    return Err(StderrSpanTelemetryError::InvalidField("tracestate"));
                }
                Ok(
                    ParentContext::Explicit {
                        trace_id,
                        parent_span_id,
                        trace_flags,
                        tracestate: text::clone_option(&self.tracestate),
                    },
                )
            },
            _ => match &self.traceparent {
                Some(t) => Ok(
                    ParentContext::Headers {
                        traceparent: t.clone(),
                        tracestate: text::clone_option(&self.tracestate),
                    },
                ),
                None => Err(StderrSpanTelemetryError::InvalidField("traceparent")),
            },
        }
    }

    /// The parent of the record.
    pub fn parent_context(&self) -> (r: Result<ParentContext, StderrSpanTelemetryError>)
        ensures
            parent_is(
                *self,
                self.tracestate matches Some(s) && trace_state_parses(s@),
                r,
            ),
    {
        let ok = match &self.tracestate {
            Some(s) => is_trace_state(s.as_str()),
            None => false,
        };
        self.parent_context_with(ok)
    }
}

/// A record that was accepted has a parent, but for a trace state that does not parse.
pub proof fn accepted_records_have_parents(payload: JsonValue, record: SpanTelemetryRecord)
    requires
        record_refusal(payload) is None,
        payload matches JsonValue::Object(f) && describes(record, f@),
    ensures
        has_explicit_parent(record) || record.traceparent is Some,
        has_explicit_parent(record) <==> record.span_id is Some,
        record.start_unix_nanos <= record.end_unix_nanos,
{
}

// ---- what of a record is kept ----

/// Every attribute with an allowed name and a plain value is exported with that value; what is
/// exported stands in the record under an allowed name; and attributes keep their order.
pub proof fn allowed_attributes_are_exported(fields: Seq<(String, JsonValue)>, n: int, i: int, k: int)
    requires
        0 <= n <= fields.len(),
    ensures
        0 <= i < n && allowed_key(fields[i].0@) && json::counts(fields, i) && exported_value(
            fields[i].1,
        ) is Some ==> exported(fields, n).contains(
            (fields[i].0@, exported_value(fields[i].1)->0),
        ),
        0 <= k < exported(fields, n).len() ==> exists|j: int|
            0 <= j < n && allowed_key((#[trigger] fields[j]).0@) && exported(fields, n)[k] == (
                fields[j].0@,
                exported_value(fields[j].1)->0,
            ) && exported_value(fields[j].1) is Some,
        exported(fields, n).len() <= n,
    decreases n,
{
    if n > 0 {
        allowed_attributes_are_exported(fields, n - 1, i, k);
        let before = exported(fields, n - 1);
        let after = exported(fields, n);
        if i < n - 1 && before.contains((fields[i].0@, exported_value(fields[i].1)->0)) {
            let p = before.index_of((fields[i].0@, exported_value(fields[i].1)->0));
            assert(after[p] == before[p]);
        }
        if after.len() > before.len() {
            assert(after[before.len() as int] == (
                fields[n - 1].0@,
                exported_value(fields[n - 1].1)->0,
            ));
        }
        if 0 <= k < before.len() {
            let j = choose|j: int|
                0 <= j < n - 1 && allowed_key((#[trigger] fields[j]).0@) && before[k] == (
                    fields[j].0@,
                    exported_value(fields[j].1)->0,
                ) && exported_value(fields[j].1) is Some;
            assert(after[k] == before[k]);
            assert(allowed_key(fields[j].0@));
        } else if k == before.len() && after.len() > before.len() {
            assert(allowed_key(fields[n - 1].0@));
        }
    }
}

/// Truth values and numbers are exported as they are and text up to its limit; nothing, lists and
/// objects are not exported.
pub proof fn plain_values_are_exported_as_they_are(value: JsonValue)
    ensures
        value matches JsonValue::Bool(b) ==> exported_value(value) == Some(AttributeView::Bool(b)),
        value matches JsonValue::Int(n) ==> exported_value(value) == Some(AttributeView::Int(n)),
        value matches JsonValue::Unsigned(n) ==> (match exported_value(value) {
            Some(AttributeView::Int(m)) => m == n,
            Some(AttributeView::Unsigned(m)) => m == n && n > i64::MAX,
            _ => false,
        }),
        value matches JsonValue::Float { bits } ==> exported_value(value) == Some(
            AttributeView::Float { bits },
        ),
        value matches JsonValue::Text(s) && utf8_size(s@) <= 1024 ==> exported_value(value) == Some(
            AttributeView::Text(value->Text_0@),
        ),
        value is Null || value is Array || value is Object ==> exported_value(value) is None,
{
    if value is Text && utf8_size(value->Text_0@) <= 1024 {
        let s = value->Text_0@;
        attribute_cut_is_longest(s);
        lemma_fitting_bytes(s, 0, MAX_ATTRIBUTE_STRING_BYTES as int);
        let n = cut_attribute(s).len() as int;
        if n < s.len() {
            lemma_utf8_size_grows(s, n + 1);
        } else {
            assert(s.take(n) =~= s);
        }
    }
}

proof fn lemma_utf8_size_grows(s: Seq<char>, n: int)
    requires
        0 <= n <= s.len(),
    ensures
        utf8_size(s.take(n)) <= utf8_size(s),
    decreases s.len() - n,
{
    if n < s.len() {
        lemma_utf8_size_grows(s, n + 1);
        assert(s.take(n + 1).drop_last() =~= s.take(n));
    } else {
        assert(s.take(n) =~= s);
    }
}

/// An accepted record is a span of the known version under an allowed name, and it names all of its
/// span, its trace, its parent and its flags, or none of them and then its parent's header.
pub proof fn accepted_records_are_complete(payload: JsonValue)
    requires
        record_refusal(payload) is None,
    ensures
        payload is Object,
        ({
            let f = payload->Object_0@;
            let named = span_text(f) is Some;
            &&& json::field(f, "v"@) is Some && json::unsigned(json::field(f, "v"@)->0) == Some(1u64)
            &&& json::field(f, "type"@) is Some && json::text_of(json::field(f, "type"@)->0) == Some(
                "span"@,
            )
            &&& json::string_field(f, "name"@) is Some && allowed_name(
                json::string_field(f, "name"@)->0,
            )
            &&& trace_text(f) is Some == named && parent_text(f) is Some == named && flags_text(
                f,
            ) is Some == named
            &&& !named ==> json::string_field(f, "traceparent"@) is Some
            &&& named ==> identifier((span_text(f)->0).1, 16) is Some && identifier(
                (trace_text(f)->0).1,
                32,
            ) is Some && identifier((parent_text(f)->0).1, 16) is Some && flags(
                (flags_text(f)->0).1,
            ) is Some
            &&& start_of(f) is Some && end_of(f) is Some && start_of(f)->0 <= end_of(f)->0
        }),
{
}

/// A record that has all this is accepted.
pub proof fn complete_records_are_accepted(f: Vec<(String, JsonValue)>)
    requires
        json::field(f@, "v"@) is Some && json::unsigned(json::field(f@, "v"@)->0) == Some(1u64),
        json::field(f@, "type"@) is Some && json::text_of(json::field(f@, "type"@)->0) == Some(
            "span"@,
        ),
        json::string_field(f@, "name"@) is Some && allowed_name(json::string_field(f@, "name"@)->0),
        start_of(f@) is Some && end_of(f@) is Some && start_of(f@)->0 <= end_of(f@)->0,
        ({
            let all = (span_text(f@) is Some && identifier((span_text(f@)->0).1, 16) is Some) && (
            trace_text(f@) is Some && identifier((trace_text(f@)->0).1, 32) is Some) && (parent_text(
                f@,
            ) is Some && identifier((parent_text(f@)->0).1, 16) is Some) && (flags_text(f@) is Some
                && flags((flags_text(f@)->0).1) is Some);
            let none = span_text(f@) is None && trace_text(f@) is None && parent_text(f@) is None
                && flags_text(f@) is None;
            all || none && json::string_field(f@, "traceparent"@) is Some
        }),
    ensures
        record_refusal(JsonValue::Object(f)) is None,
{
}

/// An identifier is as many hexadecimal digits as it takes, is not zero, and is the number that the
/// digits write, in either case of letters.
pub proof fn identifiers_are_numbers(s: Seq<char>, len: int)
    ensures
        match identifier(s, len) {
            Some(id) => s.len() == len && id > 0 && id == text::hex_value(s) && (forall|i: int|
                0 <= i < s.len() ==> text::is_ascii_hexdigit(#[trigger] s[i])),
            None => s.len() != len || text::hex_value(s) == 0 || exists|i: int|
                0 <= i < s.len() && !text::is_ascii_hexdigit(#[trigger] s[i]),
        },
        match flags(s) {
            Some(bits) => s.len() == 2 && bits == text::hex_value(s),
            None => s.len() != 2 || exists|i: int|
                0 <= i < s.len() && !text::is_ascii_hexdigit(#[trigger] s[i]),
        },
{
}

/// A name is looked for in both spellings: the first where it is there and not empty, and else the
/// second.
pub proof fn both_spellings_are_read(
    fields: Seq<(String, JsonValue)>,
    a: Seq<char>,
    b: Seq<char>,
    c: Seq<char>,
    d: Seq<char>,
)
    ensures
        match string_alias(fields, a, b) {
            Some((key, s)) => json::string_field(fields, key) == Some(s) && (key == a || key == b
                && json::string_field(fields, a) is None),
            None => json::string_field(fields, a) is None && json::string_field(fields, b) is None,
        },
        match number_alias(fields, a, b, c, d) {
            Some(n) => number_field(fields, a) == Some(n) || number_field(fields, b) == Some(n)
                || number_field(fields, c) == Some(n) || number_field(fields, d) == Some(n),
            None => number_field(fields, a) is None && number_field(fields, b) is None
                && number_field(fields, c) is None && number_field(fields, d) is None,
        },
        number_field(fields, a) is Some ==> number_alias(fields, a, b, c, d) == number_field(
            fields,
            a,
        ),
{
}

/// A number is read alike whether it is written as a number or as text.
pub proof fn numbers_may_be_text(n: u64, s: String)
    requires
        s@ == text::decimal(n as nat),
    ensures
        number_of(JsonValue::Unsigned(n)) == Some(n),
        number_of(JsonValue::Text(s)) == Some(n),
        n <= i64::MAX ==> number_of(JsonValue::Int(n as i64)) == Some(n),
        forall|m: i64| m < 0 ==> #[trigger] number_of(JsonValue::Int(m)) is None,
{
    text::decimal_round_trip(n as nat);
}

/// The attributes of a record are found under either of their names, the shorter first.
pub proof fn attributes_have_two_names(f: Seq<(String, JsonValue)>)
    ensures
        json::field(f, "attrs"@) is None && json::field(f, "attributes"@) is None
            ==> record_attributes(f) == Seq::<(Seq<char>, AttributeView)>::empty(),
        json::field(f, "attrs"@) matches Some(JsonValue::Object(a)) ==> record_attributes(f)
            == exported(a@, a@.len() as int),
        json::field(f, "attrs"@) is None ==> (json::field(f, "attributes"@) matches Some(
            JsonValue::Object(a),
        ) ==> record_attributes(f) == exported(a@, a@.len() as int)),
{
}

/// The parent of a span is the one that the record names; without one it is the one of the header,
/// and a record with neither is refused.
pub proof fn parents_are_the_named_ones(
    r: SpanTelemetryRecord,
    trace_state_ok: bool,
    result: Result<ParentContext, StderrSpanTelemetryError>,
)
    requires
        parent_is(r, trace_state_ok, result),
    ensures
        result matches Ok(ParentContext::Explicit { trace_id, parent_span_id, trace_flags, tracestate })
            ==> r.trace_id == Some(trace_id) && r.parent_span_id == Some(parent_span_id)
            && r.trace_flags == Some(trace_flags) && r.tracestate == tracestate && (
        r.tracestate is None || trace_state_ok),
        result matches Ok(ParentContext::Headers { traceparent, tracestate }) ==> r.traceparent
            == Some(traceparent) && r.tracestate == tracestate && (r.trace_id is None
            || r.parent_span_id is None || r.trace_flags is None),
        result is Err ==> (r.trace_id is Some && r.parent_span_id is Some && r.trace_flags is Some
            && r.tracestate is Some && !trace_state_ok) || (r.traceparent is None && (
        r.trace_id is None || r.parent_span_id is None || r.trace_flags is None)),
{
}

/// A record that was read holds what its fields say, each in its own place.
pub proof fn records_hold_their_fields(r: SpanTelemetryRecord, f: Seq<(String, JsonValue)>)
    requires
        describes(r, f),
    ensures
        json::string_field(f, "name"@) == Some(r.name@),
        r.span_id matches Some(id) ==> (string_alias(f, "span_id"@, "spanId"@) matches Some((k, s))
            && text::hex_value(s) == id && s.len() == 16),
        r.trace_id matches Some(id) ==> (string_alias(f, "trace_id"@, "traceId"@) matches Some(
            (k, s),
        ) && text::hex_value(s) == id && s.len() == 32),
        r.parent_span_id matches Some(id) ==> (string_alias(f, "parent_span_id"@, "parentSpanId"@)
            matches Some((k, s)) && text::hex_value(s) == id && s.len() == 16),
        r.trace_flags matches Some(x) ==> (string_alias(f, "trace_flags"@, "traceFlags"@) matches
            Some((k, s)) && text::hex_value(s) == x && s.len() == 2),
        text::option_view(r.traceparent) == json::string_field(f, "traceparent"@),
        text::option_view(r.tracestate) == json::string_field(f, "tracestate"@),
        number_field(f, "start_unix_nanos"@) is Some ==> number_field(f, "start_unix_nanos"@)
            == Some(r.start_unix_nanos),
        number_field(f, "end_unix_nanos"@) is Some ==> number_field(f, "end_unix_nanos"@) == Some(
            r.end_unix_nanos,
        ),
        attribute_views(r.attributes@) == record_attributes(f),
{
}

/// Times are read under each of their names where no other is there.
pub proof fn times_are_read_under_all_their_names(f: Seq<(String, JsonValue)>, n: u64)
    ensures
        number_field(f, "start_unix_nanos"@) is None && number_field(f, "startTimeUnixNanos"@)
            == Some(n) ==> start_of(f) == Some(n),
        number_field(f, "start_unix_nanos"@) is None && number_field(f, "startTimeUnixNanos"@) is None
            && number_field(f, "startTimeUnixNano"@) == Some(n) ==> start_of(f) == Some(n),
        number_field(f, "start_unix_nanos"@) is None && number_field(f, "startTimeUnixNanos"@) is None
            && number_field(f, "startTimeUnixNano"@) is None && number_field(
            f,
            "start_time_unix_nanos"@,
        ) == Some(n) ==> start_of(f) == Some(n),
        number_field(f, "end_unix_nanos"@) is None && number_field(f, "endTimeUnixNanos"@) == Some(n)
            ==> end_of(f) == Some(n),
        number_field(f, "end_unix_nanos"@) is None && number_field(f, "endTimeUnixNanos"@) is None
            && number_field(f, "endTimeUnixNano"@) == Some(n) ==> end_of(f) == Some(n),
        number_field(f, "end_unix_nanos"@) is None && number_field(f, "endTimeUnixNanos"@) is None
            && number_field(f, "endTimeUnixNano"@) is None && number_field(
            f,
            "end_time_unix_nanos"@,
        ) == Some(n) ==> end_of(f) == Some(n),
{
}

/// Names of attributes are allowed by their family: those of the browser, of the interpreter and of
/// its scripts, and the type and the message of an error.
pub proof fn attributes_are_allowed_by_family(rest: Seq<char>, key: Seq<char>)
    ensures
        allowed_key("browser_use."@ + rest),
        allowed_key("node_repl."@ + rest),
        allowed_key("js."@ + rest),
        allowed_key("error.type"@),
        allowed_key("error.message"@),
        allowed_key(key) ==> key == "error.type"@ || key == "error.message"@ || text::has_prefix(
            key,
            "browser_use."@,
        ) || text::has_prefix(key, "node_repl."@) || text::has_prefix(key, "js."@),
{
    text::texts_hold_their_parts(Seq::empty(), "browser_use."@, rest);
    text::texts_hold_their_parts(Seq::empty(), "node_repl."@, rest);
    text::texts_hold_their_parts(Seq::empty(), "js."@, rest);
}

} // verus!
