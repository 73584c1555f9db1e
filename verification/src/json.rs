//! A JSON value as plain data.

use vstd::prelude::*;

use crate::text;

verus! {

/// A JSON value. A whole number is signed or unsigned, and any other number is kept as the bits
/// of its float. Of fields with one name, the last one counts.
#[derive(Debug)]
pub enum JsonValue {
    Null,
    Bool(bool),
    Int(i64),
    Unsigned(u64),
    Float { bits: u64 },
    Text(String),
    Array(Vec<JsonValue>),
    Object(Vec<(String, JsonValue)>),
}

/// The value of the last field among the first `n` with the name `key`.
pub open spec fn field_among(
    fields: Seq<(String, JsonValue)>,
    key: Seq<char>,
    n: int,
) -> Option<JsonValue>
    decreases n,
{
    if n <= 0 {
        None
    } else if fields[n - 1].0@ == key {
        Some(fields[n - 1].1)
    } else {
        field_among(fields, key, n - 1)
    }
}

/// The value of the field with the name `key`.
pub open spec fn field(fields: Seq<(String, JsonValue)>, key: Seq<char>) -> Option<JsonValue> {
    field_among(fields, key, fields.len() as int)
}

/// Whether the `i`th field counts: no later one has its name.
pub open spec fn counts(fields: Seq<(String, JsonValue)>, i: int) -> bool {
    forall|j: int| i < j < fields.len() ==> (#[trigger] fields[j]).0@ != fields[i].0@
}

/// The value as an unsigned integer.
pub open spec fn unsigned(value: JsonValue) -> Option<u64> {
    match value {
        JsonValue::Int(n) => if n >= 0 {
            Some(n as u64)
        } else {
            None
        },
        JsonValue::Unsigned(n) => Some(n),
        _ => None,
    }
}

/// The value as a text.
pub open spec fn text_of(value: JsonValue) -> Option<Seq<char>> {
    match value {
        JsonValue::Text(s) => Some(s@),
        _ => None,
    }
}

/// The text of the field `key`, where it is a text that is not empty.
pub open spec fn string_field(fields: Seq<(String, JsonValue)>, key: Seq<char>) -> Option<
    Seq<char>,
> {
    match field(fields, key) {
        Some(JsonValue::Text(s)) => if s@.len() > 0 {
            Some(s@)
        } else {
            None
        },
        _ => None,
    }
}

/// The value of the field with the name `key`.
pub fn get<'a>(fields: &'a Vec<(String, JsonValue)>, key: &str) -> (r: Option<&'a JsonValue>)
    ensures
        match r {
            Some(v) => field(fields@, key@) == Some(*v),
            None => field(fields@, key@) is None,
        },
{
    let mut i: usize = fields.len();
    while i > 0
        invariant
            i <= fields.len(),
            field(fields@, key@) == field_among(fields@, key@, i as int),
        decreases i,
    {
        let entry = &fields[i - 1];
        if text::same_str(entry.0.as_str(), key) {
            return Some(&entry.1);
        }
        i = i - 1;
    }
    None
}

/// Whether the `i`th field counts.
pub fn field_counts(fields: &Vec<(String, JsonValue)>, i: usize) -> (r: bool)
    requires
        i < fields@.len(),
    ensures
        r == counts(fields@, i as int),
{
    let n = fields.len();
    let mut j: usize = i + 1;
    while j < n
        invariant
            i < j <= n,
            n == fields@.len(),
            forall|k: int| i < k < j ==> (#[trigger] fields@[k]).0@ != fields@[i as int].0@,
        decreases n - j,
    {
        if text::same_str(fields[j].0.as_str(), fields[i].0.as_str()) {
            return false;
        }
        j = j + 1;
    }
    true
}

/// The value as an unsigned integer.
pub fn as_u64(value: &JsonValue) -> (r: Option<u64>)
    ensures
        r == unsigned(*value),
{
    match value {
        JsonValue::Int(n) => if *n >= 0 {
            Some(*n as u64)
        } else {
            None
        },
        JsonValue::Unsigned(n) => Some(*n),
        _ => None,
    }
}

/// The text of the field `key`, where it is a text that is not empty.
pub fn get_string(fields: &Vec<(String, JsonValue)>, key: &str) -> (r: Option<String>)
    ensures
        text::option_view(r) == string_field(fields@, key@),
{
    match get(fields, key) {
        Some(value) => match value {
            JsonValue::Text(s) => if s.as_str().is_empty() {
                None
            } else {
                Some(s.clone())
            },
            _ => None,
        },
        None => None,
    }
}

proof fn lemma_field_among(fields: Seq<(String, JsonValue)>, key: Seq<char>, n: int)
    requires
        0 <= n <= fields.len(),
    ensures
        match field_among(fields, key, n) {
            Some(value) => exists|i: int|
                0 <= i < n && (#[trigger] fields[i]).0@ == key && fields[i].1 == value && (forall|
                    j: int,
                |
                    i < j < n ==> (#[trigger] fields[j]).0@ != key),
            None => forall|j: int| 0 <= j < n ==> (#[trigger] fields[j]).0@ != key,
        },
    decreases n,
{
    if n > 0 {
        lemma_field_among(fields, key, n - 1);
        if fields[n - 1].0@ == key {
            assert(fields[n - 1].1 == field_among(fields, key, n)->0);
        } else if field_among(fields, key, n - 1) is Some {
            let value = field_among(fields, key, n - 1)->0;
            let i = choose|i: int|
                0 <= i < n - 1 && (#[trigger] fields[i]).0@ == key && fields[i].1 == value && (
                forall|j: int| i < j < n - 1 ==> (#[trigger] fields[j]).0@ != key);
            assert(fields[i].0@ == key && fields[i].1 == value);
        }
    }
}

/// A field is found wherever an object has one of that name, and of several the last is found.
pub proof fn the_last_field_of_a_name_is_found(fields: Seq<(String, JsonValue)>, key: Seq<char>)
    ensures
        match field(fields, key) {
            Some(value) => exists|i: int|
                0 <= i < fields.len() && (#[trigger] fields[i]).0@ == key && fields[i].1 == value
                    && (forall|j: int|
                    i < j < fields.len() ==> (#[trigger] fields[j]).0@ != key),
            None => forall|j: int| 0 <= j < fields.len() ==> (#[trigger] fields[j]).0@ != key,
        },
{
    lemma_field_among(fields, key, fields.len() as int);
}

/// A value that counts under its name is the one that is found under it.
pub proof fn fields_that_count_are_found(fields: Seq<(String, JsonValue)>, i: int)
    requires
        0 <= i < fields.len(),
    ensures
        counts(fields, i) ==> field(fields, fields[i].0@) == Some(fields[i].1),
{
    the_last_field_of_a_name_is_found(fields, fields[i].0@);
    if counts(fields, i) {
        let value = field(fields, fields[i].0@)->0;
        let k = choose|k: int|
            0 <= k < fields.len() && (#[trigger] fields[k]).0@ == fields[i].0@ && fields[k].1
                == value && (forall|j: int|
                k < j < fields.len() ==> (#[trigger] fields[j]).0@ != fields[i].0@);
        assert(fields[i].0@ == fields[k].0@);
        assert(k == i);
    }
}

} // verus!
