//! Thread identifiers.

use vstd::prelude::*;

use crate::text;

verus! {

/// The identifier of a thread: a UUID by its value.
#[derive(Clone, Copy, Debug, PartialEq, Eq, Structural)]
pub struct ThreadId {
    pub value: u128,
}

/// The value of a UUID in text form, as `uuid::Uuid::parse_str` reads it; nothing where
/// the text is none.
pub uninterp spec fn uuid_value(s: Seq<char>) -> Option<u128>;

/// The hyphenated text form of a UUID: its hexadecimal digits in groups of eight, four, four,
/// four and twelve.
pub open spec fn uuid_text(value: u128) -> Seq<char> {
    let h = text::hex_digits(value as nat, 32);
    h.subrange(0, 8) + "-"@ + h.subrange(8, 12) + "-"@ + h.subrange(12, 16) + "-"@ + h.subrange(
        16,
        20,
    ) + "-"@ + h.subrange(20, 32)
}

/// Calls `uuid::Uuid::parse_str`. Claims only that the outcome depends on the text alone.
#[verifier::external_body]
fn parse_uuid(s: &str) -> (r: Option<u128>)
    ensures
        r == uuid_value(s@),
{
    uuid::Uuid::parse_str(s).ok().map(|id| id.as_u128())
}

/// Writes a UUID with `uuid::Uuid::hyphenated`. Claims that the text is the value's hexadecimal
/// digits in lower case, in groups divided by hyphens, and that parsing it gives the value back.
#[verifier::external_body]
fn format_uuid(value: u128) -> (r: String)
    ensures
        r@ == uuid_text(value),
        uuid_value(r@) == Some(value),
{
    uuid::Uuid::from_u128(value).hyphenated().to_string()
}

impl ThreadId {
    /// The identifier that a text stands for.
    pub fn from_string(s: &str) -> (r: Option<ThreadId>)
        ensures
            match r {
                Some(id) => uuid_value(s@) == Some(id.value),
                None => uuid_value(s@) is None,
            },
    {
        match parse_uuid(s) {
            Some(value) => Some(ThreadId { value }),
            None => None,
        }
    }

    /// The text form of the identifier; reading it gives the identifier back.
    pub fn to_text(&self) -> (r: String)
        ensures
            r@ == uuid_text(self.value),
            uuid_value(r@) == Some(self.value),
    {
        format_uuid(self.value)
    }
}

proof fn lemma_id_range()
    ensures
        text::hex_range(32) == u128::MAX + 1,
{
    reveal_with_fuel(text::hex_range, 33);
    assert(text::hex_range(32) == 0x1_0000_0000_0000_0000_0000_0000_0000_0000int);
}

/// Identifiers are written in groups of eight, three times four and twelve digits with dashes
/// between them, and different identifiers are written differently.
pub proof fn identifiers_are_written_apart(a: u128, b: u128)
    ensures
        uuid_text(a).len() == 36,
        uuid_text(a)[8] == '-' && uuid_text(a)[13] == '-' && uuid_text(a)[18] == '-' && uuid_text(
            a,
        )[23] == '-',
        uuid_text(a) == uuid_text(b) ==> a == b,
{
    reveal_strlit("-");
    lemma_id_range();
    text::hex_round_trip(a as nat, 32);
    text::hex_round_trip(b as nat, 32);
    let h = text::hex_digits(a as nat, 32);
    let g = text::hex_digits(b as nat, 32);
    if uuid_text(a) == uuid_text(b) {
        let s = uuid_text(a);
        assert(h.subrange(0, 8) =~= s.subrange(0, 8));
        assert(g.subrange(0, 8) =~= s.subrange(0, 8));
        assert(h.subrange(8, 12) =~= s.subrange(9, 13));
        assert(g.subrange(8, 12) =~= s.subrange(9, 13));
        assert(h.subrange(12, 16) =~= s.subrange(14, 18));
        assert(g.subrange(12, 16) =~= s.subrange(14, 18));
        assert(h.subrange(16, 20) =~= s.subrange(19, 23));
        assert(g.subrange(16, 20) =~= s.subrange(19, 23));
        assert(h.subrange(20, 32) =~= s.subrange(24, 36));
        assert(g.subrange(20, 32) =~= s.subrange(24, 36));
        assert(h =~= h.subrange(0, 8) + h.subrange(8, 12) + h.subrange(12, 16) + h.subrange(16, 20)
            + h.subrange(20, 32));
        assert(g =~= g.subrange(0, 8) + g.subrange(8, 12) + g.subrange(12, 16) + g.subrange(16, 20)
            + g.subrange(20, 32));
        assert(h == g);
    }
}

} // verus!
