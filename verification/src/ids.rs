//! Identifiers: UUIDv7 for new rows, and the check on client-supplied ids.
use vstd::prelude::*;
use crate::clock::system_clock;

verus! {

/// A hexadecimal digit, of either case.
pub open spec fn hex_char(c: char) -> bool {
    ('0' <= c && c <= '9') || ('a' <= c && c <= 'f') || ('A' <= c && c <= 'F')
}

/// 32 hexadecimal digits in groups of 8, 4, 4, 4 and 12, joined by hyphens.
pub open spec fn hyphenated_uuid(s: Seq<char>) -> bool {
    &&& s.len() == 36
    &&& forall|i: int| 0 <= i < 36 ==> if i == 8 || i == 13 || i == 18 || i == 23 {
        s[i] == '-'
    } else {
        hex_char(#[trigger] s[i])
    }
}

/// The character is `p` or, for a lower-case letter `p`, its upper case.
pub open spec fn ascii_ci_eq(c: char, p: char) -> bool {
    c == p || ('a' <= p && p <= 'z' && (c as int) + 32 == (p as int))
}

/// Whether `uuid::Uuid::parse_str` accepts the text: 32 hexadecimal digits;
/// the hyphenated form; the hyphenated form in braces; or `urn:uuid:` (in
/// any case) before the hyphenated form.
pub open spec fn uuid_parses(s: Seq<char>) -> bool {
    ||| s.len() == 32 && forall|i: int| 0 <= i < 32 ==> hex_char(#[trigger] s[i])
    ||| hyphenated_uuid(s)
    ||| s.len() == 38 && s[0] == '{' && s[37] == '}' && hyphenated_uuid(s.subrange(1, 37))
    ||| s.len() == 45 && (forall|i: int| 0 <= i < 9 ==> ascii_ci_eq(#[trigger] s[i], "urn:uuid:"@[i]))
        && hyphenated_uuid(s.subrange(9, 45))
}

/// `uuid::Uuid::new_v7` at the given Unix time (with a fresh `ContextV7` for
/// its counter), in its hyphenated text, which is 36 characters long; the
/// random bits make nothing else promisable.
#[verifier::external_body]
fn uuid_v7_at(secs: u64, nanos: u32) -> (r: String)
    ensures
        r@.len() == 36,
{
    uuid::Uuid::new_v7(uuid::Timestamp::from_unix(uuid::ContextV7::new(), secs, nanos)).to_string()
}

/// A new row id: a UUIDv7 of the current time, whose first 48 bits are the
/// millisecond time (the epoch itself for a clock set before 1970).
pub fn generate_id() -> (r: String)
    ensures
        r@.len() == 36,
{
    match system_clock() {
        Some((secs, nanos)) => uuid_v7_at(secs, nanos),
        None => uuid_v7_at(0, 0),
    }
}

/// `uuid::Uuid::parse_str(s).is_ok()`: the parser (uuid's `try_parse`)
/// accepts exactly the four forms `uuid_parses` lists, reading bytes, so a
/// text with a character outside ASCII is refused.
#[verifier::external_body]
pub(crate) fn is_uuid(s: &str) -> (r: bool)
    ensures
        r == uuid_parses(s@),
{
    uuid::Uuid::parse_str(s).is_ok()
}

} // verus!
