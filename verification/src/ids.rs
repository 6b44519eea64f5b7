//! Identifiers and timestamps, which come from the `uuid` and `chrono` crates.
//!
//! A UUID is carried in this library as its 128 bits (`Uuid::as_u128`), and a
//! point in time as its RFC 3339 text.

use vstd::arithmetic::power::pow;
use vstd::prelude::*;

use crate::text::hex_digit;

verus! {

#[verifier::external_type_specification]
#[verifier::external_body]
pub struct ExUuidError(uuid::Error);

/// Hex digit number `k` of `id`, counted from the most significant (0 to 31).
pub open spec fn uuid_nibble(id: u128, k: int) -> int {
    (id as int / pow(16, (31 - k) as nat)) % 16
}

/// How many of the four hyphens of the hyphenated form stand before position `i`.
pub open spec fn hyphens_before(i: int) -> int {
    (if i > 8 { 1int } else { 0int }) + (if i > 13 { 1int } else { 0int }) + (if i > 18 { 1int } else { 0int })
        + (if i > 23 { 1int } else { 0int })
}

/// The lower-case hyphenated form of the UUID whose 128 bits are `id`: its
/// 32 hex digits, most significant first, with a `-` at positions 8, 13, 18
/// and 23 (as `550e8400-e29b-41d4-a716-446655440000`).
pub open spec fn uuid_hyphenated(id: u128) -> Seq<char> {
    Seq::new(
        36,
        |i: int|
            if i == 8 || i == 13 || i == 18 || i == 23 {
                '-'
            } else {
                hex_digit(uuid_nibble(id, i - hyphens_before(i)))
            },
    )
}

/// The pattern of the version and variant bits of a random UUID.
pub open spec fn is_random_uuid(id: u128) -> bool {
    id & 0xF000_C000_0000_0000_0000u128 == 0x4000_8000_0000_0000_0000u128
}

/// Names what `uuid::Uuid::parse_str` makes of `text`: the 128 bits of the
/// UUID it reads, or `None` where it refuses the text.
pub uninterp spec fn parsed_uuid(text: Seq<char>) -> Option<u128>;

/// Calls `uuid::Uuid::new_v4` and gives the new UUID's 128 bits. The bits are
/// random but for the version field, which is 4, and the variant field, which
/// is the RFC 4122 one: `new_v4` masks a random `u128` and sets exactly these
/// bits. Nothing else is claimed of the result.
#[verifier::external_body]
pub(crate) fn random_uuid() -> (id: u128)
    ensures
        is_random_uuid(id),
{
    uuid::Uuid::new_v4().as_u128()
}

/// Calls `uuid::Uuid::from_u128(id).to_string()`. `Display` of a `Uuid` is its
/// `LowerHex` form, which writes the hyphenated form: the contract claims
/// that the text is `uuid_hyphenated(id)`.
#[verifier::external_body]
pub(crate) fn uuid_to_text(id: u128) -> (s: String)
    ensures
        s@ == uuid_hyphenated(id),
{
    uuid::Uuid::from_u128(id).to_string()
}

/// Calls `uuid::Uuid::parse_str(text)` and gives the UUID's 128 bits; the
/// contract claims that success and the value are `parsed_uuid(text@)`, a
/// function of the text alone. What the error holds is not stated.
#[verifier::external_body]
pub(crate) fn parse_uuid(text: &str) -> (r: Result<u128, uuid::Error>)
    ensures
        match r {
            Ok(id) => parsed_uuid(text@) == Some(id),
            Err(_) => parsed_uuid(text@) is None,
        },
{
    match uuid::Uuid::parse_str(text) {
        Ok(u) => Ok(u.as_u128()),
        Err(e) => Err(e),
    }
}

/// The shape that every RFC 3339 text of a UTC time has, whatever the time:
/// at least `YYYY-MM-DDTHH:MM:SS` and the offset, and the offset `+00:00`.
pub open spec fn is_utc_stamp(s: Seq<char>) -> bool {
    s.len() >= 25 && s.subrange(s.len() - 6, s.len() as int) == "+00:00"@
}

/// Calls `chrono::Utc::now()` and gives its `to_rfc3339()` text. The time is
/// the machine's, so which time is not claimed; `to_rfc3339` writes the date,
/// `T`, the time and, for UTC's zero offset, `+00:00` (chrono's
/// `write_rfc3339` with `use_z` false), and that shape is claimed.
#[verifier::external_body]
pub(crate) fn now_rfc3339() -> (s: String)
    ensures
        is_utc_stamp(s@),
{
    chrono::Utc::now().to_rfc3339()
}

} // verus!
