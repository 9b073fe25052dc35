//! Sources of values that depend on the moment or on chance: the wall clock
//! and fresh random identifiers.

use vstd::prelude::*;

verus! {

/// Current wall-clock time in milliseconds since the Unix epoch, as given by
/// `chrono::Utc::now().timestamp_millis()`.  The value depends on the moment
/// of the call, so nothing is stated about it.
#[verifier::external_body]
pub(crate) fn now_millis() -> (t: i64) {
    chrono::Utc::now().timestamp_millis()
}

/// Current wall-clock time in nanoseconds since the Unix epoch, as given by
/// `chrono::Utc::now().timestamp_nanos_opt()`: `None` where the count does
/// not fit in an `i64` (before 1677 or after 2262).  The value depends on
/// the moment of the call, so nothing is stated about it.
#[verifier::external_body]
fn now_nanos_opt() -> (t: Option<i64>) {
    chrono::Utc::now().timestamp_nanos_opt()
}

/// Current wall-clock time in nanoseconds since the Unix epoch; times past
/// the range of an `i64` read as `i64::MAX`.
pub(crate) fn now_nanos() -> (t: i64) {
    match now_nanos_opt() {
        Some(t) => t,
        None => i64::MAX,
    }
}

/// A fresh random (version 4) UUID from `uuid::Uuid::new_v4`, as its 128-bit
/// big-endian value.  The bits are random except the version nibble (4) and
/// the variant bits (binary 10), which `new_v4` sets; only that is stated.
#[verifier::external_body]
pub(crate) fn new_uuid() -> (id: u128)
    ensures
        id & 0xF000_C000_0000_0000_0000u128 == 0x4000_8000_0000_0000_0000u128,
{
    uuid::Uuid::new_v4().as_u128()
}

/// Lower-case hexadecimal digit `n` (below 16).
pub open spec fn hex_char(n: u128) -> char {
    if n < 10 {
        (('0' as u128) + n) as char
    } else {
        (('a' as u128) + n - 10) as char
    }
}

/// The `i`-th of the 32 hexadecimal digits of `id`, most significant first.
pub open spec fn uuid_digit(id: u128, i: int) -> char {
    hex_char((id >> ((4 * (31 - i)) as u128)) & 0xf)
}

/// Hyphenated lower-case text of the UUID `id`: 32 hexadecimal digits, most
/// significant first, in groups of 8, 4, 4, 4 and 12 joined by '-'.
pub open spec fn uuid_text(id: u128) -> Seq<char> {
    Seq::new(
        36,
        |p: int|
            if p == 8 || p == 13 || p == 18 || p == 23 {
                '-'
            } else if p < 8 {
                uuid_digit(id, p)
            } else if p < 13 {
                uuid_digit(id, p - 1)
            } else if p < 18 {
                uuid_digit(id, p - 2)
            } else if p < 23 {
                uuid_digit(id, p - 3)
            } else {
                uuid_digit(id, p - 4)
            },
    )
}

/// Formats the UUID with value `id` through `uuid::Uuid`'s `Display`
/// (`uuid::Uuid::from_u128(id).to_string()`).  Claimed: the text is the
/// hyphenated lower-case form of [`uuid_text`].
#[verifier::external_body]
pub(crate) fn format_uuid(id: u128) -> (s: String)
    ensures
        s@ == uuid_text(id),
{
    uuid::Uuid::from_u128(id).to_string()
}

} // verus!
