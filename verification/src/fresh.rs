//! Fresh values from outside: random identifiers and the clock.
use vstd::prelude::*;

verus! {

/// Whether `c` is a lower-case hexadecimal digit.
pub open spec fn is_lower_hex(c: char) -> bool {
    ('0' <= c && c <= '9') || ('a' <= c && c <= 'f')
}

/// Whether `s` is the hyphenated lower-case text of a version 4 UUID.
pub open spec fn is_v4_text(s: Seq<char>) -> bool {
    &&& s.len() == 36
    &&& forall|i: int|
        0 <= i < 36 ==> if i == 8 || i == 13 || i == 18 || i == 23 {
            s[i] == '-'
        } else {
            is_lower_hex(#[trigger] s[i])
        }
    &&& s[14] == '4'
    &&& (s[19] == '8' || s[19] == '9' || s[19] == 'a' || s[19] == 'b')
}

/// Calls `uuid::Uuid::new_v4` and formats the result with `to_string`. The value is
/// random; the contract states only its form, which `Uuid`'s `Display` (lower-case,
/// hyphenated) and the version and variant bits that `new_v4` sets fix for every outcome.
#[verifier::external_body]
pub(crate) fn random_uuid() -> (s: String)
    ensures
        is_v4_text(s@),
{
    uuid::Uuid::new_v4().to_string()
}

/// Calls `chrono::Utc::now().timestamp()`: the current time in whole seconds since the
/// Unix epoch. The value depends on the clock, so the contract states only that it is not
/// negative: `Utc::now` panics on a clock set before the epoch rather than return.
#[verifier::external_body]
pub(crate) fn current_ts() -> (t: i64)
    ensures
        t >= 0,
{
    chrono::Utc::now().timestamp()
}


/// Calls `chrono::Utc::now().timestamp_millis()`: the current time in milliseconds since
/// the Unix epoch. The value depends on the clock, so the contract states only that it is
/// not negative: `Utc::now` panics on a clock set before the epoch rather than return.
#[verifier::external_body]
pub(crate) fn current_ms() -> (t: i64)
    ensures
        t >= 0,
{
    chrono::Utc::now().timestamp_millis()
}

} // verus!
