//! Configuration, from what the environment says at startup.
//!
//! The environment is looked up by the caller; what an absent or unreadable value means is
//! decided here.

use vstd::prelude::*;
use crate::text;

verus! {

/// Wikimedia's public firehose. No auth, no key.
pub const DEFAULT_STREAM_URL: &'static str =
    "https://stream.wikimedia.org/v2/stream/recentchange";

/// The domains that the detector restricts itself to, unless told otherwise.
pub const DEFAULT_DOMAIN_SUFFIX: &'static str = ".wikipedia.org";

/// The port that the HTTP server binds, unless told otherwise.
pub const DEFAULT_PORT: u16 = 3000;

/// A required variable: its value, or a message that names the missing key.
pub fn required(key: &str, value: Option<String>) -> (r: Result<String, String>)
    ensures
        match value {
            Some(v) => r == Ok::<String, String>(v),
            None => r matches Err(message) && message@ == "missing required env var "@ + key@,
        },
{
    match value {
        Some(v) => Ok(v),
        None => Err(text::join2("missing required env var ", key)),
    }
}

/// An optional variable with a fallback.
pub fn optional(value: Option<String>, fallback: &str) -> (r: String)
    ensures
        r@ == match value {
            Some(v) => v@,
            None => fallback@,
        },
{
    match value {
        Some(v) => v,
        None => fallback.to_owned(),
    }
}

/// The integer between `lo` and `hi` that a variable writes, or the fallback where it is
/// unset, not a decimal integer, or out of range.
pub open spec fn number_or(value: Option<Seq<char>>, lo: int, hi: int, fallback: int) -> int {
    match value {
        Some(v) => {
            let read = if lo < 0 {
                text::value_within(v, lo, hi)
            } else {
                text::unsigned_value(v, hi)
            };
            match read {
                Some(n) => n,
                None => fallback,
            }
        },
        None => fallback,
    }
}

/// A signed variable, falling back when unset or unparseable.
pub fn number_i64(value: Option<String>, fallback: i64) -> (r: i64)
    ensures
        r == number_or(text::opt_text(value), i64::MIN as int, i64::MAX as int, fallback as int),
{
    match value {
        Some(v) => match text::parse_i64(v.as_str()) {
            Some(n) => n,
            None => fallback,
        },
        None => fallback,
    }
}

/// A count, falling back when unset or unparseable.
pub fn number_usize(value: Option<String>, fallback: usize) -> (r: usize)
    ensures
        r == number_or(text::opt_text(value), 0, usize::MAX as int, fallback as int),
{
    match value {
        Some(v) => match text::parse_unsigned(v.as_str(), usize::MAX as u64) {
            Some(n) => n as usize,
            None => fallback,
        },
        None => fallback,
    }
}

/// A port number, falling back when unset or unparseable.
pub fn number_u16(value: Option<String>, fallback: u16) -> (r: u16)
    ensures
        r == number_or(text::opt_text(value), 0, u16::MAX as int, fallback as int),
{
    match value {
        Some(v) => match text::parse_unsigned(v.as_str(), u16::MAX as u64) {
            Some(n) => n as u16,
            None => fallback,
        },
        None => fallback,
    }
}

/// Valkey connection URL, from `VALKEY_URL`.
pub fn valkey_url(value: Option<String>) -> (r: Result<String, String>)
    ensures
        match value {
            Some(v) => r == Ok::<String, String>(v),
            None => r matches Err(message) && message@ == "missing required env var "@
                + "VALKEY_URL"@,
        },
{
    required("VALKEY_URL", value)
}

/// PostgreSQL connection URL, from `DATABASE_URL`.
pub fn database_url(value: Option<String>) -> (r: Result<String, String>)
    ensures
        match value {
            Some(v) => r == Ok::<String, String>(v),
            None => r matches Err(message) && message@ == "missing required env var "@
                + "DATABASE_URL"@,
        },
{
    required("DATABASE_URL", value)
}

/// Port that the HTTP server binds, from `PORT`.
pub fn port(value: Option<String>) -> (r: u16)
    ensures
        r == number_or(text::opt_text(value), 0, u16::MAX as int, DEFAULT_PORT as int),
{
    number_u16(value, DEFAULT_PORT)
}

/// The stream endpoint, from `STREAM_URL`, overridable so that a replay harness can point
/// at a fixture.
pub fn stream_url(value: Option<String>) -> (r: String)
    ensures
        r@ == match value {
            Some(v) => v@,
            None => DEFAULT_STREAM_URL@,
        },
{
    optional(value, DEFAULT_STREAM_URL)
}

/// Domain suffix that the detector restricts itself to, from `PULSE_DETECT_DOMAIN_SUFFIX`.
/// The empty string is no filter.
///
/// Classification keys off encyclopedia category conventions, which presupposes Wikipedia
/// language editions as the detection target. Left unfiltered, nearly every candidate is a
/// single-editor Wikidata item under semi-automated editing. The live wall is deliberately
/// not filtered.
pub fn detect_domain_suffix(value: Option<String>) -> (r: String)
    ensures
        r@ == match value {
            Some(v) => v@,
            None => DEFAULT_DOMAIN_SUFFIX@,
        },
{
    optional(value, DEFAULT_DOMAIN_SUFFIX)
}

// ---------------------------------------------------------------------------
// Laws
// ---------------------------------------------------------------------------

/// A number in range that the environment writes in decimal is taken; what is unset, no
/// number, or out of range leaves the fallback; and nothing else is ever returned.
pub proof fn law_settings_are_taken_where_they_are_numbers_in_range(
    v: Seq<char>,
    n: int,
    lo: int,
    hi: int,
    fallback: int,
)
    requires
        lo <= 0 <= hi,
    ensures
        number_or(None, lo, hi, fallback) == fallback,
        lo <= n <= hi ==> number_or(Some(text::decimal(n)), lo, hi, fallback) == n,
        n < lo || n > hi ==> number_or(Some(text::decimal(n)), lo, hi, fallback) == fallback,
        text::signed_value(v) is None ==> number_or(Some(v), lo, hi, fallback) == fallback,
        number_or(Some(v), lo, hi, fallback) == fallback || (text::signed_value(v) == Some(
            number_or(Some(v), lo, hi, fallback),
        ) && lo <= number_or(Some(v), lo, hi, fallback) <= hi),
{
    text::lemma_decimal_value(n);
    text::law_numbers_out_of_range_are_not_read(v, hi);
    text::law_numbers_out_of_range_are_not_read(text::decimal(n), hi);
}

} // verus!
