//! The narrow interfaces to the outside crates: regular-expression
//! matching, case folding, clipboard access, fresh identifiers and
//! wall-clock timestamps. Each function here is trusted: its body makes
//! the outside call and its contract states only what the crate's own
//! source or documentation shows.

use chrono::TimeZone;
use ring::rand::SecureRandom;
use vstd::prelude::*;

verus! {

/// Whether the pattern text compiles as a regular expression.
pub uninterp spec fn regex_ok(pat: Seq<char>) -> bool;

/// Whether the compiled pattern matches somewhere inside the haystack.
pub uninterp spec fn regex_match(pat: Seq<char>, hay: Seq<char>) -> bool;

/// The lower-cased image of a character sequence.
pub uninterp spec fn lower_of(s: Seq<char>) -> Seq<char>;

/// Relies on regex::Regex::new: whether a pattern compiles depends on the
/// pattern text alone.
#[verifier::external_body]
pub fn regex_is_valid(pat: &str) -> (r: bool)
    ensures
        r == regex_ok(pat@),
{
    regex::Regex::new(pat).is_ok()
}

/// Relies on regex::Regex::new and regex::Regex::find: whether a pattern
/// matches somewhere in a haystack depends on the pattern and haystack
/// texts alone. Only called on patterns that compile.
#[verifier::external_body]
pub fn regex_find(pat: &str, hay: &str) -> (r: bool)
    requires
        regex_ok(pat@),
    ensures
        r == regex_match(pat@, hay@),
{
    match regex::Regex::new(pat) {
        Ok(re) => re.find(hay).is_some(),
        Err(_) => false,
    }
}

/// Relies on str::to_lowercase: the result depends on the characters
/// alone, and lower-casing an empty string gives an empty string.
#[verifier::external_body]
pub fn to_lower(s: &str) -> (r: String)
    ensures
        r@ == lower_of(s@),
        s@.len() == 0 ==> r@.len() == 0,
{
    s.to_lowercase()
}

/// Relies on ring::rand::SystemRandom::fill for the random bytes and on
/// uuid::Builder::from_random_bytes to shape them as a fresh version-4
/// identifier, rendered as text; nothing is promised of its value, and an
/// unavailable randomness source is reported rather than escalated.
#[verifier::external_body]
pub fn fresh_id() -> (r: Option<String>) {
    let mut bytes = [0u8; 16];
    match ring::rand::SystemRandom::new().fill(&mut bytes) {
        Ok(()) => Some(uuid::Builder::from_random_bytes(bytes).into_uuid().to_string()),
        Err(_) => None,
    }
}

/// Relies on chrono::Local::now: the current wall-clock instant as
/// nanoseconds since the epoch; nothing is promised of its value.
#[verifier::external_body]
pub fn now_nanos() -> (r: i64) {
    chrono::Local::now().timestamp_nanos_opt().unwrap_or(0)
}

/// Relies on chrono::TimeZone::timestamp_nanos and chrono's formatter to
/// render a timestamp; the text depends on the machine's time zone, so
/// nothing is promised of it.
#[verifier::external_body]
pub fn fmt_datetime(nanos: i64) -> (r: String) {
    chrono::Local.timestamp_nanos(nanos).format("%Y-%m-%d %H:%M %:z").to_string()
}

/// Relies on arboard::Clipboard: hands the text to the system clipboard
/// and reports success; the outcome depends on the environment, so
/// nothing is promised of it.
#[verifier::external_body]
pub fn clipboard_set_text(value: &str) -> (r: bool) {
    match arboard::Clipboard::new() {
        Ok(mut cb) => cb.set_text(value.to_string()).is_ok(),
        Err(_) => false,
    }
}

} // verus!
