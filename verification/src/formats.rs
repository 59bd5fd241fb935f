//! Readings of JSON documents and RFC 3339 timestamps, as plain values.

use vstd::prelude::*;

verus! {

/// What `json_string_member` returns for a document and a key.
pub uninterp spec fn json_string_member_of(text: Seq<char>, key: Seq<char>) -> Option<Seq<char>>;

/// Parse `text` with `serde_json::from_str` as a `serde_json::Value` and read
/// the string stored under `key` at its top level (`Value::get` then
/// `Value::as_str`). `None` when the text is not JSON, is not an object, lacks
/// the key, or holds a non-string there. The result depends on the two
/// arguments alone; JSON's grammar is not restated here.
#[verifier::external_body]
pub fn json_string_member(text: &str, key: &str) -> (r: Option<String>)
    ensures
        match r {
            Some(s) => json_string_member_of(text@, key@) == Some(s@),
            None => json_string_member_of(text@, key@) is None,
        },
{
    match serde_json::from_str::<serde_json::Value>(text) {
        Ok(v) => match v.get(key) {
            Some(serde_json::Value::String(s)) => Some(s.clone()),
            _ => None,
        },
        Err(_) => None,
    }
}

/// What `rfc3339_instant` returns for a text.
pub uninterp spec fn rfc3339_instant_of(text: Seq<char>) -> Option<(i64, u32)>;

/// `chrono::DateTime::parse_from_rfc3339`, read as the instant it denotes:
/// whole seconds since the Unix epoch (`timestamp`) and the nanoseconds past
/// that second (`timestamp_subsec_nanos`). `None` when the text is not an
/// RFC 3339 date-time. The result depends on the text alone; the grammar is
/// not restated here.
#[verifier::external_body]
pub fn rfc3339_instant(text: &str) -> (r: Option<(i64, u32)>)
    ensures
        r == rfc3339_instant_of(text@),
{
    match chrono::DateTime::parse_from_rfc3339(text) {
        Ok(d) => Some((d.timestamp(), d.timestamp_subsec_nanos())),
        Err(_) => None,
    }
}

/// What `date_midnight` returns for a text.
pub uninterp spec fn date_midnight_of(text: Seq<char>) -> Option<i64>;

/// `chrono::NaiveDate::parse_from_str(text, "%Y-%m-%d")`, taken at midnight
/// UTC and read as seconds since the Unix epoch. `None` when the text is not
/// such a date. The result depends on the text alone; chrono's date grammar
/// is not restated here.
#[verifier::external_body]
pub fn date_midnight(text: &str) -> (r: Option<i64>)
    ensures
        r == date_midnight_of(text@),
{
    match chrono::NaiveDate::parse_from_str(text, "%Y-%m-%d") {
        Ok(d) => match d.and_hms_opt(0, 0, 0) {
            Some(dt) => Some(dt.and_utc().timestamp()),
            None => None,
        },
        Err(_) => None,
    }
}

/// What `json_error` returns for a text.
pub uninterp spec fn json_error_of(text: Seq<char>) -> Option<Seq<char>>;

/// Whether `serde_json::from_str` accepts `text` as a `serde_json::Value`:
/// `None` when it does, the error's message (its `Display` text, which names
/// the line and column) when it does not. The result depends on the text
/// alone; JSON's grammar is not restated here.
#[verifier::external_body]
pub fn json_error(text: &str) -> (r: Option<String>)
    ensures
        match r {
            Some(s) => json_error_of(text@) == Some(s@),
            None => json_error_of(text@) is None,
        },
{
    match serde_json::from_str::<serde_json::Value>(text) {
        Ok(_) => None,
        Err(e) => Some(e.to_string()),
    }
}

} // verus!
