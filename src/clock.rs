//! Calendar time through chrono: reading time texts and the current time.
use vstd::prelude::*;
use chrono::NaiveDateTime;
use crate::error::ConfigError;

verus! {

/// The format of every time text the library reads: minutes, in UTC.
pub const TIMESTAMP_FORMAT: &'static str = "%Y-%m-%d %H:%M";

/// Milliseconds since the epoch of the UTC time that `text` spells in `format`,
/// or nothing when `text` does not follow `format`.
pub uninterp spec fn parsed_millis(text: Seq<char>, format: Seq<char>) -> Option<i64>;

/// Relies on chrono's `NaiveDateTime::parse_from_str`, read as UTC: whether and how a
/// text parses depends on the text and the format alone.
#[verifier::external_body]
fn parse_millis(text: &str, format: &str) -> (r: Option<i64>)
    ensures
        r == parsed_millis(text@, format@),
{
    match NaiveDateTime::parse_from_str(text, format) {
        Ok(t) => Some(t.and_utc().timestamp_millis()),
        Err(_) => None,
    }
}

/// Relies on chrono's `Utc::now`: the current time in milliseconds since the epoch.
/// chrono stops with a panic on a clock set before the epoch, so what returns is not negative.
#[verifier::external_body]
fn now_millis() -> (r: i64)
    ensures
        r >= 0,
{
    chrono::Utc::now().timestamp_millis()
}

/// Reads a time text of the form `YYYY-MM-DD HH:MM` (UTC) as milliseconds since the
/// epoch; `UnparsableTime` when the text does not follow that form.
pub fn parse_time(text: &str) -> (r: Result<i64, ConfigError>)
    ensures
        match parsed_millis(text@, TIMESTAMP_FORMAT@) {
            Some(ms) => r == Ok::<i64, ConfigError>(ms),
            None => r == Err::<i64, ConfigError>(ConfigError::UnparsableTime),
        },
{
    match parse_millis(text, TIMESTAMP_FORMAT) {
        Some(ms) => Ok(ms),
        None => Err(ConfigError::UnparsableTime),
    }
}

/// Start of the default span: 2019-09-13 04:00 UTC, in milliseconds since the epoch.
pub fn default_start() -> (r: i64)
    ensures
        r == 1568347200000,
{
    1568347200000
}

/// End of the default span: the current time, in milliseconds since the epoch.
pub fn default_end() -> (r: i64)
    ensures
        r >= 0,
{
    now_millis()
}

} // verus!
