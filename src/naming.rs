//! Names of stored datasets: symbol, interval and the covered range, readable at a glance.
use vstd::prelude::*;
use std::fmt::Write;
use crate::error::ConfigError;
use crate::interval::{interval_token, serialize_duration};

verus! {

/// How the first and last instants of a dataset are written in its file name.
pub const FILE_STAMP_FORMAT: &'static str = "%Y-%m-%d-%H-%M";

/// The text of the UTC instant `ms` written in `format`, or nothing when the instant
/// lies outside the calendar range or the format cannot be applied.
pub uninterp spec fn formatted_millis(ms: i64, format: Seq<char>) -> Option<Seq<char>>;

/// Relies on chrono's `DateTime::<Utc>::from_timestamp_millis` and `DateTime::format`:
/// the text depends on the instant and the format alone.
#[verifier::external_body]
fn format_millis(ms: i64, format: &str) -> (r: Option<String>)
    ensures
        match r {
            Some(s) => formatted_millis(ms, format@) == Some(s@),
            None => formatted_millis(ms, format@) is None,
        },
{
    match chrono::DateTime::from_timestamp_millis(ms) {
        Some(t) => {
            let mut text = String::new();
            match write!(text, "{}", t.format(format)) {
                Ok(()) => Some(text),
                Err(_) => None,
            }
        },
        None => None,
    }
}

/// `<symbol>-perp-binance-<interval>-from-<first>-to-<last>.parquet`.
pub open spec fn file_name_of(
    symbol: Seq<char>,
    interval: Seq<char>,
    first: Seq<char>,
    last: Seq<char>,
) -> Seq<char> {
    symbol + "-perp-binance-"@ + interval + "-from-"@ + first + "-to-"@ + last + ".parquet"@
}

/// The file name of a dataset from its parts already written out.
pub fn file_name(symbol: &str, interval: &str, first: &str, last: &str) -> (r: String)
    ensures
        r@ == file_name_of(symbol@, interval@, first@, last@),
{
    let mut name = symbol.to_owned();
    name.append("-perp-binance-");
    name.append(interval);
    name.append("-from-");
    name.append(first);
    name.append("-to-");
    name.append(last);
    name.append(".parquet");
    name
}

/// The file name of a dataset of `symbol` with candles of `interval_ms` covering
/// the instants `first_ms` to `last_ms`. Fails with `UnsupportedDuration` when the
/// interval is not in the catalog, and with `TimeOutOfRange` when an instant cannot
/// be written as a calendar time.
pub fn dataset_file_name(symbol: &str, interval_ms: i64, first_ms: i64, last_ms: i64) -> (r: Result<
    String,
    ConfigError,
>)
    ensures
        match (
            interval_token(interval_ms),
            formatted_millis(first_ms, FILE_STAMP_FORMAT@),
            formatted_millis(last_ms, FILE_STAMP_FORMAT@),
        ) {
            (Some(t), Some(f), Some(l)) => r is Ok && r->Ok_0@ == file_name_of(symbol@, t, f, l),
            (None, _, _) => r == Err::<String, ConfigError>(ConfigError::UnsupportedDuration),
            _ => r == Err::<String, ConfigError>(ConfigError::TimeOutOfRange),
        },
{
    let token = match serialize_duration(interval_ms) {
        Ok(t) => t,
        Err(e) => return Err(e),
    };
    let first = match format_millis(first_ms, FILE_STAMP_FORMAT) {
        Some(f) => f,
        None => return Err(ConfigError::TimeOutOfRange),
    };
    let last = match format_millis(last_ms, FILE_STAMP_FORMAT) {
        Some(l) => l,
        None => return Err(ConfigError::TimeOutOfRange),
    };
    Ok(file_name(symbol, token, first.as_str(), last.as_str()))
}

} // verus!
