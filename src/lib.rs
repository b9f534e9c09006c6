//! Fetching fixed-interval market candles over a long span: the span is cut into
//! windows that each fit one request, the requests run with a bounded number in
//! flight, and their records are merged into one time-ordered, duplicate-free
//! dataset, or appended after the last record of an existing one.
use vstd::prelude::*;

pub mod clock;
pub mod collector;
pub mod dataset;
pub mod date_range;
pub mod error;
pub mod fetcher;
pub mod interval;
pub mod naming;
pub mod plan;
pub mod timestamp;
pub mod update;

verus! {

/// Symbol fetched when nothing else is configured.
pub fn default_symbol() -> (r: String)
    ensures
        r@ == "btcusdt"@,
{
    "btcusdt".to_owned()
}

/// Number of candles requested per window when nothing else is configured.
pub fn default_batch_size() -> (r: usize)
    ensures
        r == 499,
{
    499
}

} // verus!
