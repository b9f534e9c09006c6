//! Planning a fetch from time texts: the span, its interval and the windows.
use vstd::prelude::*;
use crate::clock::{parse_time, parsed_millis, default_end, TIMESTAMP_FORMAT};
use crate::error::ConfigError;
use crate::interval::{deserialize_duration, interval_millis};
use crate::plan::{boundaries, planned_boundaries};

verus! {

/// Builds the window boundaries of one fetch: a span from `start` to `end`, the
/// interval of its candles, and how many candles one request may return.
pub struct TimestampBuilder {
    pub ts_fmt: String,
    start: i64,
    end: i64,
    step: i64,
    interval: String,
    pub limit: i64,
}

/// The mathematical form of a `TimestampBuilder`.
pub struct TimestampBuilderView {
    pub ts_fmt: Seq<char>,
    pub start: i64,
    pub end: i64,
    pub step: i64,
    pub interval: Seq<char>,
    pub limit: i64,
}

impl View for TimestampBuilder {
    type V = TimestampBuilderView;

    closed spec fn view(&self) -> TimestampBuilderView {
        TimestampBuilderView {
            ts_fmt: self.ts_fmt@,
            start: self.start,
            end: self.end,
            step: self.step,
            interval: self.interval@,
            limit: self.limit,
        }
    }
}

/// The builder for a span from `start` to `end` with candles of the interval named
/// `interval`: `InvalidSpan` when the span starts after it ends, `UnknownInterval`
/// when the catalog has no such interval.
pub open spec fn planned_builder(start: i64, end: i64, interval: Seq<char>) -> Result<
    TimestampBuilderView,
    ConfigError,
> {
    if start > end {
        Err(ConfigError::InvalidSpan)
    } else {
        match interval_millis(interval) {
            None => Err(ConfigError::UnknownInterval),
            Some(ms) => Ok(
                TimestampBuilderView {
                    ts_fmt: TIMESTAMP_FORMAT@,
                    start,
                    end,
                    step: ms,
                    interval,
                    limit: 499,
                },
            ),
        }
    }
}

/// The builder for a span given as time texts; a missing end stands for `now`.
pub open spec fn planned_from_text(
    start: Seq<char>,
    end: Option<Seq<char>>,
    now: i64,
    interval: Seq<char>,
) -> Result<TimestampBuilderView, ConfigError> {
    match parsed_millis(start, TIMESTAMP_FORMAT@) {
        None => Err(ConfigError::UnparsableTime),
        Some(s) => match end {
            Some(t) => match parsed_millis(t, TIMESTAMP_FORMAT@) {
                None => Err(ConfigError::UnparsableTime),
                Some(e) => planned_builder(s, e, interval),
            },
            None => planned_builder(s, now, interval),
        },
    }
}

/// The mathematical form of a builder or the error in its place.
pub open spec fn builder_view(r: Result<TimestampBuilder, ConfigError>) -> Result<
    TimestampBuilderView,
    ConfigError,
> {
    match r {
        Ok(b) => Ok(b@),
        Err(e) => Err(e),
    }
}

/// The texts that an optional time text holds.
pub open spec fn text_view(t: Option<&str>) -> Option<Seq<char>> {
    match t {
        Some(s) => Some(s@),
        None => None,
    }
}

impl Default for TimestampBuilder {
    /// An empty span at the epoch, fifteen-minute candles, 499 candles a request.
    fn default() -> (r: Self)
        ensures
            r@ == (TimestampBuilderView {
                ts_fmt: TIMESTAMP_FORMAT@,
                start: 0,
                end: 0,
                step: 900000,
                interval: seq!['1', '5', 'm'],
                limit: 499,
            }),
    {
        let interval = "15m".to_owned();
        proof {
            reveal_strlit("15m");
            assert(interval@ =~= seq!['1', '5', 'm']);
        }
        TimestampBuilder {
            ts_fmt: TIMESTAMP_FORMAT.to_owned(),
            start: 0,
            end: 0,
            step: 900000,
            interval,
            limit: 499,
        }
    }
}

impl TimestampBuilder {
    /// A builder for the span from `start` to `end`, in milliseconds, with candles of
    /// the interval named `step`.
    pub fn from_millis(start: i64, end: i64, step: &str) -> (r: Result<TimestampBuilder, ConfigError>)
        ensures
            builder_view(r) == planned_builder(start, end, step@),
    {
        if start > end {
            return Err(ConfigError::InvalidSpan);
        }
        let ms = match deserialize_duration(step) {
            Ok(ms) => ms,
            Err(e) => return Err(e),
        };
        let mut builder = TimestampBuilder::default();
        builder.start = start;
        builder.end = end;
        builder.interval = step.to_owned();
        builder.step = ms;
        Ok(builder)
    }

    /// A builder for the span from the time text `start` to the time text `end`, or
    /// to the current time when `end` is `None`, with candles of the interval named
    /// `step`. Texts are read as `YYYY-MM-DD HH:MM` in UTC.
    pub fn new(start: &str, end: Option<&str>, step: &str) -> (r: Result<TimestampBuilder, ConfigError>)
        ensures
            exists|now: i64| now >= 0 && builder_view(r) == planned_from_text(start@, text_view(end), now, step@),
    {
        let s = match parse_time(start) {
            Ok(s) => s,
            Err(e) => {
                proof {
                    assert(builder_view(Err(e)) == planned_from_text(start@, text_view(end), 0, step@));
                }
                return Err(e);
            },
        };
        let e = match end {
            Some(t) => match parse_time(t) {
                Ok(e) => e,
                Err(err) => {
                    proof {
                        assert(builder_view(Err(err)) == planned_from_text(start@, text_view(end), 0, step@));
                    }
                    return Err(err);
                },
            },
            None => default_end(),
        };
        let r = TimestampBuilder::from_millis(s, e, step);
        proof {
            let now: i64 = if end is None { e } else { 0 };
            assert(builder_view(r) == planned_from_text(start@, text_view(end), now, step@));
        }
        r
    }

    /// The window boundaries of the span, each window holding at most `limit`
    /// candles; `None` when the span is empty, as there is nothing to fetch.
    pub fn build(&self) -> (r: Option<Vec<i64>>)
        requires
            self@.start <= self@.end,
            self@.step >= 1,
            self@.limit >= 1,
            self@.step * self@.limit <= i64::MAX,
        ensures
            self@.start == self@.end ==> r is None,
            self@.start < self@.end ==> r is Some && r->Some_0@ == planned_boundaries(
                self@.start,
                self@.end,
                self@.step * self@.limit,
            ),
    {
        if self.start >= self.end {
            return None;
        }
        proof {
            assert(self.step * self.limit >= 1) by (nonlinear_arith)
                requires
                    self.step >= 1,
                    self.limit >= 1,
            ;
        }
        Some(boundaries(self.start, self.end, self.step * self.limit))
    }

    /// Start of the span, in milliseconds.
    pub fn start(&self) -> (r: i64)
        ensures
            r == self@.start,
    {
        self.start
    }

    /// End of the span, in milliseconds.
    pub fn end(&self) -> (r: i64)
        ensures
            r == self@.end,
    {
        self.end
    }

    /// Length of one candle, in milliseconds.
    pub fn step(&self) -> (r: i64)
        ensures
            r == self@.step,
    {
        self.step
    }
}

} // verus!
