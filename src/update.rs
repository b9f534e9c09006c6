//! Deciding what to fetch for a dataset: all of a span, or only its missing tail.
use vstd::prelude::*;
use crate::dataset::{Candle, Dataset};
use crate::error::ConfigError;
use crate::plan::{plan, planned_boundaries};

verus! {

/// The boundaries to fetch so that `existing` reaches `end`. An empty dataset needs
/// the whole span from `start`, which must then be given; a dataset with records
/// resumes one interval after its last record, and needs nothing (the single
/// boundary `end`) when that point lies past `end`.
pub open spec fn update_boundaries(
    existing: Seq<Candle>,
    start: Option<i64>,
    end: i64,
    interval_ms: int,
    max_rows: int,
) -> Result<Seq<i64>, ConfigError> {
    if existing.len() == 0 {
        match start {
            None => Err(ConfigError::MissingStart),
            Some(s) => if s > end {
                Err(ConfigError::InvalidSpan)
            } else {
                Ok(planned_boundaries(s, end, interval_ms * max_rows))
            },
        }
    } else {
        let resume = existing.last().open_time + interval_ms;
        if resume > end {
            Ok(seq![end])
        } else {
            Ok(planned_boundaries(resume as i64, end, interval_ms * max_rows))
        }
    }
}

/// The mathematical form of a list of boundaries or the error in its place.
pub open spec fn boundaries_view(r: Result<Vec<i64>, ConfigError>) -> Result<Seq<i64>, ConfigError> {
    match r {
        Ok(b) => Ok(b@),
        Err(e) => Err(e),
    }
}

/// Plans the windows that bring `existing` up to `end` with candles of
/// `interval_ms` and at most `max_rows` of them a request, as `update_boundaries`
/// states; `start` is read only when `existing` is empty.
pub fn update_plan(
    existing: &Dataset,
    start: Option<i64>,
    end: i64,
    interval_ms: i64,
    max_rows: i64,
) -> (r: Result<Vec<i64>, ConfigError>)
    requires
        interval_ms >= 1,
        max_rows >= 1,
        interval_ms * max_rows <= i64::MAX,
    ensures
        boundaries_view(r) == update_boundaries(existing@, start, end, interval_ms as int, max_rows as int),
{
    match existing.last_open_time() {
        None => match start {
            None => Err(ConfigError::MissingStart),
            Some(s) => plan(s, end, interval_ms, max_rows),
        },
        Some(last) => {
            let resume: i128 = last as i128 + interval_ms as i128;
            if resume > end as i128 {
                let mut only_end: Vec<i64> = Vec::new();
                only_end.push(end);
                proof {
                    assert(only_end@ =~= seq![end]);
                }
                Ok(only_end)
            } else {
                plan(resume as i64, end, interval_ms, max_rows)
            }
        },
    }
}

} // verus!
