//! Errors found while checking a request, before anything is fetched.
use vstd::prelude::*;

verus! {

/// A request that cannot be planned as given.
#[derive(Clone, Copy, PartialEq, Eq, Structural, Debug)]
pub enum ConfigError {
    /// The span starts after it ends.
    InvalidSpan,
    /// The interval token is not in the catalog.
    UnknownInterval,
    /// The duration matches no interval of the catalog.
    UnsupportedDuration,
    /// A time text does not follow the expected format.
    UnparsableTime,
    /// A fresh fetch was asked for without a start time.
    MissingStart,
    /// An instant lies outside the calendar range that can be written out.
    TimeOutOfRange,
}

} // verus!
