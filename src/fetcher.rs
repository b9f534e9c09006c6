//! Sorting failed requests into those worth asking again and those that are not.
use vstd::prelude::*;
use crate::collector::FetchFailure;

verus! {

/// What went wrong with one request to the exchange.
#[derive(Clone, Copy, PartialEq, Eq, Structural, Debug)]
pub enum RequestFailure {
    /// The exchange refused the request for its rate.
    RateLimited,
    /// No answer came in time.
    TimedOut,
    /// The connection broke off.
    ConnectionReset,
    /// The exchange answered that it cannot serve now.
    ServerUnavailable,
    /// The exchange answered with an error code of its API.
    Api { code: i32 },
    /// The exchange does not know the symbol.
    UnknownSymbol,
    /// The exchange does not know the interval.
    InvalidInterval,
    /// The credentials were refused.
    Unauthorized,
    /// The request or the answer could not be formed or read.
    Malformed,
}

/// API codes that say the exchange was busy or out of reach rather than that the
/// request was wrong: disconnected, too many requests, unexpected answer, timeout,
/// server busy, too many orders.
pub open spec fn transient_api_code(code: i32) -> bool {
    code == -1001 || code == -1003 || code == -1006 || code == -1007 || code == -1008 || code == -1015
}

/// The class of a failure: rate limits, timeouts, broken connections and a busy
/// exchange are transient; an unknown symbol or interval, refused credentials and
/// malformed requests are fatal; an API code goes by `transient_api_code`.
pub open spec fn failure_class(f: RequestFailure) -> FetchFailure {
    match f {
        RequestFailure::RateLimited => FetchFailure::Transient,
        RequestFailure::TimedOut => FetchFailure::Transient,
        RequestFailure::ConnectionReset => FetchFailure::Transient,
        RequestFailure::ServerUnavailable => FetchFailure::Transient,
        RequestFailure::Api { code } => if transient_api_code(code) {
            FetchFailure::Transient
        } else {
            FetchFailure::Fatal
        },
        _ => FetchFailure::Fatal,
    }
}

/// Classifies a failed request as transient or fatal.
pub fn classify(f: RequestFailure) -> (r: FetchFailure)
    ensures
        r == failure_class(f),
{
    match f {
        RequestFailure::RateLimited | RequestFailure::TimedOut | RequestFailure::ConnectionReset
        | RequestFailure::ServerUnavailable => FetchFailure::Transient,
        RequestFailure::Api { code } => {
            if code == -1001 || code == -1003 || code == -1006 || code == -1007 || code == -1008
                || code == -1015 {
                FetchFailure::Transient
            } else {
                FetchFailure::Fatal
            }
        },
        RequestFailure::UnknownSymbol | RequestFailure::InvalidInterval | RequestFailure::Unauthorized
        | RequestFailure::Malformed => FetchFailure::Fatal,
    }
}

} // verus!
