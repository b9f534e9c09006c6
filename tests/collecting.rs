use fetch_candlesticks::collector::{CollectError, Collector, FetchFailure, DEFAULT_MAX_IN_FLIGHT};
use fetch_candlesticks::dataset::{Candle, Dataset};
use fetch_candlesticks::error::ConfigError;
use fetch_candlesticks::fetcher::{classify, RequestFailure};
use fetch_candlesticks::plan::{plan, windows_of, Window};
use fetch_candlesticks::update::update_plan;

fn windows(n: i64) -> Vec<Window> {
    (0..n).map(|k| Window { start: k * 100, end: (k + 1) * 100 }).collect()
}

fn candles_of(w: Window) -> Vec<Candle> {
    vec![
        Candle { open_time: w.start, row: w.start as usize },
        Candle { open_time: w.start + 50, row: w.start as usize + 50 },
    ]
}

#[test]
fn reversed_completion_gives_window_order() {
    let ws = windows(5);
    let mut sequential = Collector::with_limit(ws.clone(), 1);
    while !sequential.is_done() {
        let k = sequential.next_dispatch().unwrap();
        assert_eq!(sequential.next_dispatch(), None);
        let w = sequential.window(k);
        assert!(sequential.complete(k, Ok(candles_of(w))));
    }
    let expected = sequential.finish().ok().unwrap();

    let mut c = Collector::new(ws);
    let mut sent = Vec::new();
    while let Some(k) = c.next_dispatch() {
        sent.push(k);
    }
    assert_eq!(sent, vec![0, 1, 2, 3, 4]);
    for &k in sent.iter().rev() {
        let w = c.window(k);
        assert!(c.complete(k, Ok(candles_of(w))));
    }
    assert!(c.is_done());
    let got = c.finish().ok().unwrap();
    assert_eq!(got, expected);
    let times: Vec<i64> = got.iter().map(|c| c.open_time).collect();
    assert_eq!(times, vec![0, 50, 100, 150, 200, 250, 300, 350, 400, 450]);
}

#[test]
fn bound_on_requests_in_flight_holds() {
    let mut c = Collector::with_limit(windows(5), 2);
    assert_eq!(c.next_dispatch(), Some(0));
    assert_eq!(c.next_dispatch(), Some(1));
    assert_eq!(c.next_dispatch(), None);
    assert!(c.complete(1, Ok(vec![])));
    assert_eq!(c.next_dispatch(), Some(2));
    assert_eq!(c.next_dispatch(), None);
    assert!(!c.is_done());
    assert_eq!(DEFAULT_MAX_IN_FLIGHT, 50);
}

#[test]
fn one_transient_failure_of_five() {
    let ws = windows(5);
    let mut c = Collector::new(ws.clone());
    let mut sent = Vec::new();
    while let Some(k) = c.next_dispatch() {
        sent.push(k);
    }
    assert_eq!(sent.len(), 5);
    assert!(c.complete(2, Err(FetchFailure::Transient)));
    for k in [4usize, 0, 3, 1] {
        let w = c.window(k);
        assert!(c.complete(k, Ok(candles_of(w))));
    }
    assert!(c.is_done());
    match c.finish() {
        Err(CollectError::PartialFailure { succeeded, failed }) => {
            assert_eq!(failed, vec![ws[2]]);
            let got: Vec<Window> = succeeded.iter().map(|s| s.window).collect();
            assert_eq!(got, vec![ws[0], ws[1], ws[3], ws[4]]);
            assert_eq!(succeeded[2].candles, candles_of(ws[3]));
        },
        _ => panic!("expected a partial failure"),
    }
}

#[test]
fn transient_failure_does_not_stop_dispatch() {
    let mut c = Collector::with_limit(windows(5), 1);
    assert_eq!(c.next_dispatch(), Some(0));
    assert!(c.complete(0, Err(FetchFailure::Transient)));
    assert_eq!(c.next_dispatch(), Some(1));
}

#[test]
fn fatal_failure_stops_dispatch() {
    let ws = windows(5);
    let mut c = Collector::with_limit(ws.clone(), 2);
    assert_eq!(c.next_dispatch(), Some(0));
    assert_eq!(c.next_dispatch(), Some(1));
    assert!(c.complete(0, Err(FetchFailure::Fatal)));
    assert_eq!(c.next_dispatch(), None);
    assert!(!c.is_done());
    assert!(c.complete(1, Ok(candles_of(ws[1]))));
    assert_eq!(c.next_dispatch(), None);
    assert!(c.is_done());
    match c.finish() {
        Err(CollectError::Fatal { failed }) => assert_eq!(failed, vec![ws[0]]),
        _ => panic!("expected a fatal failure"),
    }
}

#[test]
fn each_window_is_reported_once() {
    let mut c = Collector::new(windows(2));
    assert!(!c.complete(0, Ok(vec![])));
    assert_eq!(c.next_dispatch(), Some(0));
    assert!(c.complete(0, Ok(vec![])));
    assert!(!c.complete(0, Err(FetchFailure::Fatal)));
    assert!(!c.complete(7, Ok(vec![])));
}

#[test]
fn no_windows_is_done_at_once() {
    let c = Collector::new(windows_of(&plan(5, 5, 60000, 10).unwrap()));
    assert!(c.is_done());
    assert_eq!(c.finish().ok().unwrap(), Vec::<Candle>::new());
}

#[test]
fn failures_are_classified() {
    assert_eq!(classify(RequestFailure::RateLimited), FetchFailure::Transient);
    assert_eq!(classify(RequestFailure::TimedOut), FetchFailure::Transient);
    assert_eq!(classify(RequestFailure::ConnectionReset), FetchFailure::Transient);
    assert_eq!(classify(RequestFailure::ServerUnavailable), FetchFailure::Transient);
    assert_eq!(classify(RequestFailure::Api { code: -1003 }), FetchFailure::Transient);
    assert_eq!(classify(RequestFailure::Api { code: -1121 }), FetchFailure::Fatal);
    assert_eq!(classify(RequestFailure::UnknownSymbol), FetchFailure::Fatal);
    assert_eq!(classify(RequestFailure::InvalidInterval), FetchFailure::Fatal);
    assert_eq!(classify(RequestFailure::Unauthorized), FetchFailure::Fatal);
    assert_eq!(classify(RequestFailure::Malformed), FetchFailure::Fatal);
}

#[test]
fn update_plan_for_empty_dataset() {
    let empty = Dataset::new();
    assert_eq!(update_plan(&empty, None, 1000, 60000, 10), Err(ConfigError::MissingStart));
    assert_eq!(update_plan(&empty, Some(2000), 1000, 60000, 10), Err(ConfigError::InvalidSpan));
    assert_eq!(update_plan(&empty, Some(0), 1_200_000, 60000, 10), Ok(vec![0, 600_000, 1_200_000]));
}

#[test]
fn update_plan_resumes_after_last_record() {
    let d = Dataset::build_fresh(&vec![
        Candle { open_time: 0, row: 0 },
        Candle { open_time: 60000, row: 1 },
    ]);
    assert_eq!(update_plan(&d, Some(0), 300000, 60000, 2), Ok(vec![120000, 240000, 300000]));
    assert_eq!(update_plan(&d, None, 60000, 60000, 2), Ok(vec![60000]));
    assert_eq!(update_plan(&d, None, 120000, 60000, 2), Ok(vec![120000]));
}

#[test]
fn transient_failure_leaves_the_rest_to_finish() {
    let ws = windows(5);
    let mut c = Collector::with_limit(ws.clone(), 2);
    assert_eq!(c.next_dispatch(), Some(0));
    assert_eq!(c.next_dispatch(), Some(1));
    assert!(c.complete(0, Err(FetchFailure::Transient)));
    let mut answered = 1;
    while !c.is_done() {
        while let Some(k) = c.next_dispatch() {
            let w = c.window(k);
            assert!(c.complete(k, Ok(candles_of(w))));
            answered += 1;
        }
        if c.complete(1, Ok(candles_of(ws[1]))) {
            answered += 1;
        }
    }
    assert_eq!(answered, 5);
    match c.finish() {
        Err(CollectError::PartialFailure { succeeded, failed }) => {
            assert_eq!(failed, vec![ws[0]]);
            assert_eq!(succeeded.len(), 4);
            assert_eq!(succeeded[0].window, ws[1]);
        },
        _ => panic!("expected a partial failure"),
    }
}
