use fetch_candlesticks::clock::{default_end, default_start, parse_time};
use fetch_candlesticks::date_range::DateTimeRange;
use fetch_candlesticks::error::ConfigError;
use fetch_candlesticks::interval::{default_interval, deserialize_duration, serialize_duration};
use fetch_candlesticks::plan::{plan, windows_of, Window};
use fetch_candlesticks::timestamp::TimestampBuilder;
use fetch_candlesticks::naming::{dataset_file_name, file_name};
use fetch_candlesticks::{default_batch_size, default_symbol};

const FEB_22: i64 = 1677024000000;
const MINUTE: i64 = 60000;
const QUARTER: i64 = 900000;

#[test]
fn parse_time_reads_minutes_in_utc() {
    assert_eq!(parse_time("2023-02-22 00:00"), Ok(FEB_22));
    assert_eq!(parse_time("2023-02-27 04:45"), Ok(1677473100000));
    assert_eq!(parse_time("2023-02-22 00:00:00"), Err(ConfigError::UnparsableTime));
    assert_eq!(parse_time("yesterday"), Err(ConfigError::UnparsableTime));
}

#[test]
fn default_start_is_the_documented_instant() {
    assert_eq!(parse_time("2019-09-13 04:00"), Ok(default_start()));
    assert!(default_end() > default_start());
    assert_eq!(default_batch_size(), 499);
    assert_eq!(default_interval(), QUARTER);
}

#[test]
fn degenerate_span_plans_no_window() {
    let b = plan(FEB_22, FEB_22, QUARTER, 499).unwrap();
    assert_eq!(b, vec![FEB_22]);
    assert!(windows_of(&b).is_empty());
}

#[test]
fn inverted_span_is_refused() {
    assert_eq!(plan(FEB_22 + 1, FEB_22, QUARTER, 499), Err(ConfigError::InvalidSpan));
    assert_eq!(
        TimestampBuilder::from_millis(FEB_22 + 1, FEB_22, "15m").err(),
        Some(ConfigError::InvalidSpan)
    );
}

#[test]
fn exact_multiple_has_no_trailing_window() {
    let step = 499 * QUARTER;
    let one = plan(FEB_22, FEB_22 + step, QUARTER, 499).unwrap();
    assert_eq!(one, vec![FEB_22, FEB_22 + step]);
    let longer = plan(FEB_22, FEB_22 + step + QUARTER, QUARTER, 499).unwrap();
    assert_eq!(longer, vec![FEB_22, FEB_22 + step, FEB_22 + step + QUARTER]);
    let three = plan(0, 3 * step, QUARTER, 499).unwrap();
    assert_eq!(three, vec![0, step, 2 * step, 3 * step]);
}

#[test]
fn plan_covers_span_without_gaps() {
    let b = plan(1000, 1000 + 10 * MINUTE + 7, MINUTE, 3).unwrap();
    assert_eq!(
        b,
        vec![1000, 1000 + 3 * MINUTE, 1000 + 6 * MINUTE, 1000 + 9 * MINUTE, 1000 + 10 * MINUTE + 7]
    );
    let w = windows_of(&b);
    assert_eq!(w.len(), 4);
    assert_eq!(w[0], Window { start: 1000, end: 1000 + 3 * MINUTE });
    assert_eq!(w[3], Window { start: 1000 + 9 * MINUTE, end: 1000 + 10 * MINUTE + 7 });
    for pair in w.windows(2) {
        assert_eq!(pair[0].end, pair[1].start);
        assert!(pair[0].end - pair[0].start <= 3 * MINUTE);
    }
}

#[test]
fn builder_from_millis_reads_the_interval() {
    let b = TimestampBuilder::from_millis(0, 10 * MINUTE, "1m").unwrap();
    assert_eq!(b.step(), MINUTE);
    assert_eq!(b.start(), 0);
    assert_eq!(b.end(), 10 * MINUTE);
    assert_eq!(b.build(), Some(vec![0, 10 * MINUTE]));
    assert_eq!(
        TimestampBuilder::from_millis(0, 10, "2m").err(),
        Some(ConfigError::UnknownInterval)
    );
    let d = TimestampBuilder::from_millis(0, 86400000, "1d").unwrap();
    assert_eq!(d.step(), 86400000);
}

#[test]
fn builder_limit_sets_window_length() {
    let mut b = TimestampBuilder::from_millis(0, 10 * MINUTE, "1m").unwrap();
    b.limit = 4;
    assert_eq!(b.build(), Some(vec![0, 4 * MINUTE, 8 * MINUTE, 10 * MINUTE]));
}

#[test]
fn builder_with_unparsable_end() {
    assert_eq!(
        TimestampBuilder::new("2023-02-22 00:00", Some("2023-02-22"), "15m").err(),
        Some(ConfigError::UnparsableTime)
    );
}

#[test]
fn catalog_round_trips_every_token() {
    let table = [
        ("1m", 60000),
        ("5m", 300000),
        ("15m", 900000),
        ("1h", 3600000),
        ("4h", 14400000),
        ("1d", 86400000),
    ];
    for (token, ms) in table {
        assert_eq!(deserialize_duration(token), Ok(ms));
        assert_eq!(serialize_duration(ms), Ok(token));
    }
}

#[test]
fn catalog_fails_closed() {
    assert_eq!(deserialize_duration("2m"), Err(ConfigError::UnknownInterval));
    assert_eq!(deserialize_duration(""), Err(ConfigError::UnknownInterval));
    assert_eq!(deserialize_duration("15M"), Err(ConfigError::UnknownInterval));
    assert_eq!(serialize_duration(60001), Err(ConfigError::UnsupportedDuration));
    assert_eq!(serialize_duration(0), Err(ConfigError::UnsupportedDuration));
}

#[test]
fn date_range_hands_out_instants() {
    let mut r = DateTimeRange(0, 20, 10);
    assert_eq!(r.next(), Some(0));
    assert_eq!(r.next(), Some(10));
    assert_eq!(r.next(), Some(20));
    assert_eq!(r.next(), None);
    assert_eq!(r.next(), None);
}

#[test]
fn date_range_step_by_keeps_every_nth() {
    assert_eq!(DateTimeRange(0, 100, 10).step_by(3), vec![0, 30, 60, 90]);
    assert_eq!(DateTimeRange(0, 100, 10).step_by(1).len(), 11);
    assert_eq!(DateTimeRange(0, 89, 10).step_by(3), vec![0, 30, 60]);
    assert_eq!(DateTimeRange(5, 4, 10).step_by(2), Vec::<i64>::new());
}

#[test]
fn dataset_file_name_spells_the_range() {
    assert_eq!(default_symbol(), "btcusdt");
    assert_eq!(
        dataset_file_name("btcusdt", QUARTER, FEB_22, 1677473100000),
        Ok("btcusdt-perp-binance-15m-from-2023-02-22-00-00-to-2023-02-27-04-45.parquet".to_string())
    );
    assert_eq!(dataset_file_name("btcusdt", 1, 0, 0), Err(ConfigError::UnsupportedDuration));
    assert_eq!(
        dataset_file_name("btcusdt", QUARTER, i64::MAX, 0),
        Err(ConfigError::TimeOutOfRange)
    );
    assert_eq!(file_name("a", "1h", "x", "y"), "a-perp-binance-1h-from-x-to-y.parquet");
}
