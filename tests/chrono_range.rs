use fetch_candlesticks::timestamp::TimestampBuilder;

#[test]
fn ts_same_start_end() {
    let ts = TimestampBuilder::new("2023-02-22 00:00", Some("2023-02-22 00:00"), "15m")
        .unwrap()
        .build();
    assert_eq!(ts, None);
}

#[test]
fn ts_under_limit() {
    let ts = TimestampBuilder::new("2023-02-22 00:00", Some("2023-02-27 04:44"), "15m")
        .unwrap()
        .build()
        .unwrap();
    assert_eq!(ts.len(), 2);
    let ts: Vec<_> = ts.windows(2).collect();
    assert_eq!(ts.len(), 1);
}

#[test]
fn ts_as_same_as_limit() {
    let ts = TimestampBuilder::new("2023-02-22 00:00", Some("2023-02-27 04:45"), "15m")
        .unwrap()
        .build()
        .unwrap();
    assert_eq!(ts.len(), 2);
    let ts: Vec<_> = ts.windows(2).collect();
    assert_eq!(ts.len(), 1);
}

#[test]
fn ts_exceed_limit() {
    let ts = TimestampBuilder::new("2023-02-22 00:00", Some("2023-02-27 04:46"), "15m")
        .unwrap()
        .build()
        .unwrap();
    assert_eq!(ts.len(), 3);
    let ts: Vec<_> = ts.windows(2).collect();
    assert_eq!(ts.len(), 2);
}

#[test]
#[should_panic]
#[allow(unused)]
fn ts_panic_parse_str() {
    TimestampBuilder::new("2023-02-22 00:00:00", None::<&str>, "15m").unwrap();
}

#[test]
fn ts_too_long_span() {
    let ts = TimestampBuilder::new("2020-01-01 00:00", Some("2023-03-01 00:00"), "15m")
        .unwrap()
        .build()
        .unwrap();
    assert_eq!(ts.len(), 224);
    let ts: Vec<_> = ts.windows(2).collect();
    assert_eq!(ts.len(), 223);
}

#[test]
#[should_panic]
fn ts_start_later_than_end() {
    TimestampBuilder::new("2023-03-01 01:00", Some("2023-03-01 00:00"), "15m").unwrap();
}
