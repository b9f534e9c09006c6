use fetch_candlesticks::dataset::{Candle, ColumnError, Dataset};

fn c(open_time: i64, row: usize) -> Candle {
    Candle { open_time, row }
}

#[test]
fn build_fresh_sorts_and_keeps_first() {
    let raw = vec![c(30, 0), c(10, 1), c(20, 2), c(10, 3), c(30, 4)];
    let d = Dataset::build_fresh(&raw);
    assert_eq!(d.candles(), &vec![c(10, 1), c(20, 2), c(30, 0)]);
    assert_eq!(d.len(), 3);
    assert_eq!(d.last_open_time(), Some(30));
}

#[test]
fn dedup_keeps_exactly_one() {
    let raw = vec![c(5, 0), c(5, 1)];
    let d = Dataset::build_fresh(&raw);
    assert_eq!(d.candles(), &vec![c(5, 0)]);
}

#[test]
fn build_fresh_of_nothing_is_empty() {
    let d = Dataset::build_fresh(&Vec::new());
    assert!(d.is_empty());
    assert_eq!(d.last_open_time(), None);
}

#[test]
fn append_nothing_to_fresh_changes_nothing() {
    let raw = vec![c(20, 0), c(10, 1)];
    let fresh = Dataset::build_fresh(&raw);
    let again = Dataset::build_fresh(&raw);
    let out = again.append_to(&Vec::new(), 10);
    assert_eq!(out.candles(), fresh.candles());
}

#[test]
fn append_older_records_changes_nothing() {
    let d = Dataset::build_fresh(&vec![c(0, 0), c(10, 1), c(20, 2)]);
    let expected = d.candles().clone();
    let out = d.append_to(&vec![c(5, 7), c(15, 8), c(19, 9)], 10);
    assert_eq!(out.candles(), &expected);
}

#[test]
fn append_keeps_only_the_new_tail() {
    let d = Dataset::build_fresh(&vec![c(0, 0), c(10, 1)]);
    let out = d.append_to(&vec![c(30, 5), c(10, 6), c(19, 7), c(20, 8), c(30, 9)], 10);
    assert_eq!(out.candles(), &vec![c(0, 0), c(10, 1), c(20, 8), c(30, 5)]);
}

#[test]
fn append_to_empty_builds_fresh() {
    let out = Dataset::new().append_to(&vec![c(2, 0), c(1, 1)], 1);
    assert_eq!(out.candles(), &vec![c(1, 1), c(2, 0)]);
}

#[test]
fn columns_round_trip() {
    let d = Dataset::build_fresh(&vec![c(3, 2), c(1, 0), c(2, 1)]);
    let (times, rows) = d.to_columns();
    assert_eq!(times, vec![1, 2, 3]);
    assert_eq!(rows, vec![0, 1, 2]);
    let back = Dataset::from_columns(&times, &rows).unwrap();
    assert_eq!(back.candles(), d.candles());
}

#[test]
fn columns_are_checked_when_read() {
    assert_eq!(
        Dataset::from_columns(&vec![1, 2], &vec![0]).err(),
        Some(ColumnError::LengthMismatch)
    );
    assert_eq!(
        Dataset::from_columns(&vec![1, 1], &vec![0, 1]).err(),
        Some(ColumnError::NotIncreasing)
    );
    assert_eq!(
        Dataset::from_columns(&vec![2, 1], &vec![0, 1]).err(),
        Some(ColumnError::NotIncreasing)
    );
    assert!(Dataset::from_columns(&vec![], &vec![]).unwrap().is_empty());
}
