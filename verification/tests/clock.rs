use lakehouse::clock::{current_timestamp, rfc3339_of_reading};
use lakehouse::error::LakehouseError;
use lakehouse::snapshot::requested_instant;

#[test]
fn reading_is_written_as_rfc3339() {
    assert_eq!(
        rfc3339_of_reading(1772366400, 0).as_deref(),
        Ok("2026-03-01T12:00:00+00:00")
    );
    assert_eq!(
        rfc3339_of_reading(1772366400, 250_000_000).as_deref(),
        Ok("2026-03-01T12:00:00.250+00:00")
    );
}

#[test]
fn written_reading_parses_back() {
    let t = rfc3339_of_reading(1772366400, 123_456_789).expect("text");
    assert_eq!(requested_instant(&t), Ok((1772366400, 123_456_789)));
}

#[test]
fn unwritable_reading_is_refused() {
    assert_eq!(rfc3339_of_reading(u64::MAX, 0), Err(LakehouseError::ClockUnreadable));
    assert_eq!(
        rfc3339_of_reading(i64::MAX as u64, 0),
        Err(LakehouseError::ClockUnreadable)
    );
}

#[test]
fn current_timestamp_parses_back() {
    let t = current_timestamp().expect("clock");
    assert!(requested_instant(&t).is_ok());
}
