use agentsync_core::cli::restore::{parse_timestamp, parse_timestamp_checked};
use agentsync_core::error::Error;

#[test]
fn parses_epoch_ms_passthrough() {
    assert_eq!(parse_timestamp("1700000000000", 0).unwrap(), 1_700_000_000_000);
}

#[test]
fn parses_relative_offsets() {
    let now = 10_000_000;
    assert_eq!(parse_timestamp("5m", now).unwrap(), now - 5 * 60 * 1000);
    assert_eq!(parse_timestamp("2h", now).unwrap(), now - 2 * 3_600_000);
    assert_eq!(parse_timestamp("1d", now).unwrap(), now - 86_400_000);
    assert_eq!(parse_timestamp("1w", now).unwrap(), now - 7 * 86_400_000);
    assert_eq!(parse_timestamp("30s", now).unwrap(), now - 30_000);
}

#[test]
fn rejects_garbage() {
    assert!(parse_timestamp("five-minutes", 0).is_err());
    assert!(parse_timestamp("", 0).is_err());
    assert!(parse_timestamp("5x", 0).is_err());
}

#[test]
fn signed_and_padded_epochs() {
    assert_eq!(parse_timestamp("  +42 ", 0).unwrap(), 42);
    assert_eq!(parse_timestamp("-7", 0).unwrap(), -7);
    assert!(matches!(parse_timestamp("+", 0), Err(Error::Other(_))));
    assert!(parse_timestamp("99999999999999999999", 0).is_err());
}

#[test]
fn relative_offset_that_overflows_is_refused() {
    assert!(parse_timestamp("9999999999999999w", 0).is_err());
}

#[test]
fn checked_timestamp_refuses_overflow() {
    assert_eq!(parse_timestamp_checked("30s", 100_000).unwrap(), 70_000);
    assert_eq!(parse_timestamp_checked(" 1700000000000 ", 5).unwrap(), 1_700_000_000_000);
    assert!(parse_timestamp_checked("-9000000000000000s", i64::MAX).is_err());
    assert!(parse_timestamp_checked("five-minutes", 0).is_err());
}

#[test]
fn negative_offsets_are_refused() {
    assert!(matches!(parse_timestamp("-5m", 10_000_000), Err(Error::Other(_))));
    assert_eq!(parse_timestamp("+5m", 10_000_000).unwrap(), 9_700_000);
    assert_eq!(parse_timestamp("5m", 10_000_000).unwrap(), 9_700_000);
}
