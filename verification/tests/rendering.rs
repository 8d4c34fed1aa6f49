use slog::{ConfigError, LogContext, Timestamp};
use slog::{missing_config_message, open_failure_message, write_failure_message};

fn ts(year: i32, month: u32, day: u32, hour: u32, minute: u32, second: u32, nano: u32) -> Timestamp {
    Timestamp { year, month, day, hour, minute, second, nanosecond: nano }
}

#[test]
fn timestamp_padding() {
    assert_eq!(ts(987, 6, 3, 4, 5, 6, 0).short_date(), "09870603");
    assert_eq!(ts(2024, 12, 31, 0, 0, 0, 0).short_date(), "20241231");
    assert_eq!(ts(0, 1, 1, 0, 0, 0, 0).short_date(), "00000101");
    assert_eq!(ts(987, 6, 3, 4, 5, 6, 0).rfc3339(), "0987-06-03T04:05:06+00:00");
}

#[test]
fn timestamp_fraction() {
    assert_eq!(ts(2024, 1, 5, 10, 0, 0, 0).rfc3339(), "2024-01-05T10:00:00+00:00");
    assert_eq!(
        ts(2024, 1, 5, 10, 0, 0, 123_456_789).rfc3339(),
        "2024-01-05T10:00:00.123456789+00:00"
    );
    assert_eq!(ts(2024, 1, 5, 10, 0, 0, 5).rfc3339(), "2024-01-05T10:00:00.000000005+00:00");
}

#[test]
fn timestamp_leap_second() {
    // A nanosecond count of 1_500_000_000 stands for half way through the
    // leap second: it renders as second number 60.
    assert_eq!(
        ts(2016, 12, 31, 23, 59, 59, 1_500_000_000).rfc3339(),
        "2016-12-31T23:59:60.500000000+00:00"
    );
}

#[test]
fn timestamp_negative_year() {
    assert_eq!(ts(-1, 1, 1, 0, 0, 0, 0).short_date(), "-00010101");
    assert_eq!(ts(-1, 1, 1, 0, 0, 0, 0).rfc3339(), "-0001-01-01T00:00:00+00:00");
}

#[test]
fn rendered_timestamps_follow_time_order() {
    let instants = [
        ts(2023, 12, 31, 23, 59, 59, 999_999_999),
        ts(2024, 1, 5, 9, 59, 59, 0),
        ts(2024, 1, 5, 10, 0, 0, 0),
        ts(2024, 1, 5, 10, 0, 0, 500_000_000),
        ts(2024, 1, 5, 10, 0, 1, 0),
        ts(2024, 2, 1, 0, 0, 0, 0),
    ];
    for pair in instants.windows(2) {
        assert!(pair[0].rfc3339() <= pair[1].rfc3339());
    }
}

#[test]
fn construction_keeps_strings_verbatim() {
    let ctx = LogContext::new("./some dir", "base.name");
    assert_eq!(ctx.log_dir, "./some dir");
    assert_eq!(ctx.log_name, "base.name");
    let at = ts(2024, 1, 5, 0, 0, 0, 0);
    assert_eq!(ctx.file_path(&at), "./some dir/base.name.20240105.log");
}

#[test]
fn missing_dir_key_fails_construction() {
    let r = LogContext::from_lookups(None, Some("svc".to_string()));
    assert_eq!(r.err(), Some(ConfigError::MissingLogDir));
}

#[test]
fn missing_name_key_fails_construction() {
    let r = LogContext::from_lookups(Some("./log".to_string()), None);
    assert_eq!(r.err(), Some(ConfigError::MissingLogName));
}

#[test]
fn missing_both_keys_names_the_dir_key() {
    let r = LogContext::from_lookups(None, None);
    assert_eq!(r.err(), Some(ConfigError::MissingLogDir));
}

#[test]
fn complete_lookups_construct() {
    let r = LogContext::from_lookups(Some("./log".to_string()), Some("svc".to_string()));
    let ctx = r.ok().expect("both values present");
    assert_eq!(ctx.log_dir, "./log");
    assert_eq!(ctx.log_name, "svc");
}

#[test]
fn diagnostics_name_the_path() {
    let m = missing_config_message("SLOG_TEST_LOG_DIR", "environment variable not found");
    assert_eq!(m, "Failed to find env var \"SLOG_TEST_LOG_DIR\" for log: environment variable not found");

    let o = open_failure_message("./log/svc.20240105.log", "No such file or directory");
    assert_eq!(o, "Failed to open ./log/svc.20240105.log for writing: No such file or directory");
    assert!(o.contains("./log/svc.20240105.log"));

    let w = write_failure_message("./log/svc.20240105.log", "No space left on device");
    assert_eq!(w, "Failed to write to ./log/svc.20240105.log: No space left on device");
    assert!(w.contains("./log/svc.20240105.log"));
}
