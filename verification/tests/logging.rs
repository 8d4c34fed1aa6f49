use slog::{LogContext, LogType, Timestamp};

fn ts(year: i32, month: u32, day: u32, hour: u32, minute: u32, second: u32, nano: u32) -> Timestamp {
    Timestamp { year, month, day, hour, minute, second, nanosecond: nano }
}

#[test]
fn log_from_vars() {
    let lctx = LogContext::new("./log", "slog_test");
    lctx.log("This is a log message");
    lctx.error("This is an error message");
}

#[test]
fn scenario_fixed_instant() {
    let ctx = LogContext::new("./log", "svc");
    let at = ts(2024, 1, 5, 10, 0, 0, 0);
    assert_eq!(ctx.file_name(&at), "svc.20240105.log");
    assert_eq!(ctx.file_path(&at), "./log/svc.20240105.log");
    let record = ctx.render(LogType::Log, &at, "started");
    assert_eq!(record.path, "./log/svc.20240105.log");
    assert_eq!(record.line, "LOG   2024-01-05T10:00:00+00:00: started\n");
}

#[test]
fn log_then_error_appends_two_lines() {
    let ctx = LogContext::new("/var/log", "app");
    let at = ts(2024, 1, 5, 10, 0, 0, 0);
    let first = ctx.render(LogType::Log, &at, "hello");
    let second = ctx.render(LogType::Error, &at, "hello");
    assert_eq!(first.path, second.path);

    let before = "ERROR 2024-01-04T23:59:59+00:00: old\n".to_string();
    let after = format!("{}{}{}", before, first.line, second.line);
    assert!(after.starts_with(&before));
    let new_lines: Vec<&str> = after[before.len()..].lines().collect();
    assert_eq!(new_lines.len(), 2);
    assert!(new_lines[0].starts_with("LOG  "));
    assert!(new_lines[1].starts_with("ERROR"));
    assert_eq!(new_lines[0], "LOG   2024-01-05T10:00:00+00:00: hello");
    assert_eq!(new_lines[1], "ERROR 2024-01-05T10:00:00+00:00: hello");
}

#[test]
fn same_day_same_file_grows() {
    let ctx = LogContext::new(".", "daily");
    let morning = ts(2024, 3, 9, 8, 15, 0, 0);
    let evening = ts(2024, 3, 9, 22, 45, 30, 0);
    assert_eq!(ctx.file_path(&morning), ctx.file_path(&evening));

    let mut content = String::new();
    let r1 = ctx.render(LogType::Log, &morning, "one");
    content.push_str(&r1.line);
    let snapshot = content.clone();
    let r2 = ctx.render(LogType::Log, &evening, "two");
    content.push_str(&r2.line);
    assert!(content.starts_with(&snapshot));
    assert!(content.len() > snapshot.len());
}

#[test]
fn new_day_new_file() {
    let ctx = LogContext::new("./log", "svc");
    let before_midnight = ts(2024, 1, 5, 23, 59, 59, 0);
    let after_midnight = ts(2024, 1, 6, 0, 0, 0, 0);
    let p1 = ctx.file_path(&before_midnight);
    let p2 = ctx.file_path(&after_midnight);
    assert_ne!(p1, p2);
    assert_eq!(p1, "./log/svc.20240105.log");
    assert_eq!(p2, "./log/svc.20240106.log");
}

#[test]
fn label_rendering() {
    assert_eq!(LogType::Log.to_str(), "LOG  ");
    assert_eq!(LogType::Error.to_str(), "ERROR");
    assert_eq!(LogType::Log.to_str().len(), 5);
    assert_eq!(LogType::Error.to_str().len(), 5);
}

#[test]
fn log_uses_the_clock() {
    let ctx = LogContext::new("./log", "slog_test");
    let record = ctx.log("started");
    // The wrapped clock read must produce a plausible current instant, not a
    // fixed or empty one.
    assert!(record.line.starts_with("LOG   2"));
    assert!(record.line.ends_with(": started\n"));
    assert!(record.line.contains("+00:00"));
    assert!(record.path.starts_with("./log/slog_test.2"));
    assert!(record.path.ends_with(".log"));
    let error_record = ctx.error("oops");
    assert!(error_record.line.starts_with("ERROR 2"));
}
