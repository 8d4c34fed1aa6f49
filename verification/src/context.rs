//! The logging context: where lines go, and the rendering of each call.

use vstd::prelude::*;
use vstd::string::StringExecFns;

use crate::logline::{line_chars, LogType};
use crate::timestamp::{short_date_chars, Timestamp};

verus! {

/// Where log lines are written: a directory and a base file name.
///
/// Holds only configuration; every write opens its file afresh, so the daily
/// file name is derived from the clock at each call.
#[derive(Clone)]
pub struct LogContext {
    pub log_dir: String,
    pub log_name: String,
}

/// The name of the daily log file: `<log_name>.<YYYYMMDD>.log`.
pub open spec fn file_name_chars(ctx: LogContext, ts: Timestamp) -> Seq<char> {
    ctx.log_name@ + seq!['.'] + short_date_chars(ts) + seq!['.', 'l', 'o', 'g']
}

/// The full path of the daily log file: `<log_dir>/<log_name>.<YYYYMMDD>.log`.
pub open spec fn path_chars(ctx: LogContext, ts: Timestamp) -> Seq<char> {
    ctx.log_dir@ + seq!['/'] + file_name_chars(ctx, ts)
}

/// One rendered log call: the file the line belongs in, and the line itself.
///
/// The host application appends `line` to the file at `path`, creating it if
/// absent and never truncating it.
pub struct LogRecord {
    pub path: String,
    pub line: String,
    pub timestamp: Timestamp,
}

/// Which required configuration value was absent.
#[derive(Clone, Copy, PartialEq, Eq, Structural, Debug)]
pub enum ConfigError {
    MissingLogDir,
    MissingLogName,
}

/// Relies on chrono::Utc::now and the chrono::Datelike / chrono::Timelike
/// accessors, whose documentation bounds each field: month 1..=12, day 1..=31,
/// hour 0..=23, minute 0..=59, second 0..=59, nanosecond 0..=1_999_999_999
/// (values of 1_000_000_000 and above standing for a leap second).
#[verifier::external_body]
fn now_utc() -> (ts: Timestamp)
    ensures
        ts.wf(),
{
    let now = chrono::Utc::now();
    Timestamp {
        year: chrono::Datelike::year(&now),
        month: chrono::Datelike::month(&now),
        day: chrono::Datelike::day(&now),
        hour: chrono::Timelike::hour(&now),
        minute: chrono::Timelike::minute(&now),
        second: chrono::Timelike::second(&now),
        nanosecond: chrono::Timelike::nanosecond(&now),
    }
}

impl LogContext {
    /// Builds a context from the two configuration strings, verbatim.
    /// Nothing about the directory is checked here; constraints are deferred
    /// to write time.
    pub fn new(log_dir: &str, log_name: &str) -> (ctx: LogContext)
        ensures
            ctx.log_dir@ == log_dir@,
            ctx.log_name@ == log_name@,
    {
        LogContext { log_dir: String::from_str(log_dir), log_name: String::from_str(log_name) }
    }

    /// Builds a context from configuration lookups that may have failed, such
    /// as environment variables.  Fails, naming the first absent value, if and
    /// only if one of them is `None`: no context is produced from partial
    /// configuration.
    pub fn from_lookups(log_dir: Option<String>, log_name: Option<String>) -> (r: Result<
        LogContext,
        ConfigError,
    >)
        ensures
            r is Ok <==> (log_dir is Some && log_name is Some),
            r is Ok ==> r->Ok_0.log_dir@ == log_dir->0@ && r->Ok_0.log_name@ == log_name->0@,
            log_dir is None ==> r == Err::<LogContext, ConfigError>(ConfigError::MissingLogDir),
            log_dir is Some && log_name is None ==> r == Err::<LogContext, ConfigError>(
                ConfigError::MissingLogName,
            ),
    {
        match log_dir {
            None => Err(ConfigError::MissingLogDir),
            Some(dir) => match log_name {
                None => Err(ConfigError::MissingLogName),
                Some(name) => Ok(LogContext { log_dir: dir, log_name: name }),
            },
        }
    }

    /// Renders the name of the daily file for the given instant.
    pub fn file_name(&self, ts: &Timestamp) -> (s: String)
        ensures
            s@ == file_name_chars(*self, *ts),
    {
        let mut out = self.log_name.clone();
        out.append(".");
        let date = ts.short_date();
        out.append(date.as_str());
        out.append(".log");
        proof {
            reveal_strlit(".");
            reveal_strlit(".log");
            assert(out@ =~= file_name_chars(*self, *ts));
        }
        out
    }

    /// Renders the full path of the daily file for the given instant.
    pub fn file_path(&self, ts: &Timestamp) -> (s: String)
        ensures
            s@ == path_chars(*self, *ts),
    {
        let mut out = self.log_dir.clone();
        out.append("/");
        let name = self.file_name(ts);
        out.append(name.as_str());
        proof {
            reveal_strlit("/");
            assert(out@ =~= path_chars(*self, *ts));
        }
        out
    }

    /// Renders one log call at a given instant: the target path and the full
    /// line, ready to be appended.
    pub fn render(&self, log_type: LogType, ts: &Timestamp, msg: &str) -> (r: LogRecord)
        ensures
            r.timestamp == *ts,
            r.path@ == path_chars(*self, *ts),
            r.line@ == line_chars(log_type, *ts, msg@),
    {
        let path = self.file_path(ts);
        let line = crate::logline::render_line(log_type, ts, msg);
        LogRecord { path, line, timestamp: *ts }
    }

    /// Renders a line tagged `LOG` at the current instant.
    pub fn log(&self, msg: &str) -> (r: LogRecord)
        ensures
            r.timestamp.wf(),
            r.path@ == path_chars(*self, r.timestamp),
            r.line@ == line_chars(LogType::Log, r.timestamp, msg@),
    {
        let now = now_utc();
        self.render(LogType::Log, &now, msg)
    }

    /// Renders a line tagged `ERROR` at the current instant.
    pub fn error(&self, msg: &str) -> (r: LogRecord)
        ensures
            r.timestamp.wf(),
            r.path@ == path_chars(*self, r.timestamp),
            r.line@ == line_chars(LogType::Error, r.timestamp, msg@),
    {
        let now = now_utc();
        self.render(LogType::Error, &now, msg)
    }
}

/// The diagnostic line reporting a required configuration value that could
/// not be read: `Failed to find env var "<key>" for log: <cause>`.
pub open spec fn missing_config_chars(key: Seq<char>, cause: Seq<char>) -> Seq<char> {
    "Failed to find env var \""@ + key + "\" for log: "@ + cause
}

/// Renders the diagnostic for a missing configuration value.
pub fn missing_config_message(key: &str, cause: &str) -> (m: String)
    ensures
        m@ == missing_config_chars(key@, cause@),
{
    let mut out = String::from_str("Failed to find env var \"");
    out.append(key);
    out.append("\" for log: ");
    out.append(cause);
    out
}

/// The diagnostic line reporting a file that could not be opened:
/// `Failed to open <path> for writing: <cause>`.  It names the failed path.
pub open spec fn open_failure_chars(path: Seq<char>, cause: Seq<char>) -> Seq<char> {
    "Failed to open "@ + path + " for writing: "@ + cause
}

/// Renders the diagnostic for a failed open.
pub fn open_failure_message(path: &str, cause: &str) -> (m: String)
    ensures
        m@ == open_failure_chars(path@, cause@),
{
    let mut out = String::from_str("Failed to open ");
    out.append(path);
    out.append(" for writing: ");
    out.append(cause);
    out
}

/// The diagnostic line reporting a write that failed after the file was
/// opened: `Failed to write to <path>: <cause>`.  It names the failed path.
pub open spec fn write_failure_chars(path: Seq<char>, cause: Seq<char>) -> Seq<char> {
    "Failed to write to "@ + path + ": "@ + cause
}

/// Renders the diagnostic for a failed write.
pub fn write_failure_message(path: &str, cause: &str) -> (m: String)
    ensures
        m@ == write_failure_chars(path@, cause@),
{
    let mut out = String::from_str("Failed to write to ");
    out.append(path);
    out.append(": ");
    out.append(cause);
    out
}

} // verus!
