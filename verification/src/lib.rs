//! A minimal file-based logging helper.
//!
//! A [`LogContext`](context::LogContext) holds a directory and a base name;
//! its `log` and `error` operations render a timestamped line destined for a
//! daily file named `<base>.<YYYYMMDD>.log` inside the directory.  The
//! rendering logic is verified; the actual file append is left to the host
//! application.

pub mod context;
pub mod digits;
pub mod laws;
pub mod logline;
pub mod order;
pub mod timestamp;

pub use context::{ConfigError, LogContext, LogRecord};
pub use context::{missing_config_message, open_failure_message, write_failure_message};
pub use logline::LogType;
pub use timestamp::Timestamp;
