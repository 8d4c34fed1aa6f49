//! Log line rendering: a five-character label, a timestamp, and the message.

use vstd::prelude::*;
use vstd::string::StringExecFns;

use crate::timestamp::{rfc3339_chars, Timestamp};

verus! {

/// Which label a line carries.
#[derive(Clone, Copy, PartialEq, Eq, Structural, Debug)]
pub enum LogType {
    Log,
    Error,
}

impl LogType {
    /// The five-character label written at the start of a line.
    pub open spec fn label_chars(self) -> Seq<char> {
        match self {
            LogType::Log => seq!['L', 'O', 'G', ' ', ' '],
            LogType::Error => seq!['E', 'R', 'R', 'O', 'R'],
        }
    }

    /// Renders the label.
    pub fn to_str(&self) -> (s: String)
        ensures
            s@ == self.label_chars(),
    {
        match self {
            LogType::Log => {
                proof {
                    reveal_strlit("LOG  ");
                    assert("LOG  "@ =~= LogType::Log.label_chars());
                }
                String::from_str("LOG  ")
            },
            LogType::Error => {
                proof {
                    reveal_strlit("ERROR");
                    assert("ERROR"@ =~= LogType::Error.label_chars());
                }
                String::from_str("ERROR")
            },
        }
    }
}

/// The full text of one log line, newline included:
/// `<LABEL> <timestamp>: <message>\n`.
pub open spec fn line_chars(log_type: LogType, ts: Timestamp, msg: Seq<char>) -> Seq<char> {
    log_type.label_chars() + seq![' '] + rfc3339_chars(ts) + seq![':', ' '] + msg + seq!['\n']
}

/// Renders one log line.
pub fn render_line(log_type: LogType, ts: &Timestamp, msg: &str) -> (s: String)
    ensures
        s@ == line_chars(log_type, *ts, msg@),
{
    let mut out = log_type.to_str();
    out.append(" ");
    let stamp = ts.rfc3339();
    out.append(stamp.as_str());
    out.append(": ");
    out.append(msg);
    out.append("\n");
    proof {
        reveal_strlit(" ");
        reveal_strlit(": ");
        reveal_strlit("\n");
        assert(out@ =~= line_chars(log_type, *ts, msg@));
    }
    out
}

} // verus!
