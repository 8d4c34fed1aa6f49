//! Calendar timestamps as plain values, and their text renderings.

use vstd::prelude::*;
use vstd::string::StringExecFns;

use crate::digits::{dec_digits, padded, push_padded};

verus! {

/// An instant in UTC, broken out into calendar fields.
///
/// `nanosecond` counts from the start of the whole non-leap second; values of
/// `1_000_000_000` and above stand for a leap second, which renders as second
/// number 60.
#[derive(Clone, Copy, PartialEq, Eq, Structural, Debug)]
pub struct Timestamp {
    pub year: i32,
    pub month: u32,
    pub day: u32,
    pub hour: u32,
    pub minute: u32,
    pub second: u32,
    pub nanosecond: u32,
}

impl Timestamp {
    /// The fields form a plausible calendar date and clock reading.
    pub open spec fn wf(self) -> bool {
        &&& 1 <= self.month <= 12
        &&& 1 <= self.day <= 31
        &&& self.hour <= 23
        &&& self.minute <= 59
        &&& self.second <= 59
        &&& self.nanosecond <= 1_999_999_999
    }

    /// The calendar date alone, as `(year, month, day)`.
    pub open spec fn date(self) -> (int, int, int) {
        (self.year as int, self.month as int, self.day as int)
    }
}

/// The year, zero-padded to four digits, with a leading `-` when negative.
pub open spec fn year_chars(y: int) -> Seq<char> {
    if y >= 0 {
        padded(y as nat, 4)
    } else {
        seq!['-'] + padded((-y) as nat, 4)
    }
}

/// The compact date stamp `YYYYMMDD` used in log file names.
pub open spec fn short_date_chars(ts: Timestamp) -> Seq<char> {
    year_chars(ts.year as int) + padded(ts.month as nat, 2) + padded(ts.day as nat, 2)
}

/// The second number as rendered, folding a leap second in as 60.
pub open spec fn shown_second(ts: Timestamp) -> nat {
    (ts.second + ts.nanosecond / 1_000_000_000) as nat
}

/// The sub-second fraction as rendered: empty when zero, else a dot and nine
/// digits.
pub open spec fn fraction_chars(ts: Timestamp) -> Seq<char> {
    if ts.nanosecond % 1_000_000_000 == 0 {
        Seq::<char>::empty()
    } else {
        seq!['.'] + padded((ts.nanosecond % 1_000_000_000) as nat, 9)
    }
}

/// The full offset-aware timestamp written inside each log line:
/// `YYYY-MM-DDTHH:MM:SS[.fffffffff]+00:00`.
pub open spec fn rfc3339_chars(ts: Timestamp) -> Seq<char> {
    year_chars(ts.year as int) + seq!['-'] + padded(ts.month as nat, 2) + seq!['-'] + padded(
        ts.day as nat,
        2,
    ) + seq!['T'] + padded(ts.hour as nat, 2) + seq![':'] + padded(ts.minute as nat, 2) + seq![':']
        + padded(shown_second(ts), 2) + fraction_chars(ts) + seq!['+', '0', '0', ':', '0', '0']
}

/// Appends `year_chars(y)` to `out`.
fn push_year(y: i32, out: &mut String)
    ensures
        final(out)@ == old(out)@ + year_chars(y as int),
{
    if y >= 0 {
        push_padded(y as u64, 4, out);
    } else {
        out.append("-");
        let mag: u64 = (-(y as i64)) as u64;
        push_padded(mag, 4, out);
        proof {
            reveal_strlit("-");
            assert(final(out)@ =~= old(out)@ + year_chars(y as int));
        }
    }
}

impl Timestamp {
    /// Renders the compact `YYYYMMDD` date stamp.
    pub fn short_date(&self) -> (s: String)
        ensures
            s@ == short_date_chars(*self),
    {
        let mut out = String::new();
        push_year(self.year, &mut out);
        push_padded(self.month as u64, 2, &mut out);
        push_padded(self.day as u64, 2, &mut out);
        proof {
            assert(out@ =~= short_date_chars(*self));
        }
        out
    }

    /// Renders the full offset-aware timestamp.
    pub fn rfc3339(&self) -> (s: String)
        ensures
            s@ == rfc3339_chars(*self),
    {
        let mut out = String::new();
        push_year(self.year, &mut out);
        out.append("-");
        push_padded(self.month as u64, 2, &mut out);
        out.append("-");
        push_padded(self.day as u64, 2, &mut out);
        out.append("T");
        push_padded(self.hour as u64, 2, &mut out);
        out.append(":");
        push_padded(self.minute as u64, 2, &mut out);
        out.append(":");
        let shown: u64 = self.second as u64 + (self.nanosecond as u64) / 1_000_000_000;
        push_padded(shown, 2, &mut out);
        let frac: u64 = (self.nanosecond as u64) % 1_000_000_000;
        if frac != 0 {
            out.append(".");
            push_padded(frac, 9, &mut out);
        }
        out.append("+00:00");
        proof {
            reveal_strlit("-");
            reveal_strlit("T");
            reveal_strlit(":");
            reveal_strlit(".");
            reveal_strlit("+00:00");
            assert(out@ =~= rfc3339_chars(*self));
        }
        out
    }
}

} // verus!
