//! Laws of the log file model.
//!
//! A log file is modelled as the sequence of characters it holds, and the set
//! of log files as a map from path to content.  Appending a rendered line is
//! concatenation.  The lemmas here state how the rendered lines behave under
//! that model: what one `log`/`error` pair adds to a file, why a day's calls
//! all land in one file, and why a new day opens a fresh file and leaves the
//! old one alone.

use vstd::prelude::*;

use crate::context::{path_chars, LogContext};
use crate::digits::{all_digits, is_digit, padded};
use crate::logline::{line_chars, LogType};
use crate::timestamp::{
    fraction_chars, rfc3339_chars, short_date_chars, year_chars, Timestamp,
};

verus! {

/// How many newline characters `s` holds: how many complete lines a file
/// ending in a newline consists of.
pub open spec fn newline_count(s: Seq<char>) -> nat
    decreases s.len(),
{
    if s.len() == 0 {
        0
    } else {
        newline_count(s.drop_last()) + if s.last() == '\n' {
            1 as nat
        } else {
            0 as nat
        }
    }
}

/// `s` holds no newline character.
pub open spec fn has_no_newline(s: Seq<char>) -> bool {
    forall|i: int| 0 <= i < s.len() ==> #[trigger] s[i] != '\n'
}

/// Newlines are counted piecewise over concatenation.
pub proof fn lemma_newline_count_concat(a: Seq<char>, b: Seq<char>)
    ensures
        newline_count(a + b) == newline_count(a) + newline_count(b),
    decreases b.len(),
{
    if b.len() == 0 {
        assert(a + b =~= a);
    } else {
        assert((a + b).drop_last() =~= a + b.drop_last());
        assert((a + b).last() == b.last());
        lemma_newline_count_concat(a, b.drop_last());
    }
}

proof fn lemma_newline_count_none(s: Seq<char>)
    requires
        has_no_newline(s),
    ensures
        newline_count(s) == 0,
    decreases s.len(),
{
    if s.len() > 0 {
        assert(has_no_newline(s.drop_last()));
        lemma_newline_count_none(s.drop_last());
    }
}

proof fn lemma_digits_no_newline(s: Seq<char>)
    requires
        all_digits(s),
    ensures
        has_no_newline(s),
{
    assert forall|i: int| 0 <= i < s.len() implies #[trigger] s[i] != '\n' by {
        assert(is_digit(s[i]));
    }
}

proof fn lemma_year_no_newline(y: int)
    ensures
        has_no_newline(year_chars(y)),
{
    if y >= 0 {
        crate::digits::lemma_padded_props(y as nat, 4);
        lemma_digits_no_newline(padded(y as nat, 4));
    } else {
        crate::digits::lemma_padded_props((-y) as nat, 4);
        lemma_digits_no_newline(padded((-y) as nat, 4));
        let s = year_chars(y);
        assert forall|i: int| 0 <= i < s.len() implies #[trigger] s[i] != '\n' by {
            if i > 0 {
                assert(s[i] == padded((-y) as nat, 4)[i - 1]);
            }
        }
    }
}

proof fn lemma_rfc3339_no_newline(ts: Timestamp)
    ensures
        has_no_newline(rfc3339_chars(ts)),
{
    crate::digits::lemma_padded_props(if ts.year >= 0 {
        ts.year as nat
    } else {
        (-ts.year) as nat
    }, 4);
    crate::digits::lemma_padded_props(ts.month as nat, 2);
    crate::digits::lemma_padded_props(ts.day as nat, 2);
    crate::digits::lemma_padded_props(ts.hour as nat, 2);
    crate::digits::lemma_padded_props(ts.minute as nat, 2);
    crate::digits::lemma_padded_props(crate::timestamp::shown_second(ts), 2);
    crate::digits::lemma_padded_props((ts.nanosecond % 1_000_000_000) as nat, 9);
    let s = rfc3339_chars(ts);
    assert forall|i: int| 0 <= i < s.len() implies #[trigger] s[i] != '\n' by {
        lemma_year_no_newline(ts.year as int);
        lemma_digits_no_newline(padded(ts.month as nat, 2));
        lemma_digits_no_newline(padded(ts.day as nat, 2));
        lemma_digits_no_newline(padded(ts.hour as nat, 2));
        lemma_digits_no_newline(padded(ts.minute as nat, 2));
        lemma_digits_no_newline(padded(crate::timestamp::shown_second(ts), 2));
        lemma_digits_no_newline(padded((ts.nanosecond % 1_000_000_000) as nat, 9));
    }
}

/// One rendered line is exactly one line: it ends in a newline and holds no
/// other, provided the message itself holds none.
pub proof fn lemma_line_is_one_line(log_type: LogType, ts: Timestamp, msg: Seq<char>)
    requires
        has_no_newline(msg),
    ensures
        line_chars(log_type, ts, msg).len() > 0,
        line_chars(log_type, ts, msg).last() == '\n',
        newline_count(line_chars(log_type, ts, msg)) == 1,
        line_chars(log_type, ts, msg).subrange(0, 5) == log_type.label_chars(),
{
    let l = line_chars(log_type, ts, msg);
    let body = log_type.label_chars() + seq![' '] + rfc3339_chars(ts) + seq![':', ' '] + msg;
    assert(l =~= body + seq!['\n']);
    lemma_rfc3339_no_newline(ts);
    assert(has_no_newline(body));
    lemma_newline_count_none(body);
    lemma_newline_count_concat(body, seq!['\n']);
    assert(newline_count(seq!['\n']) == 1) by {
        assert(seq!['\n'].drop_last() =~= Seq::<char>::empty());
        assert(newline_count(Seq::<char>::empty()) == 0);
        assert(seq!['\n'].last() == '\n');
    }
    assert(l.subrange(0, 5) =~= log_type.label_chars());
}

/// Appending never rewrites history: the old content stays in place as a
/// prefix, and the appended line follows it verbatim.  This is what "the file
/// grows monotonically, with no truncation" means in the model.
pub proof fn lemma_append_grows_file(content: Seq<char>, line: Seq<char>)
    ensures
        (content + line).len() == content.len() + line.len(),
        (content + line).subrange(0, content.len() as int) == content,
        (content + line).subrange(content.len() as int, content.len() + line.len() as int) == line,
{
    assert((content + line).subrange(0, content.len() as int) =~= content);
    assert((content + line).subrange(content.len() as int, content.len() + line.len() as int) =~= line);
}

/// Calling `log` and then `error`, each on a newline-free message, appends
/// exactly two new lines in call order: the old content is untouched, the
/// first new line carries the `LOG` label, the second the `ERROR` label, and
/// on one day both land in the same file.
pub proof fn lemma_log_then_error_appends(
    content: Seq<char>,
    ctx: LogContext,
    ts1: Timestamp,
    ts2: Timestamp,
    msg: Seq<char>,
)
    requires
        has_no_newline(msg),
    ensures
        ({
            let l1 = line_chars(LogType::Log, ts1, msg);
            let l2 = line_chars(LogType::Error, ts2, msg);
            let grown = content + l1 + l2;
            &&& grown.len() == content.len() + l1.len() + l2.len()
            &&& grown.subrange(0, content.len() as int) == content
            &&& grown.subrange(content.len() as int, content.len() + l1.len() as int) == l1
            &&& grown.subrange(content.len() + l1.len() as int, grown.len() as int) == l2
            &&& newline_count(grown) == newline_count(content) + 2
            &&& l1.subrange(0, 5) == LogType::Log.label_chars()
            &&& l2.subrange(0, 5) == LogType::Error.label_chars()
            &&& ts1.date() == ts2.date() ==> path_chars(ctx, ts1) == path_chars(ctx, ts2)
        }),
{
    let l1 = line_chars(LogType::Log, ts1, msg);
    let l2 = line_chars(LogType::Error, ts2, msg);
    let grown = content + l1 + l2;
    lemma_line_is_one_line(LogType::Log, ts1, msg);
    lemma_line_is_one_line(LogType::Error, ts2, msg);
    lemma_newline_count_concat(content, l1);
    lemma_newline_count_concat(content + l1, l2);
    assert(grown.subrange(0, content.len() as int) =~= content);
    assert(grown.subrange(content.len() as int, content.len() + l1.len() as int) =~= l1);
    assert(grown.subrange(content.len() + l1.len() as int, grown.len() as int) =~= l2);
    if ts1.date() == ts2.date() {
        lemma_same_day_same_file(ctx, ts1, ts2);
    }
}

proof fn lemma_concat_split(x: Seq<char>, c: Seq<char>, y: Seq<char>, e: Seq<char>)
    requires
        x + c == y + e,
        x.len() == y.len(),
    ensures
        x == y,
        c == e,
{
    assert((x + c).len() == (y + e).len());
    assert forall|i: int| 0 <= i < x.len() implies x[i] == y[i] by {
        assert((x + c)[i] == x[i]);
        assert((y + e)[i] == y[i]);
    }
    assert((x + c).len() == x.len() + c.len());
    assert((y + e).len() == y.len() + e.len());
    assert(c.len() == e.len());
    assert forall|i: int| 0 <= i < c.len() implies c[i] == e[i] by {
        assert((x + c)[x.len() + i] == c[i]);
        assert((y + e)[y.len() + i] == e[i]);
    }
    assert(x =~= y);
    assert(c =~= e);
}

proof fn lemma_year_chars_injective(y1: int, y2: int)
    requires
        year_chars(y1) == year_chars(y2),
    ensures
        y1 == y2,
{
    crate::digits::lemma_padded_props(if y1 >= 0 {
        y1 as nat
    } else {
        (-y1) as nat
    }, 4);
    crate::digits::lemma_padded_props(if y2 >= 0 {
        y2 as nat
    } else {
        (-y2) as nat
    }, 4);
    if y1 >= 0 && y2 >= 0 {
        crate::digits::lemma_padded_injective(y1 as nat, y2 as nat, 4);
    } else if y1 < 0 && y2 < 0 {
        let t1 = padded((-y1) as nat, 4);
        let t2 = padded((-y2) as nat, 4);
        assert((seq!['-'] + t1).subrange(1, (seq!['-'] + t1).len() as int) =~= t1);
        assert((seq!['-'] + t2).subrange(1, (seq!['-'] + t2).len() as int) =~= t2);
        crate::digits::lemma_padded_injective((-y1) as nat, (-y2) as nat, 4);
    } else if y1 >= 0 {
        // year_chars(y1) starts with a digit, year_chars(y2) with '-'.
        assert(is_digit(year_chars(y1)[0]));
        assert(year_chars(y2)[0] == '-');
    } else {
        assert(is_digit(year_chars(y2)[0]));
        assert(year_chars(y1)[0] == '-');
    }
}

/// Crossing a day boundary switches to a fresh file: the new date names a
/// different path, and writing there neither creates, removes nor rewrites
/// anything under the old day's path.
pub proof fn lemma_new_day_new_file(
    ctx: LogContext,
    ts1: Timestamp,
    ts2: Timestamp,
    files: Map<Seq<char>, Seq<char>>,
    content: Seq<char>,
)
    requires
        ts1.wf(),
        ts2.wf(),
        ts1.date() != ts2.date(),
    ensures
        path_chars(ctx, ts1) != path_chars(ctx, ts2),
        files.insert(path_chars(ctx, ts2), content).dom().contains(path_chars(ctx, ts1))
            == files.dom().contains(path_chars(ctx, ts1)),
        files.dom().contains(path_chars(ctx, ts1)) ==> files.insert(
            path_chars(ctx, ts2),
            content,
        )[path_chars(ctx, ts1)] == files[path_chars(ctx, ts1)],
{
    let p1 = path_chars(ctx, ts1);
    let p2 = path_chars(ctx, ts2);
    let yc1 = year_chars(ts1.year as int);
    let yc2 = year_chars(ts2.year as int);
    let m1 = padded(ts1.month as nat, 2);
    let m2 = padded(ts2.month as nat, 2);
    let d1 = padded(ts1.day as nat, 2);
    let d2 = padded(ts2.day as nat, 2);
    crate::digits::lemma_pow10_small();
    crate::digits::lemma_padded_props(ts1.month as nat, 2);
    crate::digits::lemma_padded_props(ts2.month as nat, 2);
    crate::digits::lemma_padded_props(ts1.day as nat, 2);
    crate::digits::lemma_padded_props(ts2.day as nat, 2);
    assert(m1.len() == 2 && m2.len() == 2 && d1.len() == 2 && d2.len() == 2);
    if p1 == p2 {
        let lead = ctx.log_dir@ + seq!['/'];
        let f1 = crate::context::file_name_chars(ctx, ts1);
        let f2 = crate::context::file_name_chars(ctx, ts2);
        lemma_concat_split(lead, f1, lead, f2);
        let head = ctx.log_name@ + seq!['.'];
        let s1 = short_date_chars(ts1);
        let s2 = short_date_chars(ts2);
        assert(s1.len() == s2.len());
        lemma_concat_split(head + s1, seq!['.', 'l', 'o', 'g'], head + s2, seq!['.', 'l', 'o', 'g']);
        lemma_concat_split(head, s1, head, s2);
        assert(yc1.len() == yc2.len());
        lemma_concat_split(yc1 + m1, d1, yc2 + m2, d2);
        lemma_concat_split(yc1, m1, yc2, m2);
        lemma_year_chars_injective(ts1.year as int, ts2.year as int);
        crate::digits::lemma_padded_injective(ts1.month as nat, ts2.month as nat, 2);
        crate::digits::lemma_padded_injective(ts1.day as nat, ts2.day as nat, 2);
        assert(ts1.date() == ts2.date());
        assert(false);
    }
}

/// Every character in `s[lo..hi]` is a decimal digit.
pub open spec fn digits_at(s: Seq<char>, lo: int, hi: int) -> bool {
    forall|i: int| lo <= i < hi ==> is_digit(#[trigger] s[i])
}

/// The number denoted by the digits `s[lo..hi]`.
pub open spec fn field_val(s: Seq<char>, lo: int, hi: int) -> nat {
    crate::digits::seq_val(s.subrange(lo, hi))
}

/// `s[p..p + 6]` is the UTC offset suffix `+00:00`.
pub open spec fn utc_offset_at(s: Seq<char>, p: int) -> bool {
    &&& s[p] == '+'
    &&& s[p + 1] == '0'
    &&& s[p + 2] == '0'
    &&& s[p + 3] == ':'
    &&& s[p + 4] == '0'
    &&& s[p + 5] == '0'
}

/// `s` has the shape of an offset-aware RFC 3339 date-time in UTC with a
/// four-digit year: `YYYY-MM-DDTHH:MM:SS+00:00`, optionally with a dot and
/// nine fractional digits before the offset.
pub open spec fn rfc3339_shape(s: Seq<char>) -> bool {
    &&& (s.len() == 25 || s.len() == 35)
    &&& digits_at(s, 0, 4)
    &&& s[4] == '-'
    &&& digits_at(s, 5, 7)
    &&& s[7] == '-'
    &&& digits_at(s, 8, 10)
    &&& s[10] == 'T'
    &&& digits_at(s, 11, 13)
    &&& s[13] == ':'
    &&& digits_at(s, 14, 16)
    &&& s[16] == ':'
    &&& digits_at(s, 17, 19)
    &&& if s.len() == 25 {
        utc_offset_at(s, 19)
    } else {
        s[19] == '.' && digits_at(s, 20, 29) && utc_offset_at(s, 29)
    }
}

/// Reads an offset-aware UTC date-time back out of its text: `None` unless
/// the shape is right and the fields form a plausible instant.
pub open spec fn parse_rfc3339(s: Seq<char>) -> Option<Timestamp> {
    if rfc3339_shape(s) {
        let ts = Timestamp {
            year: field_val(s, 0, 4) as i32,
            month: field_val(s, 5, 7) as u32,
            day: field_val(s, 8, 10) as u32,
            hour: field_val(s, 11, 13) as u32,
            minute: field_val(s, 14, 16) as u32,
            second: field_val(s, 17, 19) as u32,
            nanosecond: if s.len() == 35 {
                field_val(s, 20, 29) as u32
            } else {
                0
            },
        };
        if ts.wf() {
            Some(ts)
        } else {
            None
        }
    } else {
        None
    }
}

proof fn lemma_digits_between(s: Seq<char>, lo: int, hi: int)
    requires
        0 <= lo <= hi <= s.len(),
        all_digits(s.subrange(lo, hi)),
    ensures
        digits_at(s, lo, hi),
{
    assert forall|i: int| lo <= i < hi implies is_digit(#[trigger] s[i]) by {
        assert(s.subrange(lo, hi)[i - lo] == s[i]);
    }
}

/// The timestamp written into each line parses back, as an offset-aware UTC
/// date-time, to the very instant that was rendered.  (Leap seconds render as
/// second number 60 and are left aside, as are years past 9999, whose
/// rendering has more than four year digits.)
pub proof fn lemma_timestamp_round_trip(ts: Timestamp)
    requires
        ts.wf(),
        0 <= ts.year <= 9999,
        ts.nanosecond < 1_000_000_000,
    ensures
        parse_rfc3339(rfc3339_chars(ts)) == Some(ts),
{
    let s = rfc3339_chars(ts);
    let yc = year_chars(ts.year as int);
    let m2 = padded(ts.month as nat, 2);
    let d2 = padded(ts.day as nat, 2);
    let h2 = padded(ts.hour as nat, 2);
    let mi2 = padded(ts.minute as nat, 2);
    let sec2 = padded(crate::timestamp::shown_second(ts), 2);
    let frac = fraction_chars(ts);
    crate::digits::lemma_pow10_small();
    crate::digits::lemma_padded_props(ts.year as nat, 4);
    crate::digits::lemma_padded_props(ts.month as nat, 2);
    crate::digits::lemma_padded_props(ts.day as nat, 2);
    crate::digits::lemma_padded_props(ts.hour as nat, 2);
    crate::digits::lemma_padded_props(ts.minute as nat, 2);
    crate::digits::lemma_padded_props(crate::timestamp::shown_second(ts), 2);
    crate::digits::lemma_padded_props(ts.nanosecond as nat, 9);
    assert(crate::timestamp::shown_second(ts) == ts.second as nat);
    assert(yc == padded(ts.year as nat, 4));
    assert(yc.len() == 4 && m2.len() == 2 && d2.len() == 2 && h2.len() == 2 && mi2.len() == 2
        && sec2.len() == 2);
    if ts.nanosecond == 0 {
        assert(frac =~= Seq::<char>::empty());
        assert(s.len() == 25);
    } else {
        assert(frac =~= seq!['.'] + padded(ts.nanosecond as nat, 9));
        assert(frac.len() == 10);
        assert(s.len() == 35);
    }
    assert(s.subrange(0, 4) =~= yc);
    assert(s[4] == '-');
    assert(s.subrange(5, 7) =~= m2);
    assert(s[7] == '-');
    assert(s.subrange(8, 10) =~= d2);
    assert(s[10] == 'T');
    assert(s.subrange(11, 13) =~= h2);
    assert(s[13] == ':');
    assert(s.subrange(14, 16) =~= mi2);
    assert(s[16] == ':');
    assert(s.subrange(17, 19) =~= sec2);
    lemma_digits_between(s, 0, 4);
    lemma_digits_between(s, 5, 7);
    lemma_digits_between(s, 8, 10);
    lemma_digits_between(s, 11, 13);
    lemma_digits_between(s, 14, 16);
    lemma_digits_between(s, 17, 19);
    if ts.nanosecond == 0 {
        assert(utc_offset_at(s, 19));
    } else {
        assert(s[19] == '.');
        assert(s.subrange(20, 29) =~= padded(ts.nanosecond as nat, 9));
        lemma_digits_between(s, 20, 29);
        assert(utc_offset_at(s, 29));
    }
    assert(rfc3339_shape(s));
    assert(field_val(s, 0, 4) == ts.year as nat);
    assert(field_val(s, 5, 7) == ts.month as nat);
    assert(field_val(s, 8, 10) == ts.day as nat);
    assert(field_val(s, 11, 13) == ts.hour as nat);
    assert(field_val(s, 14, 16) == ts.minute as nat);
    assert(field_val(s, 17, 19) == ts.second as nat);
    if ts.nanosecond != 0 {
        assert(field_val(s, 20, 29) == ts.nanosecond as nat);
    }
    assert(parse_rfc3339(s) == Some(ts));
}

/// All calls of one calendar day target one and the same file, whatever the
/// time of day: the path depends on the date alone.
pub proof fn lemma_same_day_same_file(ctx: LogContext, ts1: Timestamp, ts2: Timestamp)
    requires
        ts1.date() == ts2.date(),
    ensures
        path_chars(ctx, ts1) == path_chars(ctx, ts2),
{
    assert(short_date_chars(ts1) == short_date_chars(ts2));
}

} // verus!
