//! Order of rendered timestamps.
//!
//! The timestamp text is built so that later instants compare later in plain
//! lexicographic order by code point.  The law here makes that exact: within
//! four-digit years, rendering is monotone, so lines written at non-decreasing
//! clock readings carry non-decreasing timestamp texts.

use vstd::prelude::*;

use crate::digits::{all_digits, char_val, is_digit, padded, pow10, seq_val};
use crate::timestamp::{rfc3339_chars, shown_second, year_chars, Timestamp};

verus! {

/// `a` is no later than `b` in lexicographic order by code point, with a
/// proper prefix ordered before its extensions.
pub open spec fn lex_le(a: Seq<char>, b: Seq<char>) -> bool
    decreases a.len(),
{
    if a.len() == 0 {
        true
    } else if b.len() == 0 {
        false
    } else if (a[0] as int) < (b[0] as int) {
        true
    } else if (a[0] as int) > (b[0] as int) {
        false
    } else {
        lex_le(a.drop_first(), b.drop_first())
    }
}

/// `a` reads as an instant no later than `b`: the calendar fields compare as
/// a tuple, with the second number taken as rendered (a leap second counts as
/// second 60) and the sub-second fraction last.
pub open spec fn chrono_le(a: Timestamp, b: Timestamp) -> bool {
    if a.year != b.year {
        a.year < b.year
    } else if a.month != b.month {
        a.month < b.month
    } else if a.day != b.day {
        a.day < b.day
    } else if a.hour != b.hour {
        a.hour < b.hour
    } else if a.minute != b.minute {
        a.minute < b.minute
    } else if shown_second(a) != shown_second(b) {
        shown_second(a) < shown_second(b)
    } else {
        a.nanosecond % 1_000_000_000 <= b.nanosecond % 1_000_000_000
    }
}

proof fn lemma_digit_order(c1: char, c2: char)
    requires
        is_digit(c1),
        is_digit(c2),
    ensures
        ((c1 as int) < (c2 as int)) <==> (char_val(c1) < char_val(c2)),
        (c1 == c2) <==> (char_val(c1) == char_val(c2)),
{
}

proof fn lemma_seq_val_front(s: Seq<char>)
    requires
        s.len() >= 1,
    ensures
        seq_val(s) == char_val(s[0]) * pow10((s.len() - 1) as nat) + seq_val(s.drop_first()),
    decreases s.len(),
{
    if s.len() == 1 {
        assert(s.drop_last() =~= Seq::<char>::empty());
        assert(s.drop_first() =~= Seq::<char>::empty());
        assert(seq_val(Seq::<char>::empty()) == 0);
        assert(seq_val(s) == char_val(s.last()));
        assert(s.last() == s[0]);
        assert(pow10(0) == 1);
    } else {
        let t = s.drop_last();
        lemma_seq_val_front(t);
        assert(s[0] == t[0]);
        assert(s.drop_first() =~= t.drop_first().push(s.last()));
        assert(seq_val(s.drop_first()) == 10 * seq_val(t.drop_first()) + char_val(s.last())) by {
            assert(s.drop_first().drop_last() =~= t.drop_first());
            assert(s.drop_first().last() == s.last());
        }
        assert(pow10((s.len() - 1) as nat) == 10 * pow10((t.len() - 1) as nat));
        assert(seq_val(s) == 10 * seq_val(t) + char_val(s.last()));
        assert(10 * (char_val(t[0]) * pow10((t.len() - 1) as nat)) == char_val(s[0]) * pow10(
            (s.len() - 1) as nat,
        )) by (nonlinear_arith)
            requires
                s[0] == t[0],
                pow10((s.len() - 1) as nat) == 10 * pow10((t.len() - 1) as nat),
        ;
    }
}

proof fn lemma_seq_val_bound(s: Seq<char>)
    requires
        all_digits(s),
    ensures
        seq_val(s) < pow10(s.len()),
    decreases s.len(),
{
    if s.len() == 0 {
    } else {
        assert(all_digits(s.drop_last()));
        lemma_seq_val_bound(s.drop_last());
        assert(is_digit(s.last()));
        assert(char_val(s.last()) <= 9);
        assert(pow10(s.len()) == 10 * pow10((s.len() - 1) as nat));
    }
}

proof fn lemma_lex_refl(s: Seq<char>)
    ensures
        lex_le(s, s),
    decreases s.len(),
{
    if s.len() > 0 {
        lemma_lex_refl(s.drop_first());
    }
}

proof fn lemma_lex_prefix(p: Seq<char>, c: Seq<char>, e: Seq<char>)
    requires
        lex_le(c, e),
    ensures
        lex_le(p + c, p + e),
    decreases p.len(),
{
    if p.len() == 0 {
        assert(p + c =~= c);
        assert(p + e =~= e);
    } else {
        assert((p + c)[0] == p[0]);
        assert((p + e)[0] == p[0]);
        assert((p + c).drop_first() =~= p.drop_first() + c);
        assert((p + e).drop_first() =~= p.drop_first() + e);
        lemma_lex_prefix(p.drop_first(), c, e);
    }
}

proof fn lemma_lex_first_diff(x: Seq<char>, y: Seq<char>, c: Seq<char>, e: Seq<char>)
    requires
        x.len() == y.len(),
        all_digits(x),
        all_digits(y),
        seq_val(x) < seq_val(y),
    ensures
        lex_le(x + c, y + e),
    decreases x.len(),
{
    assert(x.len() >= 1);
    lemma_seq_val_front(x);
    lemma_seq_val_front(y);
    assert(all_digits(x.drop_first()));
    assert(all_digits(y.drop_first()));
    lemma_seq_val_bound(x.drop_first());
    lemma_seq_val_bound(y.drop_first());
    lemma_digit_order(x[0], y[0]);
    let v1 = char_val(x[0]);
    let v2 = char_val(y[0]);
    let p = pow10((x.len() - 1) as nat);
    assert((x + c)[0] == x[0]);
    assert((y + e)[0] == y[0]);
    if v1 < v2 {
        assert((x[0] as int) < (y[0] as int));
    } else if v1 == v2 {
        assert(x[0] == y[0]);
        assert(seq_val(x.drop_first()) < seq_val(y.drop_first()));
        assert((x + c).drop_first() =~= x.drop_first() + c);
        assert((y + e).drop_first() =~= y.drop_first() + e);
        lemma_lex_first_diff(x.drop_first(), y.drop_first(), c, e);
    } else {
        assert((v2 + 1) * p <= v1 * p) by (nonlinear_arith)
            requires
                v2 + 1 <= v1,
                p >= 0,
        ;
        assert((v2 + 1) * p == v2 * p + p) by (nonlinear_arith);
        assert(seq_val(y) < v2 * p + p);
        assert(false);
    }
}

/// Rendering preserves time order: of two instants with four-digit years, the
/// earlier one's timestamp text is no later in lexicographic order.  So, as
/// far as the clock reads non-decreasing instants across sequential calls,
/// the timestamps embedded in the written lines are non-decreasing too.
#[verifier::rlimit(50)]
#[verifier::spinoff_prover]
pub proof fn lemma_rendering_monotone(ts1: Timestamp, ts2: Timestamp)
    requires
        ts1.wf(),
        ts2.wf(),
        0 <= ts1.year <= 9999,
        0 <= ts2.year <= 9999,
        chrono_le(ts1, ts2),
    ensures
        lex_le(rfc3339_chars(ts1), rfc3339_chars(ts2)),
{
    let s1 = rfc3339_chars(ts1);
    let s2 = rfc3339_chars(ts2);
    crate::digits::lemma_pow10_small();
    crate::digits::lemma_padded_props(ts1.year as nat, 4);
    crate::digits::lemma_padded_props(ts2.year as nat, 4);
    crate::digits::lemma_padded_props(ts1.month as nat, 2);
    crate::digits::lemma_padded_props(ts2.month as nat, 2);
    crate::digits::lemma_padded_props(ts1.day as nat, 2);
    crate::digits::lemma_padded_props(ts2.day as nat, 2);
    crate::digits::lemma_padded_props(ts1.hour as nat, 2);
    crate::digits::lemma_padded_props(ts2.hour as nat, 2);
    crate::digits::lemma_padded_props(ts1.minute as nat, 2);
    crate::digits::lemma_padded_props(ts2.minute as nat, 2);
    crate::digits::lemma_padded_props(shown_second(ts1), 2);
    crate::digits::lemma_padded_props(shown_second(ts2), 2);
    crate::digits::lemma_padded_props((ts1.nanosecond % 1_000_000_000) as nat, 9);
    crate::digits::lemma_padded_props((ts2.nanosecond % 1_000_000_000) as nat, 9);
    assert(year_chars(ts1.year as int) == padded(ts1.year as nat, 4));
    assert(year_chars(ts2.year as int) == padded(ts2.year as nat, 4));
    assert(shown_second(ts1) < 100 && shown_second(ts2) < 100);
    let len1 = s1.len() as int;
    let len2 = s2.len() as int;
    assert(len1 == if ts1.nanosecond % 1_000_000_000 == 0 {
        25int
    } else {
        35int
    });
    assert(len2 == if ts2.nanosecond % 1_000_000_000 == 0 {
        25int
    } else {
        35int
    });
    if ts1.year != ts2.year {
        assert(s1.subrange(0, 4) =~= padded(ts1.year as nat, 4));
        assert(s2.subrange(0, 4) =~= padded(ts2.year as nat, 4));
        assert(s1 =~= s1.subrange(0, 4) + s1.subrange(4, len1));
        assert(s2 =~= s2.subrange(0, 4) + s2.subrange(4, len2));
        lemma_lex_first_diff(
            s1.subrange(0, 4),
            s2.subrange(0, 4),
            s1.subrange(4, len1),
            s2.subrange(4, len2),
        );
    } else if ts1.month != ts2.month {
        assert(s1.subrange(5, 7) =~= padded(ts1.month as nat, 2));
        assert(s2.subrange(5, 7) =~= padded(ts2.month as nat, 2));
        assert(s1.subrange(0, 5) =~= s2.subrange(0, 5));
        lemma_field_diff(ts1, ts2, 5, 2, ts1.month as nat, ts2.month as nat);
    } else if ts1.day != ts2.day {
        assert(s1.subrange(8, 10) =~= padded(ts1.day as nat, 2));
        assert(s2.subrange(8, 10) =~= padded(ts2.day as nat, 2));
        assert(s1.subrange(0, 8) =~= s2.subrange(0, 8));
        lemma_field_diff(ts1, ts2, 8, 2, ts1.day as nat, ts2.day as nat);
    } else if ts1.hour != ts2.hour {
        assert(s1.subrange(11, 13) =~= padded(ts1.hour as nat, 2));
        assert(s2.subrange(11, 13) =~= padded(ts2.hour as nat, 2));
        assert(s1.subrange(0, 11) =~= s2.subrange(0, 11));
        lemma_field_diff(ts1, ts2, 11, 2, ts1.hour as nat, ts2.hour as nat);
    } else if ts1.minute != ts2.minute {
        assert(s1.subrange(14, 16) =~= padded(ts1.minute as nat, 2));
        assert(s2.subrange(14, 16) =~= padded(ts2.minute as nat, 2));
        assert(s1.subrange(0, 14) =~= s2.subrange(0, 14));
        lemma_field_diff(ts1, ts2, 14, 2, ts1.minute as nat, ts2.minute as nat);
    } else if shown_second(ts1) != shown_second(ts2) {
        assert(s1.subrange(17, 19) =~= padded(shown_second(ts1), 2));
        assert(s2.subrange(17, 19) =~= padded(shown_second(ts2), 2));
        assert(s1.subrange(0, 17) =~= s2.subrange(0, 17));
        lemma_field_diff(ts1, ts2, 17, 2, shown_second(ts1), shown_second(ts2));
    } else {
        let f1 = (ts1.nanosecond % 1_000_000_000) as nat;
        let f2 = (ts2.nanosecond % 1_000_000_000) as nat;
        if f1 == f2 {
            assert(s1 =~= s2);
            lemma_lex_refl(s1);
        } else if f1 == 0 {
            assert(s1.subrange(0, 19) =~= s2.subrange(0, 19));
            assert(s1 =~= s1.subrange(0, 19) + s1.subrange(19, len1));
            assert(s2 =~= s2.subrange(0, 19) + s2.subrange(19, len2));
            assert(s1.subrange(19, len1)[0] == '+');
            assert(s2.subrange(19, len2)[0] == '.');
            assert(lex_le(s1.subrange(19, len1), s2.subrange(19, len2)));
            lemma_lex_prefix(s1.subrange(0, 19), s1.subrange(19, len1), s2.subrange(19, len2));
        } else {
            assert(f2 != 0);
            assert(s1.subrange(0, 20) =~= s2.subrange(0, 20));
            assert(s1.subrange(20, 29) =~= padded(f1, 9));
            assert(s2.subrange(20, 29) =~= padded(f2, 9));
            assert(s1 =~= s1.subrange(0, 20) + (s1.subrange(20, 29) + s1.subrange(29, len1)));
            assert(s2 =~= s2.subrange(0, 20) + (s2.subrange(20, 29) + s2.subrange(29, len2)));
            lemma_lex_first_diff(
                s1.subrange(20, 29),
                s2.subrange(20, 29),
                s1.subrange(29, len1),
                s2.subrange(29, len2),
            );
            lemma_lex_prefix(
                s1.subrange(0, 20),
                s1.subrange(20, 29) + s1.subrange(29, len1),
                s2.subrange(20, 29) + s2.subrange(29, len2),
            );
        }
    }
}

#[verifier::rlimit(50)]
#[verifier::spinoff_prover]
proof fn lemma_field_diff(ts1: Timestamp, ts2: Timestamp, at: int, width: int, v1: nat, v2: nat)
    requires
        0 < width,
        v1 < v2,
        field_chars_at(ts1, at, width, v1),
        field_chars_at(ts2, at, width, v2),
        prefixes_agree(ts1, ts2, at),
    ensures
        lex_le(rfc3339_chars(ts1), rfc3339_chars(ts2)),
{
    let s1 = rfc3339_chars(ts1);
    let s2 = rfc3339_chars(ts2);
    let len1 = s1.len() as int;
    let len2 = s2.len() as int;
    crate::digits::lemma_pow10_small();
    crate::digits::lemma_padded_props(v1, width as nat);
    crate::digits::lemma_padded_props(v2, width as nat);
    assert(s1 =~= s1.subrange(0, at) + (s1.subrange(at, at + width) + s1.subrange(
        at + width,
        len1,
    )));
    assert(s2 =~= s2.subrange(0, at) + (s2.subrange(at, at + width) + s2.subrange(
        at + width,
        len2,
    )));
    lemma_lex_first_diff(
        s1.subrange(at, at + width),
        s2.subrange(at, at + width),
        s1.subrange(at + width, len1),
        s2.subrange(at + width, len2),
    );
    lemma_lex_prefix(
        s1.subrange(0, at),
        s1.subrange(at, at + width) + s1.subrange(at + width, len1),
        s2.subrange(at, at + width) + s2.subrange(at + width, len2),
    );
}

/// The characters of `rfc3339_chars(ts)` at `at .. at + width` are the zero
/// padding of `v` to `width` digits.
spec fn field_chars_at(ts: Timestamp, at: int, width: int, v: nat) -> bool {
    &&& 0 <= at
    &&& at + width <= rfc3339_chars(ts).len()
    &&& rfc3339_chars(ts).subrange(at, at + width) == padded(v, width as nat)
}

/// The two renderings agree on their first `at` characters.
spec fn prefixes_agree(ts1: Timestamp, ts2: Timestamp, at: int) -> bool {
    &&& at <= rfc3339_chars(ts1).len()
    &&& at <= rfc3339_chars(ts2).len()
    &&& rfc3339_chars(ts1).subrange(0, at) == rfc3339_chars(ts2).subrange(0, at)
}

} // verus!
