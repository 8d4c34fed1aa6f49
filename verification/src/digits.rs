//! Decimal rendering of unsigned values, with zero padding.

use vstd::prelude::*;
use vstd::string::StringExecFns;

verus! {

/// The character for a single decimal digit.
pub open spec fn digit_char(d: int) -> char {
    if d == 0 {
        '0'
    } else if d == 1 {
        '1'
    } else if d == 2 {
        '2'
    } else if d == 3 {
        '3'
    } else if d == 4 {
        '4'
    } else if d == 5 {
        '5'
    } else if d == 6 {
        '6'
    } else if d == 7 {
        '7'
    } else if d == 8 {
        '8'
    } else {
        '9'
    }
}

/// The decimal digits of `n`, most significant first, with no leading zeros
/// (except that zero itself is the single digit `0`).
pub open spec fn dec_digits(n: nat) -> Seq<char>
    decreases n,
{
    if n < 10 {
        seq![digit_char(n as int)]
    } else {
        dec_digits(n / 10).push(digit_char((n % 10) as int))
    }
}

/// `dec_digits(n)`, left-padded with `'0'` up to `width` characters.
pub open spec fn padded(n: nat, width: nat) -> Seq<char> {
    if dec_digits(n).len() >= width {
        dec_digits(n)
    } else {
        zeros((width - dec_digits(n).len()) as nat) + dec_digits(n)
    }
}

/// `c` is one of the ten decimal digit characters.
pub open spec fn is_digit(c: char) -> bool {
    c == '0' || c == '1' || c == '2' || c == '3' || c == '4' || c == '5' || c == '6' || c == '7'
        || c == '8' || c == '9'
}

/// Every character of `s` is a decimal digit.
pub open spec fn all_digits(s: Seq<char>) -> bool {
    forall|i: int| 0 <= i < s.len() ==> is_digit(#[trigger] s[i])
}

/// The numeric value of a digit character (`10` for anything else).
pub open spec fn char_val(c: char) -> nat {
    if c == '0' {
        0
    } else if c == '1' {
        1
    } else if c == '2' {
        2
    } else if c == '3' {
        3
    } else if c == '4' {
        4
    } else if c == '5' {
        5
    } else if c == '6' {
        6
    } else if c == '7' {
        7
    } else if c == '8' {
        8
    } else if c == '9' {
        9
    } else {
        10
    }
}

/// The number a sequence of digit characters denotes, read in base ten.
pub open spec fn seq_val(s: Seq<char>) -> nat
    decreases s.len(),
{
    if s.len() == 0 {
        0
    } else {
        10 * seq_val(s.drop_last()) + char_val(s.last())
    }
}

/// `10^k`.
pub open spec fn pow10(k: nat) -> nat
    decreases k,
{
    if k == 0 {
        1
    } else {
        10 * pow10((k - 1) as nat)
    }
}

/// The handful of powers of ten that the renderers pad to.
pub proof fn lemma_pow10_small()
    ensures
        pow10(0) == 1,
        pow10(1) == 10,
        pow10(2) == 100,
        pow10(4) == 10000,
        pow10(9) == 1_000_000_000,
{
    reveal_with_fuel(pow10, 10);
}

/// The digits of `n` denote `n`, are all digit characters, and there is at
/// least one of them.
pub proof fn lemma_dec_digits_val(n: nat)
    ensures
        seq_val(dec_digits(n)) == n,
        all_digits(dec_digits(n)),
        dec_digits(n).len() >= 1,
    decreases n,
{
    if n < 10 {
        let s = dec_digits(n);
        assert(s =~= seq![digit_char(n as int)]);
        assert(s.len() == 1);
        assert(s.last() == digit_char(n as int));
        assert(s.drop_last() =~= Seq::<char>::empty());
        assert(seq_val(Seq::<char>::empty()) == 0);
        assert(seq_val(s) == 10 * seq_val(s.drop_last()) + char_val(s.last()));
        assert(char_val(digit_char(n as int)) == n);
    } else {
        lemma_dec_digits_val(n / 10);
        let s = dec_digits(n);
        assert(s.drop_last() =~= dec_digits(n / 10));
        assert(char_val(digit_char((n % 10) as int)) == n % 10);
        assert(seq_val(s) == 10 * (n / 10) + n % 10);
    }
}

/// `n < 10^k` takes at most `k` digits.
pub proof fn lemma_dec_digits_len(n: nat, k: nat)
    requires
        n < pow10(k),
        k >= 1,
    ensures
        dec_digits(n).len() <= k,
    decreases k,
{
    if n < 10 {
    } else {
        assert(pow10(k) == 10 * pow10((k - 1) as nat));
        lemma_dec_digits_len(n / 10, (k - 1) as nat);
    }
}

/// A run of `'0'` characters.
pub open spec fn zeros(k: nat) -> Seq<char> {
    Seq::new(k, |i: int| '0')
}

proof fn lemma_seq_val_zeros(k: nat)
    ensures
        seq_val(zeros(k)) == 0,
    decreases k,
{
    if k > 0 {
        assert(zeros(k).drop_last() =~= zeros((k - 1) as nat));
        lemma_seq_val_zeros((k - 1) as nat);
    }
}

proof fn lemma_seq_val_zeros_prefix(k: nat, s: Seq<char>)
    ensures
        seq_val(zeros(k) + s) == seq_val(s),
    decreases s.len(),
{
    if s.len() == 0 {
        assert(zeros(k) + s =~= zeros(k));
        lemma_seq_val_zeros(k);
    } else {
        assert((zeros(k) + s).drop_last() =~= zeros(k) + s.drop_last());
        assert((zeros(k) + s).last() == s.last());
        lemma_seq_val_zeros_prefix(k, s.drop_last());
    }
}

/// Zero padding changes neither the denoted value nor digit-ness, and pads
/// exactly to `width` when the value fits.
pub proof fn lemma_padded_props(n: nat, width: nat)
    ensures
        seq_val(padded(n, width)) == n,
        all_digits(padded(n, width)),
        padded(n, width).len() >= 1,
        padded(n, width).len() >= width,
        width >= 1 && n < pow10(width) ==> padded(n, width).len() == width,
{
    lemma_dec_digits_val(n);
    let d = dec_digits(n);
    if d.len() < width {
        assert(padded(n, width) =~= zeros((width - d.len()) as nat) + d);
        lemma_seq_val_zeros_prefix((width - d.len()) as nat, d);
    }
    if width >= 1 && n < pow10(width) {
        lemma_dec_digits_len(n, width);
    }
}

/// Two values that pad to the same digits are the same value.
pub proof fn lemma_padded_injective(a: nat, b: nat, width: nat)
    requires
        padded(a, width) == padded(b, width),
    ensures
        a == b,
{
    lemma_padded_props(a, width);
    lemma_padded_props(b, width);
}

fn digit_str(d: u64) -> (s: &'static str)
    requires
        d < 10,
    ensures
        s@ =~= seq![digit_char(d as int)],
{
    proof {
        reveal_strlit("0");
        reveal_strlit("1");
        reveal_strlit("2");
        reveal_strlit("3");
        reveal_strlit("4");
        reveal_strlit("5");
        reveal_strlit("6");
        reveal_strlit("7");
        reveal_strlit("8");
        reveal_strlit("9");
    }
    match d {
        0 => "0",
        1 => "1",
        2 => "2",
        3 => "3",
        4 => "4",
        5 => "5",
        6 => "6",
        7 => "7",
        8 => "8",
        _ => "9",
    }
}

proof fn lemma_padded_unfold(n: nat, width: nat)
    ensures
        n >= 10 || width > 1 ==> padded(n, width) =~= padded(
            n / 10,
            if width > 0 {
                (width - 1) as nat
            } else {
                0
            },
        ).push(digit_char((n % 10) as int)),
        n < 10 && width <= 1 ==> padded(n, width) =~= seq![digit_char(n as int)],
{
    if n < 10 && width > 1 {
        assert(dec_digits(n / 10) =~= seq![digit_char(0)]);
    }
}

/// Appends the decimal rendering of `n`, zero-padded to `width` characters,
/// to `out`.
pub fn push_padded(n: u64, width: u64, out: &mut String)
    ensures
        final(out)@ == old(out)@ + padded(n as nat, width as nat),
    decreases n + width,
{
    proof {
        lemma_padded_unfold(n as nat, width as nat);
    }
    if n >= 10 || width > 1 {
        let rest: u64 = if width > 0 {
            width - 1
        } else {
            0
        };
        push_padded(n / 10, rest, out);
        out.append(digit_str(n % 10));
    } else {
        out.append(digit_str(n));
    }
}

} // verus!
