//! Rendering of durations as `MM:SS` or `H:MM:SS`.
use vstd::prelude::*;
use vstd::arithmetic::div_mod::lemma_div_denominator;
use vstd::string::StringExecFns;

verus! {

/// The character of a decimal digit.
pub open spec fn digit_char(d: nat) -> char {
    if d == 0 {
        '0'
    } else if d == 1 {
        '1'
    } else if d == 2 {
        '2'
    } else if d == 3 {
        '3'
    } else if d == 4 {
        '4'
    } else if d == 5 {
        '5'
    } else if d == 6 {
        '6'
    } else if d == 7 {
        '7'
    } else if d == 8 {
        '8'
    } else {
        '9'
    }
}

/// Decimal digits of `n`, without leading zeros.
pub open spec fn decimal(n: nat) -> Seq<char>
    decreases n,
{
    if n < 10 {
        seq![digit_char(n)]
    } else {
        decimal(n / 10).push(digit_char(n % 10))
    }
}

/// `n` written with exactly two digits (zero-padded); meant for `n < 100`.
pub open spec fn two_digits(n: nat) -> Seq<char> {
    seq![digit_char(n / 10), digit_char(n % 10)]
}

pub open spec fn hours_of(secs: nat) -> nat {
    secs / 3600
}

pub open spec fn minutes_of(secs: nat) -> nat {
    (secs / 60) % 60
}

pub open spec fn seconds_of(secs: nat) -> nat {
    secs % 60
}

/// The display text of a duration of `secs` seconds: `MM:SS` under one
/// hour, `H:MM:SS` from one hour on.
pub open spec fn clock_text(secs: nat) -> Seq<char> {
    if hours_of(secs) == 0 {
        two_digits(minutes_of(secs)) + seq![':'] + two_digits(seconds_of(secs))
    } else {
        decimal(hours_of(secs)) + seq![':'] + two_digits(minutes_of(secs)) + seq![':']
            + two_digits(seconds_of(secs))
    }
}

pub open spec fn is_digit(c: char) -> bool {
    '0' <= c && c <= '9'
}

/// The value of a decimal digit character.
pub open spec fn digit_value(c: char) -> nat {
    (c as u32 - '0' as u32) as nat
}

/// The value of two digit characters read as a number.
pub open spec fn two_digit_value(s: Seq<char>) -> nat {
    10 * digit_value(s[0]) + digit_value(s[1])
}

proof fn lemma_digit_char(d: nat)
    requires
        d < 10,
    ensures
        is_digit(digit_char(d)),
        digit_value(digit_char(d)) == d,
{
}

proof fn lemma_two_digits(n: nat)
    requires
        n < 60,
    ensures
        two_digits(n).len() == 2,
        is_digit(two_digits(n)[0]),
        is_digit(two_digits(n)[1]),
        two_digit_value(two_digits(n)) == n,
        two_digit_value(two_digits(n)) <= 59,
{
    lemma_digit_char(n / 10);
    lemma_digit_char(n % 10);
}

/// Every displayed duration has the `MM:SS` shape below one hour and the
/// `H:MM:SS` shape from one hour on, and the minutes and seconds it shows
/// read back as the duration's own minutes and seconds, both in `0..=59`.
pub proof fn lemma_clock_text_shape(secs: nat)
    ensures
        secs < 3600 ==> {
            let t = clock_text(secs);
            &&& t.len() == 5
            &&& t[2] == ':'
            &&& is_digit(t[0]) && is_digit(t[1]) && is_digit(t[3]) && is_digit(t[4])
            &&& two_digit_value(t.subrange(0, 2)) == minutes_of(secs)
            &&& two_digit_value(t.subrange(3, 5)) == seconds_of(secs)
            &&& minutes_of(secs) <= 59 && seconds_of(secs) <= 59
            &&& minutes_of(secs) * 60 + seconds_of(secs) == secs
        },
        secs >= 3600 ==> {
            let t = clock_text(secs);
            let k = decimal(hours_of(secs)).len() as int;
            &&& t.len() == k + 6
            &&& t.subrange(0, k) == decimal(hours_of(secs))
            &&& hours_of(secs) >= 1
            &&& t[k] == ':'
            &&& t[k + 3] == ':'
            &&& two_digit_value(t.subrange(k + 1, k + 3)) == minutes_of(secs)
            &&& two_digit_value(t.subrange(k + 4, k + 6)) == seconds_of(secs)
            &&& minutes_of(secs) <= 59 && seconds_of(secs) <= 59
            &&& hours_of(secs) * 3600 + minutes_of(secs) * 60 + seconds_of(secs) == secs
        },
{
    let m = minutes_of(secs);
    let s = seconds_of(secs);
    lemma_two_digits(m);
    lemma_two_digits(s);
    let t = clock_text(secs);
    if secs < 3600 {
        assert(hours_of(secs) == 0);
        assert(t.subrange(0, 2) =~= two_digits(m));
        assert(t.subrange(3, 5) =~= two_digits(s));
    } else {
        let d = decimal(hours_of(secs));
        let k = d.len() as int;
        assert(hours_of(secs) >= 1);
        assert(t.subrange(0, k) =~= d);
        assert(t.subrange(k + 1, k + 3) =~= two_digits(m));
        assert(t.subrange(k + 4, k + 6) =~= two_digits(s));
    }
}

fn digit_text(d: u64) -> (r: &'static str)
    requires
        d < 10,
    ensures
        r@ == seq![digit_char(d as nat)],
{
    if d == 0 {
        proof { reveal_strlit("0"); }
        "0"
    } else if d == 1 {
        proof { reveal_strlit("1"); }
        "1"
    } else if d == 2 {
        proof { reveal_strlit("2"); }
        "2"
    } else if d == 3 {
        proof { reveal_strlit("3"); }
        "3"
    } else if d == 4 {
        proof { reveal_strlit("4"); }
        "4"
    } else if d == 5 {
        proof { reveal_strlit("5"); }
        "5"
    } else if d == 6 {
        proof { reveal_strlit("6"); }
        "6"
    } else if d == 7 {
        proof { reveal_strlit("7"); }
        "7"
    } else if d == 8 {
        proof { reveal_strlit("8"); }
        "8"
    } else {
        proof { reveal_strlit("9"); }
        "9"
    }
}

pub(crate) fn push_decimal(out: &mut String, n: u64)
    ensures
        final(out)@ == old(out)@ + decimal(n as nat),
    decreases n,
{
    if n >= 10 {
        push_decimal(out, n / 10);
    }
    out.append(digit_text(n % 10));
    proof {
        assert(old(out)@ + decimal(n as nat) =~= final(out)@);
    }
}

pub(crate) fn push_two_digits(out: &mut String, n: u64)
    requires
        n < 100,
    ensures
        final(out)@ == old(out)@ + two_digits(n as nat),
{
    out.append(digit_text(n / 10));
    out.append(digit_text(n % 10));
    proof {
        assert(old(out)@ + two_digits(n as nat) =~= final(out)@);
    }
}

/// Formats `secs` seconds for display: `MM:SS` when under one hour,
/// otherwise `H:MM:SS`, minutes and seconds zero-padded to two digits.
pub fn to_time(secs: u64) -> (r: String)
    ensures
        r@ == clock_text(secs as nat),
{
    let sec = secs % 60;
    let min = (secs / 60) % 60;
    let hrs = secs / 60 / 60;
    proof {
        lemma_div_denominator(secs as int, 60, 60);
    }
    let mut out = String::new();
    if hrs != 0 {
        push_decimal(&mut out, hrs);
        proof { reveal_strlit(":"); }
        out.append(":");
    }
    push_two_digits(&mut out, min);
    proof { reveal_strlit(":"); }
    out.append(":");
    push_two_digits(&mut out, sec);
    proof {
        assert(out@ =~= clock_text(secs as nat));
    }
    out
}

} // verus!
