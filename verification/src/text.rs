//! Decimal rendering of numbers and the `m:ss / m:ss` playback clock.

use vstd::prelude::*;

verus! {

/// The character of decimal digit `d`.
pub open spec fn digit_char(d: nat) -> char {
    (48 + d) as char
}

/// Decimal rendering of `n`, without leading zeros.
pub open spec fn decimal(n: nat) -> Seq<char>
    decreases n,
{
    if n < 10 {
        seq![digit_char(n)]
    } else {
        decimal(n / 10).push(digit_char(n % 10))
    }
}

/// Decimal rendering of `n`, padded with a leading zero to at least two
/// characters.
pub open spec fn two_digits(n: nat) -> Seq<char> {
    if n < 10 {
        seq!['0', digit_char(n)]
    } else {
        decimal(n)
    }
}

/// `minutes:seconds`, the seconds padded to two digits.
pub open spec fn clock_text(minutes: nat, seconds: nat) -> Seq<char> {
    decimal(minutes) + seq![':'] + two_digits(seconds)
}

/// `current / total` for two clock readings, each given as minutes and
/// seconds.
pub open spec fn clock_pair_text(cm: nat, cs: nat, tm: nat, ts: nat) -> Seq<char> {
    clock_text(cm, cs) + seq![' ', '/', ' '] + clock_text(tm, ts)
}

/// The one-character string of decimal digit `d`.
fn digit_str(d: u32) -> (r: &'static str)
    requires
        d < 10,
    ensures
        r@ == seq![digit_char(d as nat)],
{
    proof {
        reveal_strlit("0");
        reveal_strlit("1");
        reveal_strlit("2");
        reveal_strlit("3");
        reveal_strlit("4");
        reveal_strlit("5");
        reveal_strlit("6");
        reveal_strlit("7");
        reveal_strlit("8");
        reveal_strlit("9");
    }
    if d == 0 {
        "0"
    } else if d == 1 {
        "1"
    } else if d == 2 {
        "2"
    } else if d == 3 {
        "3"
    } else if d == 4 {
        "4"
    } else if d == 5 {
        "5"
    } else if d == 6 {
        "6"
    } else if d == 7 {
        "7"
    } else if d == 8 {
        "8"
    } else {
        "9"
    }
}

/// Appends `n` in decimal to `s`.
fn push_decimal(s: &mut String, n: u32)
    ensures
        final(s)@ == old(s)@ + decimal(n as nat),
    decreases n,
{
    if n >= 10 {
        push_decimal(s, n / 10);
    }
    s.append(digit_str(n % 10));
    assert(decimal(n as nat) =~= if n < 10 {
        seq![digit_char(n as nat)]
    } else {
        decimal((n / 10) as nat).push(digit_char((n % 10) as nat))
    });
}

/// Appends `minutes:seconds` to `s`, the seconds padded to two digits.
fn push_clock(s: &mut String, minutes: u32, seconds: u32)
    ensures
        final(s)@ == old(s)@ + clock_text(minutes as nat, seconds as nat),
{
    proof {
        reveal_strlit(":");
        reveal_strlit("0");
    }
    push_decimal(s, minutes);
    s.append(":");
    if seconds < 10 {
        s.append("0");
    }
    push_decimal(s, seconds);
    assert(seconds < 10 ==> decimal(seconds as nat) =~= seq![digit_char(seconds as nat)]);
    assert(s@ =~= old(s)@ + clock_text(minutes as nat, seconds as nat));
}

/// `current / total` for two clock readings, as `clock_pair_text` spells it.
pub fn format_clock_pair(cm: u32, cs: u32, tm: u32, ts: u32) -> (r: String)
    ensures
        r@ == clock_pair_text(cm as nat, cs as nat, tm as nat, ts as nat),
{
    proof {
        reveal_strlit(" / ");
    }
    let mut s = String::new();
    push_clock(&mut s, cm, cs);
    s.append(" / ");
    push_clock(&mut s, tm, ts);
    assert(s@ =~= clock_pair_text(cm as nat, cs as nat, tm as nat, ts as nat));
    s
}

} // verus!
