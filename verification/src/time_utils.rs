//! Uptime formatting: splitting a second count into days/hours/minutes/seconds
//! and rendering it as the header text `"<d> day(s), HH:MM:SS"`.

use vstd::arithmetic::div_mod::{lemma_div_decreases, lemma_mod_mod};
use vstd::prelude::*;
use vstd::string::StringExecFns;

verus! {

/// The character for a single decimal digit.
pub open spec fn digit_char(d: nat) -> char {
    if d == 0 {
        '0'
    } else if d == 1 {
        '1'
    } else if d == 2 {
        '2'
    } else if d == 3 {
        '3'
    } else if d == 4 {
        '4'
    } else if d == 5 {
        '5'
    } else if d == 6 {
        '6'
    } else if d == 7 {
        '7'
    } else if d == 8 {
        '8'
    } else {
        '9'
    }
}

/// The decimal representation of `n`, most significant digit first,
/// without leading zeros (a lone `0` for zero itself).
pub open spec fn dec_str(n: nat) -> Seq<char>
    decreases n,
{
    if n < 10 {
        seq![digit_char(n)]
    } else {
        dec_str(n / 10).push(digit_char(n % 10))
    }
}

/// Decimal representation padded on the left to at least two digits.
pub open spec fn pad2(n: nat) -> Seq<char> {
    if n < 10 {
        seq!['0', digit_char(n)]
    } else {
        dec_str(n)
    }
}

/// The full uptime line: days spelled out with the right plural,
/// then `HH:MM:SS`.
pub open spec fn uptime_text(seconds: u64) -> Seq<char> {
    let n = seconds as nat;
    dec_str(n / 86400) + (if n / 86400 == 1 {
        " day, "@
    } else {
        " days, "@
    }) + pad2(n % 86400 / 3600) + ":"@ + pad2(n % 3600 / 60) + ":"@ + pad2(n % 60)
}

/// Splits a second count into whole days, hours, minutes and seconds.
pub fn seconds_to_days(seconds: u64) -> (r: (u64, u64, u64, u64))
    ensures
        r.0 == seconds as nat / 86400,
        r.1 == seconds as nat % 86400 / 3600,
        r.2 == seconds as nat % 3600 / 60,
        r.3 == seconds as nat % 60,
{
    let days: u64 = seconds / 86400;
    let mut rem: u64 = seconds % 86400;

    let hours: u64 = rem / 3600;
    rem = rem % 3600;

    let minutes = rem / 60;
    let secs = rem % 60;

    proof {
        lemma_mod_mod(seconds as int, 3600, 24);
        lemma_mod_mod(seconds as int, 60, 60);
    }
    (days, hours, minutes, secs)
}

/// Appends the character for one decimal digit.
fn push_digit(s: &mut String, d: u64)
    requires
        d < 10,
    ensures
        final(s)@ == old(s)@.push(digit_char(d as nat)),
{
    let c: &str = match d {
        0 => "0",
        1 => "1",
        2 => "2",
        3 => "3",
        4 => "4",
        5 => "5",
        6 => "6",
        7 => "7",
        8 => "8",
        _ => "9",
    };
    proof {
        reveal_strlit("0");
        reveal_strlit("1");
        reveal_strlit("2");
        reveal_strlit("3");
        reveal_strlit("4");
        reveal_strlit("5");
        reveal_strlit("6");
        reveal_strlit("7");
        reveal_strlit("8");
        reveal_strlit("9");
        assert(c@ =~= seq![digit_char(d as nat)]);
    }
    s.append(c);
    proof {
        assert(old(s)@ + seq![digit_char(d as nat)] =~= old(s)@.push(digit_char(d as nat)));
    }
}

/// Appends the decimal representation of `n`.
fn push_dec(s: &mut String, n: u64)
    ensures
        final(s)@ == old(s)@ + dec_str(n as nat),
    decreases n,
{
    if n >= 10 {
        proof {
            lemma_div_decreases(n as int, 10);
        }
        push_dec(s, n / 10);
        push_digit(s, n % 10);
        proof {
            assert(old(s)@ + dec_str((n / 10) as nat) + seq![digit_char((n % 10) as nat)] =~= old(
                s,
            )@ + dec_str(n as nat));
        }
    } else {
        push_digit(s, n);
        proof {
            assert(old(s)@.push(digit_char(n as nat)) =~= old(s)@ + dec_str(n as nat));
        }
    }
}

/// Appends the decimal representation of `n`, zero-padded to two digits.
fn push_pad2(s: &mut String, n: u64)
    ensures
        final(s)@ == old(s)@ + pad2(n as nat),
{
    if n < 10 {
        s.append("0");
        push_digit(s, n);
        proof {
            reveal_strlit("0");
            assert(old(s)@ + "0"@ + seq![digit_char(n as nat)] =~= old(s)@ + pad2(n as nat));
        }
    } else {
        push_dec(s, n);
    }
}

/// Renders an uptime, in seconds, as `"<d> day(s), HH:MM:SS"`.
pub fn format_time(seconds: u64) -> (r: String)
    ensures
        r@ == uptime_text(seconds),
{
    let (d, h, m, s) = seconds_to_days(seconds);

    let mut out = String::new();
    push_dec(&mut out, d);
    if d == 1 {
        out.append(" day, ");
    } else {
        out.append(" days, ");
    }
    push_pad2(&mut out, h);
    out.append(":");
    push_pad2(&mut out, m);
    out.append(":");
    push_pad2(&mut out, s);

    proof {
        assert(out@ =~= uptime_text(seconds));
    }
    out
}

} // verus!
