//! Numbers and durations written out as text.

use vstd::prelude::*;
use vstd::string::StringExecFns;

verus! {

/// The character of a decimal digit.
pub open spec fn digit_char(d: int) -> char {
    if d == 0 {
        '0'
    } else if d == 1 {
        '1'
    } else if d == 2 {
        '2'
    } else if d == 3 {
        '3'
    } else if d == 4 {
        '4'
    } else if d == 5 {
        '5'
    } else if d == 6 {
        '6'
    } else if d == 7 {
        '7'
    } else if d == 8 {
        '8'
    } else {
        '9'
    }
}

/// A number in decimal, without leading zeros.
pub open spec fn decimal(n: nat) -> Seq<char>
    decreases n,
{
    if n < 10 {
        seq![digit_char(n as int)]
    } else {
        decimal(n / 10).push(digit_char((n % 10) as int))
    }
}

/// A number in decimal, in two digits at least.
pub open spec fn two_digits(n: nat) -> Seq<char> {
    if n < 10 {
        seq!['0', digit_char(n as int)]
    } else {
        decimal(n)
    }
}

/// A duration of whole seconds as `H:MM:SS`, or as `M:SS` where it is less
/// than an hour.
pub open spec fn duration_text(total_seconds: nat) -> Seq<char> {
    let hours = total_seconds / 3600;
    let minutes = (total_seconds % 3600) / 60;
    let seconds = total_seconds % 60;
    if hours > 0 {
        decimal(hours) + seq![':'] + two_digits(minutes) + seq![':'] + two_digits(seconds)
    } else {
        decimal(minutes) + seq![':'] + two_digits(seconds)
    }
}

/// Two numbers with a sign between them, as in `640x480` and `4:3`.
pub open spec fn pair_text(left: nat, sign: char, right: nat) -> Seq<char> {
    decimal(left) + seq![sign] + decimal(right)
}

/// The text of one decimal digit.
fn digit_str(d: u64) -> (s: &'static str)
    requires
        d < 10,
    ensures
        s@ == seq![digit_char(d as int)],
{
    proof {
        reveal_strlit("0");
        reveal_strlit("1");
        reveal_strlit("2");
        reveal_strlit("3");
        reveal_strlit("4");
        reveal_strlit("5");
        reveal_strlit("6");
        reveal_strlit("7");
        reveal_strlit("8");
        reveal_strlit("9");
    }
    let s: &'static str = if d == 0 {
        "0"
    } else if d == 1 {
        "1"
    } else if d == 2 {
        "2"
    } else if d == 3 {
        "3"
    } else if d == 4 {
        "4"
    } else if d == 5 {
        "5"
    } else if d == 6 {
        "6"
    } else if d == 7 {
        "7"
    } else if d == 8 {
        "8"
    } else {
        "9"
    };
    assert(s@ =~= seq![digit_char(d as int)]);
    s
}

/// Writes `n` in decimal behind what `out` holds.
pub fn push_decimal(out: &mut String, n: u64)
    ensures
        final(out)@ == old(out)@ + decimal(n as nat),
    decreases n,
{
    if n >= 10 {
        push_decimal(out, n / 10);
    }
    out.append(digit_str(n % 10));
    assert(final(out)@ =~= old(out)@ + decimal(n as nat));
}

/// Writes `n` in decimal, in two digits at least, behind what `out` holds.
pub fn push_two_digits(out: &mut String, n: u64)
    ensures
        final(out)@ == old(out)@ + two_digits(n as nat),
{
    if n < 10 {
        out.append(digit_str(0));
    }
    push_decimal(out, n);
    assert(final(out)@ =~= old(out)@ + two_digits(n as nat));
}

/// `n` in decimal.
pub fn decimal_string(n: u64) -> (text: String)
    ensures
        text@ == decimal(n as nat),
{
    let mut text = String::new();
    push_decimal(&mut text, n);
    assert(text@ =~= decimal(n as nat));
    text
}

/// A duration of whole seconds as `H:MM:SS`, or as `M:SS` where it is less
/// than an hour.
pub fn format_duration(total_seconds: u64) -> (text: String)
    ensures
        text@ == duration_text(total_seconds as nat),
{
    let hours: u64 = total_seconds / 3600;
    let minutes: u64 = (total_seconds % 3600) / 60;
    let seconds: u64 = total_seconds % 60;
    proof {
        reveal_strlit(":");
    }
    let mut text = String::new();
    if hours > 0 {
        push_decimal(&mut text, hours);
        text.append(":");
    }
    if hours > 0 {
        push_two_digits(&mut text, minutes);
    } else {
        push_decimal(&mut text, minutes);
    }
    text.append(":");
    push_two_digits(&mut text, seconds);
    assert(text@ =~= duration_text(total_seconds as nat));
    text
}

/// Two numbers with a sign between them, where `sign` holds the one
/// character.
fn format_pair(left: u64, sign: &str, right: u64) -> (text: String)
    requires
        sign@.len() == 1,
    ensures
        text@ == pair_text(left as nat, sign@[0], right as nat),
{
    let mut text = String::new();
    push_decimal(&mut text, left);
    text.append(sign);
    push_decimal(&mut text, right);
    assert(text@ =~= pair_text(left as nat, sign@[0], right as nat));
    text
}

/// A size in pixels, as in `640x480`.
pub fn format_dimensions(width: u32, height: u32) -> (text: String)
    ensures
        text@ == pair_text(width as nat, 'x', height as nat),
{
    proof {
        reveal_strlit("x");
    }
    format_pair(width as u64, "x", height as u64)
}

/// A ratio, as in `4:3`.
pub fn format_ratio(numerator: u32, denominator: u32) -> (text: String)
    ensures
        text@ == pair_text(numerator as nat, ':', denominator as nat),
{
    proof {
        reveal_strlit(":");
    }
    format_pair(numerator as u64, ":", denominator as u64)
}

} // verus!
