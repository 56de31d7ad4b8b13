//! Plain-text rendering of millisecond durations: decimal digits for the
//! whole seconds, then a dot and a fixed number of fractional digits
//! (truncated, never rounded).

use vstd::prelude::*;
use vstd::string::StringExecFns;

verus! {

/// The decimal digit character for a value below ten.
pub open spec fn digit_char(d: nat) -> char {
    if d == 0 {
        '0'
    } else if d == 1 {
        '1'
    } else if d == 2 {
        '2'
    } else if d == 3 {
        '3'
    } else if d == 4 {
        '4'
    } else if d == 5 {
        '5'
    } else if d == 6 {
        '6'
    } else if d == 7 {
        '7'
    } else if d == 8 {
        '8'
    } else {
        '9'
    }
}

/// The decimal digits of `n`, most significant first, no leading zeros
/// except on zero itself.
pub open spec fn dec_chars(n: nat) -> Seq<char>
    decreases n,
{
    if n < 10 {
        seq![digit_char(n)]
    } else {
        dec_chars(n / 10).push(digit_char(n % 10))
    }
}

/// Seconds at one-decimal precision: whole seconds, a dot, and the
/// tenths digit.
pub open spec fn tenths_chars(ms: nat) -> Seq<char> {
    dec_chars(ms / 1000).push('.').push(digit_char((ms / 100) % 10))
}

/// Seconds at three-decimal precision: whole seconds, a dot, and the
/// three millisecond digits.
pub open spec fn millis_chars(ms: nat) -> Seq<char> {
    dec_chars(ms / 1000).push('.').push(digit_char((ms / 100) % 10)).push(
        digit_char((ms / 10) % 10),
    ).push(digit_char(ms % 10))
}

/// Append the single decimal digit `d` to `s`.
fn push_digit(s: &mut String, d: u8)
    requires
        d < 10,
    ensures
        final(s)@ == old(s)@.push(digit_char(d as nat)),
{
    proof {
        reveal_strlit("0");
        reveal_strlit("1");
        reveal_strlit("2");
        reveal_strlit("3");
        reveal_strlit("4");
        reveal_strlit("5");
        reveal_strlit("6");
        reveal_strlit("7");
        reveal_strlit("8");
        reveal_strlit("9");
    }
    match d {
        0 => s.append("0"),
        1 => s.append("1"),
        2 => s.append("2"),
        3 => s.append("3"),
        4 => s.append("4"),
        5 => s.append("5"),
        6 => s.append("6"),
        7 => s.append("7"),
        8 => s.append("8"),
        _ => s.append("9"),
    }
    proof {
        assert(final(s)@ =~= old(s)@.push(digit_char(d as nat)));
    }
}

/// Append the decimal digits of `n` to `s`.
pub fn push_u64(s: &mut String, n: u64)
    ensures
        final(s)@ == old(s)@ + dec_chars(n as nat),
    decreases n,
{
    if n >= 10 {
        push_u64(s, n / 10);
        push_digit(s, (n % 10) as u8);
        proof {
            assert(final(s)@ =~= old(s)@ + dec_chars(n as nat));
        }
    } else {
        push_digit(s, n as u8);
        proof {
            assert(final(s)@ =~= old(s)@ + dec_chars(n as nat));
        }
    }
}

/// Render `ms` milliseconds as seconds at one-decimal precision.
pub fn tenths_text(ms: u64) -> (r: String)
    ensures
        r@ == tenths_chars(ms as nat),
{
    proof {
        reveal_strlit(".");
    }
    let mut s = String::new();
    push_u64(&mut s, ms / 1000);
    s.append(".");
    push_digit(&mut s, ((ms / 100) % 10) as u8);
    proof {
        assert(s@ =~= tenths_chars(ms as nat));
    }
    s
}

/// Render `ms` milliseconds as seconds at three-decimal precision.
pub fn millis_text(ms: u64) -> (r: String)
    ensures
        r@ == millis_chars(ms as nat),
{
    proof {
        reveal_strlit(".");
    }
    let mut s = String::new();
    push_u64(&mut s, ms / 1000);
    s.append(".");
    push_digit(&mut s, ((ms / 100) % 10) as u8);
    push_digit(&mut s, ((ms / 10) % 10) as u8);
    push_digit(&mut s, (ms % 10) as u8);
    proof {
        assert(s@ =~= millis_chars(ms as nat));
    }
    s
}

} // verus!
