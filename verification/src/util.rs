//! Decimal rendering and small formatting helpers.

use vstd::prelude::*;

verus! {

/// The character of one decimal digit.
pub open spec fn digit_char(d: nat) -> char {
    if d == 0 {
        '0'
    } else if d == 1 {
        '1'
    } else if d == 2 {
        '2'
    } else if d == 3 {
        '3'
    } else if d == 4 {
        '4'
    } else if d == 5 {
        '5'
    } else if d == 6 {
        '6'
    } else if d == 7 {
        '7'
    } else if d == 8 {
        '8'
    } else {
        '9'
    }
}

/// The decimal rendering of a number, most significant digit first and
/// without leading zeroes.
pub open spec fn dec_of(n: nat) -> Seq<char>
    decreases n,
{
    if n < 10 {
        seq![digit_char(n)]
    } else {
        dec_of(n / 10) + seq![digit_char(n % 10)]
    }
}

/// The one-character text of a decimal digit.
fn digit_str(d: u64) -> (s: String)
    requires
        d < 10,
    ensures
        s@ == seq![digit_char(d as nat)],
{
    let s: &str = if d == 0 {
        "0"
    } else if d == 1 {
        "1"
    } else if d == 2 {
        "2"
    } else if d == 3 {
        "3"
    } else if d == 4 {
        "4"
    } else if d == 5 {
        "5"
    } else if d == 6 {
        "6"
    } else if d == 7 {
        "7"
    } else if d == 8 {
        "8"
    } else {
        "9"
    };
    proof {
        reveal_strlit("0");
        reveal_strlit("1");
        reveal_strlit("2");
        reveal_strlit("3");
        reveal_strlit("4");
        reveal_strlit("5");
        reveal_strlit("6");
        reveal_strlit("7");
        reveal_strlit("8");
        reveal_strlit("9");
        assert(s@ =~= seq![digit_char(d as nat)]);
    }
    s.to_owned()
}

/// Renders a number in decimal.
pub fn u64_to_string(x: u64) -> (s: String)
    ensures
        s@ == dec_of(x as nat),
    decreases x,
{
    if x < 10 {
        digit_str(x)
    } else {
        let mut s = u64_to_string(x / 10);
        let d = digit_str(x % 10);
        s.append(d.as_str());
        s
    }
}

/// The readable text of a duration given in seconds: hours, minutes and
/// seconds, leaving out the leading parts that are zero.
pub open spec fn duration_text(seconds: nat) -> Seq<char> {
    let h = seconds / 3600;
    let m = (seconds % 3600) / 60;
    let s = seconds % 60;
    if h > 0 {
        dec_of(h) + ("h ")@ + dec_of(m) + ("m ")@ + dec_of(s) + ("s")@
    } else if m > 0 {
        dec_of(m) + ("m ")@ + dec_of(s) + ("s")@
    } else {
        dec_of(s) + ("s")@
    }
}

/// Formats a duration in seconds as readable text, such as `1h 2m 3s`.
pub fn format_duration(seconds: u64) -> (r: String)
    ensures
        r@ == duration_text(seconds as nat),
{
    let hours = seconds / 3600;
    let minutes = (seconds % 3600) / 60;
    let secs = seconds % 60;
    if hours > 0 {
        let mut out = u64_to_string(hours);
        out.append("h ");
        let m = u64_to_string(minutes);
        out.append(m.as_str());
        out.append("m ");
        let s = u64_to_string(secs);
        out.append(s.as_str());
        out.append("s");
        out
    } else if minutes > 0 {
        let mut out = u64_to_string(minutes);
        out.append("m ");
        let s = u64_to_string(secs);
        out.append(s.as_str());
        out.append("s");
        out
    } else {
        let mut out = u64_to_string(secs);
        out.append("s");
        out
    }
}

} // verus!
