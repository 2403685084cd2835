//! Decimal notation for small integers, as messages show them.

use vstd::prelude::*;

verus! {

/// The character of one decimal digit.
pub open spec fn digit(d: int) -> char
    recommends
        0 <= d < 10,
{
    (48 + d) as char
}

/// The digits of a natural number, most significant first, without leading
/// zeros.
pub open spec fn digits(n: nat) -> Seq<char>
    decreases n,
{
    if n < 10 {
        seq![digit(n as int)]
    } else {
        digits(n / 10).push(digit((n % 10) as int))
    }
}

/// An integer in decimal notation, with a minus sign when it is negative.
pub open spec fn decimal(n: int) -> Seq<char> {
    if n < 0 {
        seq!['-'] + digits((-n) as nat)
    } else {
        digits(n as nat)
    }
}

fn digit_char(d: u8) -> (c: char)
    requires
        d < 10,
    ensures
        c == digit(d as int),
{
    (d + 48) as char
}

/// Writes `value` in decimal notation.
pub fn decimal_string(value: i8) -> (text: String)
    ensures
        text@ == decimal(value as int),
{
    let wide: i16 = value as i16;
    let magnitude: u8 = if wide < 0 {
        (-wide) as u8
    } else {
        wide as u8
    };
    let mut text = String::new();
    if value < 0 {
        text.push('-');
    }
    if magnitude >= 100 {
        text.push(digit_char(magnitude / 100));
    }
    if magnitude >= 10 {
        text.push(digit_char((magnitude / 10) % 10));
    }
    text.push(digit_char(magnitude % 10));
    proof {
        reveal_with_fuel(digits, 3);
    }
    text
}

} // verus!
