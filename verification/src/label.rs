//! Line numbers: the decimal prefix in front of an output line.

use vstd::prelude::*;
use vstd::string::*;

verus! {

/// The character for a single decimal digit.
pub open spec fn digit_char(d: int) -> char {
    if d == 0 {
        '0'
    } else if d == 1 {
        '1'
    } else if d == 2 {
        '2'
    } else if d == 3 {
        '3'
    } else if d == 4 {
        '4'
    } else if d == 5 {
        '5'
    } else if d == 6 {
        '6'
    } else if d == 7 {
        '7'
    } else if d == 8 {
        '8'
    } else {
        '9'
    }
}

/// The decimal numeral of `n`, without leading zeros.
pub open spec fn decimal(n: nat) -> Seq<char>
    decreases n,
{
    if n < 10 {
        seq![digit_char(n as int)]
    } else {
        decimal(n / 10) + seq![digit_char((n % 10) as int)]
    }
}

/// The text in front of the line with the 0-based index `index`: its
/// 1-based number, a colon and a space.
pub open spec fn number_prefix(index: int) -> Seq<char> {
    decimal((index + 1) as nat) + ": "@
}

/// An output line with its number in front of it, if numbers are shown.
pub open spec fn labelled(line_numbers: bool, index: int, body: Seq<char>) -> Seq<char> {
    if line_numbers {
        number_prefix(index) + body
    } else {
        body
    }
}

/// The numeral of a single digit.
fn digit_text(d: u128) -> (text: &'static str)
    requires
        d < 10,
    ensures
        text@ == seq![digit_char(d as int)],
{
    proof {
        reveal_strlit("0");
        reveal_strlit("1");
        reveal_strlit("2");
        reveal_strlit("3");
        reveal_strlit("4");
        reveal_strlit("5");
        reveal_strlit("6");
        reveal_strlit("7");
        reveal_strlit("8");
        reveal_strlit("9");
    }
    let text = if d == 0 {
        "0"
    } else if d == 1 {
        "1"
    } else if d == 2 {
        "2"
    } else if d == 3 {
        "3"
    } else if d == 4 {
        "4"
    } else if d == 5 {
        "5"
    } else if d == 6 {
        "6"
    } else if d == 7 {
        "7"
    } else if d == 8 {
        "8"
    } else {
        "9"
    };
    assert(text@ =~= seq![digit_char(d as int)]);
    text
}

/// Writes `n` as a decimal numeral.
pub fn decimal_text(n: u128) -> (out: String)
    ensures
        out@ == decimal(n as nat),
    decreases n,
{
    if n < 10 {
        digit_text(n).to_owned()
    } else {
        let mut out = decimal_text(n / 10);
        out.append(digit_text(n % 10));
        out
    }
}

/// Puts the 1-based number of the line with index `index` in front of
/// `body`, if line numbers are shown; else hands `body` back as it is.
pub fn label(line_numbers: bool, index: usize, body: String) -> (out: String)
    ensures
        out@ == labelled(line_numbers, index as int, body@),
{
    if line_numbers {
        let mut out = decimal_text(index as u128 + 1);
        out.append(": ");
        out.append(body.as_str());
        out
    } else {
        body
    }
}

} // verus!
