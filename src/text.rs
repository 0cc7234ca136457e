//! Building the text that the status display shows: decimal numbers,
//! truncated seconds and terminal colours.
use vstd::prelude::*;

verus! {

/// The character of a decimal digit.
pub open spec fn digit_char(d: int) -> char {
    if d == 0 {
        '0'
    } else if d == 1 {
        '1'
    } else if d == 2 {
        '2'
    } else if d == 3 {
        '3'
    } else if d == 4 {
        '4'
    } else if d == 5 {
        '5'
    } else if d == 6 {
        '6'
    } else if d == 7 {
        '7'
    } else if d == 8 {
        '8'
    } else {
        '9'
    }
}

/// `n` in decimal, without leading zeros.
pub open spec fn decimal(n: nat) -> Seq<char>
    decreases n,
{
    if n < 10 {
        seq![digit_char(n as int)]
    } else {
        decimal(n / 10) + seq![digit_char((n % 10) as int)]
    }
}

/// A count of hundredths of a second written as seconds: the whole part,
/// then a point and the fraction only where the fraction is not zero, with
/// no trailing zero (`123` is `1.23`, `150` is `1.5`, `400` is `4`).
pub open spec fn hundredths_text(h: nat) -> Seq<char> {
    let tenths = (h % 100) / 10;
    let last = h % 10;
    if h % 100 == 0 {
        decimal(h / 100)
    } else if last == 0 {
        decimal(h / 100) + seq!['.', digit_char(tenths as int)]
    } else {
        decimal(h / 100) + seq!['.', digit_char(tenths as int), digit_char(last as int)]
    }
}

/// An RGB colour.
#[derive(Debug, Clone, Copy, PartialEq, Eq)]
pub struct Color(pub u8, pub u8, pub u8);

/// A foreground colour and a background colour.
#[derive(Debug, Clone, Copy, PartialEq, Eq)]
pub struct TerminalColor(pub Color, pub Color);

/// The three components of a colour, separated by `;`.
pub open spec fn rgb_text(c: Color) -> Seq<char> {
    decimal(c.0 as nat) + ";"@ + decimal(c.1 as nat) + ";"@ + decimal(c.2 as nat)
}

/// `text` between the 24-bit terminal escapes that select the given
/// foreground and background, followed by the escape that resets them.
pub open spec fn colored_text(text: Seq<char>, color: TerminalColor) -> Seq<char> {
    "\x1b[38;2;"@ + rgb_text(color.0) + "m\x1b[48;2;"@ + rgb_text(color.1) + "m"@ + text
        + "\x1b[0m"@
}

/// The one-character text of a digit.
fn digit_text(d: u128) -> (r: &'static str)
    requires
        d < 10,
    ensures
        r@ == seq![digit_char(d as int)],
{
    proof {
        reveal_strlit("0");
        reveal_strlit("1");
        reveal_strlit("2");
        reveal_strlit("3");
        reveal_strlit("4");
        reveal_strlit("5");
        reveal_strlit("6");
        reveal_strlit("7");
        reveal_strlit("8");
        reveal_strlit("9");
    }
    if d == 0 {
        "0"
    } else if d == 1 {
        "1"
    } else if d == 2 {
        "2"
    } else if d == 3 {
        "3"
    } else if d == 4 {
        "4"
    } else if d == 5 {
        "5"
    } else if d == 6 {
        "6"
    } else if d == 7 {
        "7"
    } else if d == 8 {
        "8"
    } else {
        "9"
    }
}

/// Appends `n` in decimal to `s`.
pub fn push_decimal(s: &mut String, n: u128)
    ensures
        final(s)@ == old(s)@ + decimal(n as nat),
    decreases n,
{
    if n >= 10 {
        push_decimal(s, n / 10);
    }
    s.append(digit_text(n % 10));
    assert(s@ =~= old(s)@ + decimal(n as nat));
}

/// Appends a count of hundredths of a second, written as seconds.
pub fn push_hundredths(s: &mut String, h: u128)
    ensures
        final(s)@ == old(s)@ + hundredths_text(h as nat),
{
    push_decimal(s, h / 100);
    let fraction = h % 100;
    if fraction != 0 {
        proof {
            reveal_strlit(".");
        }
        s.append(".");
        s.append(digit_text(fraction / 10));
        if h % 10 != 0 {
            s.append(digit_text(h % 10));
        }
    }
    assert(final(s)@ =~= old(s)@ + hundredths_text(h as nat));
}

/// Wraps `string` in the escapes that draw it in the given colours.
pub fn color_terminal(string: &str, color: &TerminalColor) -> (r: String)
    ensures
        r@ == colored_text(string@, *color),
{
    let mut s = String::from_str("\x1b[38;2;");
    push_decimal(&mut s, color.0.0 as u128);
    s.append(";");
    push_decimal(&mut s, color.0.1 as u128);
    s.append(";");
    push_decimal(&mut s, color.0.2 as u128);
    s.append("m\x1b[48;2;");
    push_decimal(&mut s, color.1.0 as u128);
    s.append(";");
    push_decimal(&mut s, color.1.1 as u128);
    s.append(";");
    push_decimal(&mut s, color.1.2 as u128);
    s.append("m");
    s.append(string);
    s.append("\x1b[0m");
    assert(s@ =~= colored_text(string@, *color));
    s
}

} // verus!
