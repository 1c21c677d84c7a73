//! The text of a symbol in colour.

use crate::color::Rgb;
use vstd::prelude::*;

verus! {

/// The digit for a number below ten.
pub open spec fn digit(d: u8) -> char {
    seq!['0', '1', '2', '3', '4', '5', '6', '7', '8', '9'][d as int]
}

/// A channel value in decimal digits, without leading zeros.
pub open spec fn decimal(n: u8) -> Seq<char> {
    if n < 10 {
        seq![digit(n)]
    } else if n < 100 {
        seq![digit(n / 10), digit(n % 10)]
    } else {
        seq![digit(n / 100), digit((n / 10) % 10), digit(n % 10)]
    }
}

/// The symbol between the escape sequence that sets the foreground to the
/// colour and the one that resets the foreground.
pub open spec fn foreground(symbol: char, color: Rgb) -> Seq<char> {
    seq!['\u{1b}', '[', '3', '8', ';', '2', ';'] + decimal(color.r) + seq![';'] + decimal(color.g)
        + seq![';'] + decimal(color.b) + seq!['m', symbol, '\u{1b}', '[', '3', '9', 'm']
}

/// Whether `text` can be the text of the symbol in the colour: the symbol
/// between the two escape sequences, or nothing at all.
pub open spec fn shows_in_color(text: Seq<char>, symbol: char, color: Rgb) -> bool {
    text == foreground(symbol, color) || text == Seq::<char>::empty()
}

/// The symbol as `crossterm` styles it with the colour as foreground:
/// `crossterm::style::style` on the symbol, `Stylize::with` for the colour,
/// and the outcome formatted.
///
/// The text is one of two. Where escape sequences are understood it is the
/// sequence that sets the foreground colour, with the three channel values
/// in decimal, then the symbol, then the sequence that resets the
/// foreground. On a Windows console that does not take them `crossterm`
/// writes nothing. Which of the two it is depends on the machine, and
/// nothing is said of it.
#[verifier::external_body]
pub(crate) fn styled_text(symbol: char, color: Rgb) -> (text: String)
    ensures
        shows_in_color(text@, symbol, color),
{
    let paint = crossterm::style::Color::from((color.r, color.g, color.b));
    let styled = crossterm::style::Stylize::with(crossterm::style::style(symbol.to_string()), paint);
    format!("{}", styled)
}

} // verus!
