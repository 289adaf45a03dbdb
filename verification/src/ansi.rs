//! The escape sequences that `termion` writes for a color and for a
//! cursor position, as text.
//!
//! Nothing in this file is proved: each function states what the call it
//! makes returns.

use crate::state::Color;
use vstd::prelude::*;

verus! {

/// The decimal digit for `d`, a number below ten.
pub open spec fn digit(d: nat) -> char {
    ((48 + d) as u8) as char
}

/// The decimal numeral of `n`, without leading zeros.
pub open spec fn decimal(n: nat) -> Seq<char>
    decreases n,
{
    if n < 10 {
        seq![digit(n)]
    } else {
        decimal(n / 10).push(digit(n % 10))
    }
}

/// The three channels of a color as `termion` writes them: decimal
/// numerals with a semicolon between them.
pub open spec fn channels(color: Color) -> Seq<char> {
    decimal(color.r as nat) + seq![';'] + decimal(color.g as nat) + seq![';'] + decimal(
        color.b as nat,
    )
}

/// The sequence that selects `color` as the foreground.
pub open spec fn foreground_text(color: Color) -> Seq<char> {
    "\x1b[38;2;"@ + channels(color) + seq!['m']
}

/// The sequence that selects `color` as the background.
pub open spec fn background_text(color: Color) -> Seq<char> {
    "\x1b[48;2;"@ + channels(color) + seq!['m']
}

/// The sequence that moves the terminal's cursor to the first column of
/// the line `line`, counted from one.
pub open spec fn goto_text(line: nat) -> Seq<char> {
    "\x1b["@ + decimal(line) + seq![';', '1', 'H']
}

/// `termion::color::Rgb::fg_string`: the escape, `38;2;`, the three
/// channels in decimal with semicolons between, and `m`.
#[verifier::external_body]
pub(crate) fn foreground(color: Color) -> (text: String)
    ensures
        text@ == foreground_text(color),
{
    termion::color::Rgb(color.r, color.g, color.b).fg_string()
}

/// `termion::color::Rgb::bg_string`: the escape, `48;2;`, the three
/// channels in decimal with semicolons between, and `m`.
#[verifier::external_body]
pub(crate) fn background(color: Color) -> (text: String)
    ensures
        text@ == background_text(color),
{
    termion::color::Rgb(color.r, color.g, color.b).bg_string()
}

/// `Display` of `termion::cursor::Goto(1, line)`: the escape, the line in
/// decimal, a semicolon, the column 1, and `H`.
#[verifier::external_body]
pub(crate) fn goto_line(line: u16) -> (text: String)
    ensures
        text@ == goto_text(line as nat),
{
    format!("{}", termion::cursor::Goto(1, line))
}

/// `String::push`: the character comes at the end.
#[verifier::external_body]
pub(crate) fn push_char(text: &mut String, c: char)
    ensures
        final(text)@ == old(text)@.push(c),
{
    text.push(c)
}

} // verus!
