//! Terminal text for one glyph: a 24-bit foreground colour sequence, the
//! glyph, and a reset sequence.

use crate::palette::Colour;
use vstd::prelude::*;

verus! {

/// `String::push` of the standard library: the character is appended to the
/// end of the string and nothing else changes. Taken on trust from its
/// documentation.
pub assume_specification[ String::push ](text: &mut String, ch: char)
    ensures
        final(text)@ == old(text)@.push(ch),
;

/// The character that writes the decimal digit `d`.
pub open spec fn digit_char(d: nat) -> char
    recommends
        d < 10,
{
    if d == 0 {
        '0'
    } else if d == 1 {
        '1'
    } else if d == 2 {
        '2'
    } else if d == 3 {
        '3'
    } else if d == 4 {
        '4'
    } else if d == 5 {
        '5'
    } else if d == 6 {
        '6'
    } else if d == 7 {
        '7'
    } else if d == 8 {
        '8'
    } else {
        '9'
    }
}

/// The decimal numeral of `n`: most significant digit first, no leading
/// zeros, and the single digit `0` for zero.
pub open spec fn decimal(n: nat) -> Seq<char>
    decreases n,
{
    if n < 10 {
        seq![digit_char(n)]
    } else {
        decimal(n / 10).push(digit_char(n % 10))
    }
}

/// The sequence that selects `colour` as the foreground colour:
/// `ESC [ 38 ; 2 ; r ; g ; b m`, the channels written in decimal.
pub open spec fn foreground_text(colour: Colour) -> Seq<char> {
    seq!['\x1b', '[', '3', '8', ';', '2', ';'] + decimal(colour.r as nat) + seq![';'] + decimal(
        colour.g as nat,
    ) + seq![';'] + decimal(colour.b as nat) + seq!['m']
}

/// The sequence that resets all formatting: `ESC [ 0 m`.
pub open spec fn reset_text() -> Seq<char> {
    seq!['\x1b', '[', '0', 'm']
}

/// The text of one coloured glyph: colour selection, the glyph, reset.
pub open spec fn glyph_text(rune: char, colour: Colour) -> Seq<char> {
    foreground_text(colour).push(rune) + reset_text()
}

/// The character of one decimal digit.
fn digit(d: u8) -> (ch: char)
    requires
        d < 10,
    ensures
        ch == digit_char(d as nat),
{
    match d {
        0 => '0',
        1 => '1',
        2 => '2',
        3 => '3',
        4 => '4',
        5 => '5',
        6 => '6',
        7 => '7',
        8 => '8',
        _ => '9',
    }
}

/// Appends the decimal numeral of `n` to `text`.
pub fn push_decimal(text: &mut String, n: u8)
    ensures
        final(text)@ == old(text)@ + decimal(n as nat),
{
    proof {
        reveal_with_fuel(decimal, 3);
    }
    if n >= 100 {
        text.push(digit(n / 100));
    }
    if n >= 10 {
        text.push(digit((n / 10) % 10));
    }
    text.push(digit(n % 10));
    assert(text@ =~= old(text)@ + decimal(n as nat));
}

/// Wraps `rune` in the escape sequences that draw it in `shade` and then
/// reset the terminal's formatting.
pub fn colour(rune: char, shade: Colour) -> (text: String)
    ensures
        text@ == glyph_text(rune, shade),
{
    let mut text = String::new();
    text.push('\x1b');
    text.push('[');
    text.push('3');
    text.push('8');
    text.push(';');
    text.push('2');
    text.push(';');
    push_decimal(&mut text, shade.r);
    text.push(';');
    push_decimal(&mut text, shade.g);
    text.push(';');
    push_decimal(&mut text, shade.b);
    text.push('m');
    assert(text@ =~= foreground_text(shade));
    text.push(rune);
    text.push('\x1b');
    text.push('[');
    text.push('0');
    text.push('m');
    assert(text@ =~= glyph_text(rune, shade));
    text
}

/// A decimal numeral is never empty and holds nothing but the ten digits.
pub proof fn lemma_decimal_is_digits(n: nat)
    ensures
        decimal(n).len() >= 1,
        forall|i: int| 0 <= i < decimal(n).len() ==> '0' <= #[trigger] decimal(n)[i] <= '9',
    decreases n,
{
    if n >= 10 {
        lemma_decimal_is_digits(n / 10);
    }
}

} // verus!
