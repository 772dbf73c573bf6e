//! Colours: three random bytes, written in hexadecimal.

use crate::rng::draw_u8;
use vstd::prelude::*;

verus! {

/// A colour: its red, green and blue parts.
#[derive(Debug, Clone, Copy, PartialEq, Eq, Structural)]
pub struct Rgb {
    pub r: u8,
    pub g: u8,
    pub b: u8,
}

/// The hexadecimal digit of a number below sixteen: capital letters where
/// `upper` holds.
pub open spec fn hex_digit(n: u8, upper: bool) -> char {
    if n < 10 {
        (n + 48) as char
    } else if upper {
        (n + 55) as char
    } else {
        (n + 87) as char
    }
}

/// The two hexadecimal digits of a byte.
pub open spec fn hex_byte(b: u8, upper: bool) -> Seq<char> {
    seq![hex_digit(b / 16, upper), hex_digit(b % 16, upper)]
}

/// A colour as it is written: six hexadecimal digits in capital letters.
pub open spec fn color_text(c: Rgb) -> Seq<char> {
    hex_byte(c.r, true) + hex_byte(c.g, true) + hex_byte(c.b, true)
}

fn hex_of(n: u8, upper: bool) -> (c: char)
    requires
        n < 16,
    ensures
        c == hex_digit(n, upper),
{
    if n < 10 {
        (n + 48) as char
    } else if upper {
        (n + 55) as char
    } else {
        (n + 87) as char
    }
}

/// Appends the two hexadecimal digits of a byte.
pub fn push_hex(out: &mut Vec<char>, b: u8, upper: bool)
    ensures
        final(out)@ == old(out)@ + hex_byte(b, upper),
{
    out.push(hex_of(b / 16, upper));
    out.push(hex_of(b % 16, upper));
}

/// The colour that three draws make.
pub fn color_of(r: u8, g: u8, b: u8) -> (c: Rgb)
    ensures
        c == (Rgb { r, g, b }),
{
    Rgb { r, g, b }
}

/// A random colour: one draw of a byte for red, one for green, one for blue.
pub fn gen_color(rng: &mut rand_pcg::Pcg64) -> (c: Rgb) {
    let r = draw_u8(rng);
    let g = draw_u8(rng);
    let b = draw_u8(rng);
    color_of(r, g, b)
}

impl Rgb {
    /// Appends the colour as it is written.
    pub fn push_text(&self, out: &mut Vec<char>)
        ensures
            final(out)@ == old(out)@ + color_text(*self),
    {
        push_hex(out, self.r, true);
        push_hex(out, self.g, true);
        push_hex(out, self.b, true);
    }
}

} // verus!
