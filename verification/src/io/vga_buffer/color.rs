//! The sixteen VGA text colors and the one-byte color code that packs a
//! foreground and a background: `fg | bg << 4`.

use vstd::prelude::*;

verus! {

#[derive(Debug, Clone, Copy, PartialEq, Eq, Structural)]
pub enum Color {
    Black,
    Blue,
    Green,
    Cyan,
    Red,
    Magenta,
    Brown,
    LightGray,
    DarkGray,
    LightBlue,
    LightGreen,
    LightCyan,
    LightRed,
    Pink,
    Yellow,
    White,
}

/// The hardware number of each color.
pub open spec fn spec_color_number(c: Color) -> int {
    match c {
        Color::Black => 0,
        Color::Blue => 1,
        Color::Green => 2,
        Color::Cyan => 3,
        Color::Red => 4,
        Color::Magenta => 5,
        Color::Brown => 6,
        Color::LightGray => 7,
        Color::DarkGray => 8,
        Color::LightBlue => 9,
        Color::LightGreen => 10,
        Color::LightCyan => 11,
        Color::LightRed => 12,
        Color::Pink => 13,
        Color::Yellow => 14,
        Color::White => 15,
    }
}

impl Color {
    pub fn as_u8(self) -> (r: u8)
        ensures
            r == spec_color_number(self),
            r < 16,
    {
        match self {
            Color::Black => 0,
            Color::Blue => 1,
            Color::Green => 2,
            Color::Cyan => 3,
            Color::Red => 4,
            Color::Magenta => 5,
            Color::Brown => 6,
            Color::LightGray => 7,
            Color::DarkGray => 8,
            Color::LightBlue => 9,
            Color::LightGreen => 10,
            Color::LightCyan => 11,
            Color::LightRed => 12,
            Color::Pink => 13,
            Color::Yellow => 14,
            Color::White => 15,
        }
    }
}

/// A packed attribute byte: the low nibble is the foreground, the high
/// nibble the background.
#[derive(Debug, Clone, Copy, PartialEq, Eq, Structural)]
pub struct ColorCode {
    pub code: u8,
}

impl ColorCode {
    pub fn new(foreground: Color, background: Color) -> (r: ColorCode)
        ensures
            r.code == spec_color_number(background) * 16 + spec_color_number(foreground),
    {
        let fg = foreground.as_u8();
        let bg = background.as_u8();
        let code = (bg << 4u8) | fg;
        proof {
            lemma_pack_nibbles(bg, fg);
        }
        ColorCode { code }
    }
}

/// Packing two nibbles by shift-and-or is plain arithmetic.
proof fn lemma_pack_nibbles(b: u8, f: u8)
    by (bit_vector)
    requires
        b < 16,
        f < 16,
    ensures
        ((b << 4u8) | f) == b * 16 + f,
{
}

} // verus!
