//! The color model of the display: sixteen named colors and the packed
//! foreground/background attribute byte stored beside every glyph.

use vstd::prelude::*;

verus! {

/// One of the sixteen colors the display hardware knows, each with a fixed
/// 4-bit code.
#[derive(Debug, Clone, Copy, PartialEq, Eq)]
pub enum Color {
    Black,
    Blue,
    Green,
    Cyan,
    Red,
    Magenta,
    Brown,
    LightGray,
    DarkGray,
    LightBlue,
    LightGreen,
    LightCyan,
    LightRed,
    Pink,
    Yellow,
    White,
}

impl Color {
    /// The 4-bit code of this color.
    pub open spec fn code_spec(self) -> u8 {
        match self {
            Color::Black => 0,
            Color::Blue => 1,
            Color::Green => 2,
            Color::Cyan => 3,
            Color::Red => 4,
            Color::Magenta => 5,
            Color::Brown => 6,
            Color::LightGray => 7,
            Color::DarkGray => 8,
            Color::LightBlue => 9,
            Color::LightGreen => 10,
            Color::LightCyan => 11,
            Color::LightRed => 12,
            Color::Pink => 13,
            Color::Yellow => 14,
            Color::White => 15,
        }
    }

    /// The 4-bit code of this color, as the hardware stores it.
    #[verifier::when_used_as_spec(code_spec)]
    pub fn code(self) -> (c: u8)
        ensures
            c == self.code_spec(),
    {
        match self {
            Color::Black => 0,
            Color::Blue => 1,
            Color::Green => 2,
            Color::Cyan => 3,
            Color::Red => 4,
            Color::Magenta => 5,
            Color::Brown => 6,
            Color::LightGray => 7,
            Color::DarkGray => 8,
            Color::LightBlue => 9,
            Color::LightGreen => 10,
            Color::LightCyan => 11,
            Color::LightRed => 12,
            Color::Pink => 13,
            Color::Yellow => 14,
            Color::White => 15,
        }
    }

    /// Every color code fits in the low four bits of a byte.
    pub proof fn lemma_code_bound(self)
        ensures
            self.code_spec() <= 15,
    {
    }
}

/// A packed color attribute byte: the background color's code in the high
/// nibble and the foreground color's code in the low nibble.
#[derive(Debug, Clone, Copy, PartialEq, Eq)]
pub struct ColorCode {
    code: u8,
}

impl ColorCode {
    /// The packed byte itself.
    pub closed spec fn byte_spec(self) -> u8 {
        self.code
    }

    /// How a foreground/background pair packs into one byte.
    pub open spec fn encode(foreground: Color, background: Color) -> u8 {
        (background.code_spec() << 4) | foreground.code_spec()
    }

    /// Packs a foreground and a background color into one attribute byte.
    pub fn new(foreground: Color, background: Color) -> (r: ColorCode)
        ensures
            r.byte_spec() == ColorCode::encode(foreground, background),
    {
        ColorCode { code: (background.code() << 4) | foreground.code() }
    }

    /// The packed byte, for callers that store or compare attributes.
    pub fn byte(self) -> (b: u8)
        ensures
            b == self.byte_spec(),
    {
        self.code
    }
}

/// The high nibble of an encoded attribute byte is the background's code and
/// the low nibble is the foreground's code, for every pair of colors.
pub proof fn lemma_color_code_decode(foreground: Color, background: Color)
    ensures
        ColorCode::encode(foreground, background) >> 4 == background.code_spec(),
        ColorCode::encode(foreground, background) & 0x0f == foreground.code_spec(),
{
    let f = foreground.code_spec();
    let b = background.code_spec();
    foreground.lemma_code_bound();
    background.lemma_code_bound();
    assert(f <= 15 && b <= 15 ==> ((b << 4) | f) >> 4 == b && ((b << 4) | f) & 0x0f == f)
        by (bit_vector);
}

} // verus!
