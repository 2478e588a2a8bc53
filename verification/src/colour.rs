//! The sixteen-value hardware colour palette and the packed one-byte
//! colour attribute (background nibble high, foreground nibble low).

use vstd::prelude::*;

verus! {

/// The palette codes the display hardware understands, by their canonical
/// names. Each variant stands for one of the sixteen codes `0..=15`.
#[derive(Debug, Clone, Copy, PartialEq, Eq, Structural)]
#[allow(non_camel_case_types)]
pub enum Colours {
    BLACK,
    BLUE,
    GREEN,
    CYAN,
    RED,
    MAGENTA,
    LIGHT_GRAY,
    DARK_GRAY,
    LIGHT_CYAN,
    PINK,
    YELLOW,
    WHITE,
}

impl Colours {
    /// The hardware code of this palette entry.
    pub open spec fn code_spec(self) -> u8 {
        match self {
            Colours::BLACK => 0,
            Colours::BLUE => 1,
            Colours::GREEN => 2,
            Colours::CYAN => 3,
            Colours::RED => 4,
            Colours::MAGENTA => 5,
            Colours::LIGHT_GRAY => 7,
            Colours::DARK_GRAY => 8,
            Colours::LIGHT_CYAN => 11,
            Colours::PINK => 13,
            Colours::YELLOW => 14,
            Colours::WHITE => 15,
        }
    }

    /// The hardware code of this palette entry.
    #[verifier::when_used_as_spec(code_spec)]
    pub fn code(self) -> (c: u8)
        ensures
            c == self.code_spec(),
    {
        match self {
            Colours::BLACK => 0,
            Colours::BLUE => 1,
            Colours::GREEN => 2,
            Colours::CYAN => 3,
            Colours::RED => 4,
            Colours::MAGENTA => 5,
            Colours::LIGHT_GRAY => 7,
            Colours::DARK_GRAY => 8,
            Colours::LIGHT_CYAN => 11,
            Colours::PINK => 13,
            Colours::YELLOW => 14,
            Colours::WHITE => 15,
        }
    }
}

/// A packed colour attribute byte: `(background << 4) | foreground`. The
/// packed byte is the sole representation; the two nibbles are recovered
/// by arithmetic when needed.
#[derive(Debug, Clone, Copy, PartialEq, Eq, Structural)]
pub struct Colour(u8);

impl View for Colour {
    type V = u8;

    closed spec fn view(&self) -> u8 {
        self.0
    }
}

impl Colour {
    /// Packs a foreground and a background palette entry into one
    /// attribute byte, background in the high nibble.
    pub fn new(fg: Colours, bg: Colours) -> (c: Colour)
        ensures
            c@ == bg.code_spec() * 16 + fg.code_spec(),
            c@ / 16 == bg.code_spec(),
            c@ % 16 == fg.code_spec(),
    {
        let f = fg.code();
        let b = bg.code();
        let packed = (b << 4) | f;
        proof {
            assert(packed == b * 16 + f && packed / 16 == b && packed % 16 == f) by (bit_vector)
                requires
                    f < 16,
                    b < 16,
                    packed == (b << 4) | f,
            ;
        }
        Colour(packed)
    }

    /// Rebuilds an attribute from its raw packed byte.
    pub fn from_byte(b: u8) -> (c: Colour)
        ensures
            c@ == b,
    {
        Colour(b)
    }

    /// The raw packed byte of this attribute.
    pub fn byte(&self) -> (b: u8)
        ensures
            b == self@,
    {
        self.0
    }
}

} // verus!
