//! Colours, as a guest names them and as the strip takes them.

use vstd::prelude::*;

verus! {

/// A colour as a guest passes it to the host.
#[derive(Clone, Copy, Debug, PartialEq, Eq, Structural)]
pub struct Color {
    pub r: u8,
    pub g: u8,
    pub b: u8,
}

/// A colour as an LED driver takes it.
#[derive(Clone, Copy, Debug, PartialEq, Eq, Structural)]
pub struct Rgb8 {
    pub r: u8,
    pub g: u8,
    pub b: u8,
}

/// The colour of an LED that is off.
pub open spec fn black() -> Rgb8 {
    Rgb8 { r: 0, g: 0, b: 0 }
}

impl Rgb8 {
    pub fn new(r: u8, g: u8, b: u8) -> (c: Rgb8)
        ensures
            c == (Rgb8 { r, g, b }),
    {
        Rgb8 { r, g, b }
    }

    /// The word that goes on the wire for this colour, as a number: green in the
    /// highest byte, then red, then blue, and nothing in the lowest byte.
    pub open spec fn spec_grb_word(self) -> int {
        self.g * 0x100_0000 + self.r * 0x1_0000 + self.b * 0x100
    }

    /// The word that goes on the wire for this colour.
    pub fn grb_word(&self) -> (word: u32)
        ensures
            word == self.spec_grb_word(),
    {
        let r: u32 = self.r as u32;
        let g: u32 = self.g as u32;
        let b: u32 = self.b as u32;
        let word: u32 = (g << 24) | (r << 16) | (b << 8);
        assert(word == g * 0x100_0000 + r * 0x1_0000 + b * 0x100) by (bit_vector)
            requires
                word == (g << 24) | (r << 16) | (b << 8),
                r <= 0xff,
                g <= 0xff,
                b <= 0xff,
        ;
        word
    }
}

impl Default for Rgb8 {
    /// An LED that is off.
    fn default() -> (c: Rgb8)
        ensures
            c == black(),
    {
        Rgb8 { r: 0, g: 0, b: 0 }
    }
}

/// The three parts of a colour can be read off its word: green from the highest byte, then
/// red, then blue. The lowest byte is zero.
pub proof fn grb_word_holds_color(c: Rgb8)
    ensures
        0 <= c.spec_grb_word() <= u32::MAX,
        ({
            let w = c.spec_grb_word() as u32;
            &&& w >> 24 == c.g
            &&& (w >> 16) & 0xff == c.r
            &&& (w >> 8) & 0xff == c.b
            &&& w & 0xff == 0
        }),
{
    let w = c.spec_grb_word() as u32;
    let r = c.r as u32;
    let g = c.g as u32;
    let b = c.b as u32;
    assert(w >> 24 == g && (w >> 16) & 0xff == r && (w >> 8) & 0xff == b && w & 0xff == 0)
        by (bit_vector)
        requires
            w == g * 0x100_0000 + r * 0x1_0000 + b * 0x100,
            r <= 0xff,
            g <= 0xff,
            b <= 0xff,
    ;
}

/// Different colours go on the wire as different words.
pub proof fn grb_word_injective(c: Rgb8, d: Rgb8)
    requires
        c.spec_grb_word() == d.spec_grb_word(),
    ensures
        c == d,
{
}

} // verus!
