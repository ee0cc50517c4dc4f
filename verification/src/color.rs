//! A button's colour as four straight (non-premultiplied) 8-bit channels, and
//! its packed 32-bit storage form: R in the lowest byte, then G, B, and A in
//! the highest byte.

use vstd::prelude::*;

verus! {

/// A straight-alpha RGBA colour, one byte per channel.
#[derive(Clone, Copy, PartialEq, Eq, Structural, Debug)]
pub struct Color {
    pub r: u8,
    pub g: u8,
    pub b: u8,
    pub a: u8,
}

/// The packed storage form of a colour: `R | G<<8 | B<<16 | A<<24`.
pub open spec fn spec_pack_color(c: Color) -> u32 {
    (c.r as u32) | ((c.g as u32) << 8) | ((c.b as u32) << 16) | ((c.a as u32) << 24)
}

/// The colour a packed 32-bit value stands for.
pub open spec fn spec_unpack_color(v: u32) -> Color {
    Color {
        r: (v & 0xFF) as u8,
        g: ((v >> 8) & 0xFF) as u8,
        b: ((v >> 16) & 0xFF) as u8,
        a: ((v >> 24) & 0xFF) as u8,
    }
}

impl Color {
    /// Packs the four channels into one 32-bit value for storage.
    pub fn pack(self) -> (v: u32)
        ensures
            v == spec_pack_color(self),
    {
        (self.r as u32) | ((self.g as u32) << 8) | ((self.b as u32) << 16) | ((self.a as u32) << 24)
    }

    /// Recovers the four channels from a packed 32-bit value.
    pub fn unpack(v: u32) -> (c: Color)
        ensures
            c == spec_unpack_color(v),
    {
        Color {
            r: (v & 0xFF) as u8,
            g: ((v >> 8) & 0xFF) as u8,
            b: ((v >> 16) & 0xFF) as u8,
            a: ((v >> 24) & 0xFF) as u8,
        }
    }
}

/// Packing then unpacking reproduces every channel of every colour exactly.
pub proof fn lemma_color_pack_unpack(c: Color)
    ensures
        spec_unpack_color(spec_pack_color(c)) == c,
{
    let r = c.r;
    let g = c.g;
    let b = c.b;
    let a = c.a;
    assert((((r as u32) | ((g as u32) << 8) | ((b as u32) << 16) | ((a as u32) << 24))
        & 0xFF) as u8 == r) by (bit_vector);
    assert(((((r as u32) | ((g as u32) << 8) | ((b as u32) << 16) | ((a as u32) << 24))
        >> 8) & 0xFF) as u8 == g) by (bit_vector);
    assert(((((r as u32) | ((g as u32) << 8) | ((b as u32) << 16) | ((a as u32) << 24))
        >> 16) & 0xFF) as u8 == b) by (bit_vector);
    assert(((((r as u32) | ((g as u32) << 8) | ((b as u32) << 16) | ((a as u32) << 24))
        >> 24) & 0xFF) as u8 == a) by (bit_vector);
}

/// Unpacking then packing reproduces every packed 32-bit value exactly.
pub proof fn lemma_color_unpack_pack(v: u32)
    ensures
        spec_pack_color(spec_unpack_color(v)) == v,
{
    assert((((v & 0xFF) as u8 as u32) | ((((v >> 8) & 0xFF) as u8 as u32) << 8)
        | ((((v >> 16) & 0xFF) as u8 as u32) << 16) | ((((v >> 24) & 0xFF) as u8 as u32) << 24))
        == v) by (bit_vector);
}

} // verus!
