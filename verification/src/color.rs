//! RGBA colours and the packed `0xAARRGGBB` texel format.

use vstd::prelude::*;

verus! {

/// An RGBA colour with eight bits per channel.
#[derive(Clone, Copy, Debug, PartialEq, Eq, Structural)]
pub struct Color {
    pub r: u8,
    pub g: u8,
    pub b: u8,
    pub a: u8,
}

/// The colour that a packed `0xAARRGGBB` texel stands for.
pub open spec fn unpacked(pix: u32) -> Color {
    Color {
        r: ((pix / 0x1_0000) % 0x100) as u8,
        g: ((pix / 0x100) % 0x100) as u8,
        b: (pix % 0x100) as u8,
        a: (pix / 0x100_0000) as u8,
    }
}

/// The packed `0xAARRGGBB` texel of a colour.
pub open spec fn packed(c: Color) -> u32 {
    (c.a * 0x100_0000 + c.r * 0x1_0000 + c.g * 0x100 + c.b) as u32
}

impl Color {
    pub open spec fn spec_black() -> Color {
        Color { r: 0, g: 0, b: 0, a: 255 }
    }

    /// Opaque black.
    #[verifier::when_used_as_spec(spec_black)]
    pub fn black() -> (c: Color)
        ensures
            c == Self::spec_black(),
    {
        Color { r: 0, g: 0, b: 0, a: 255 }
    }

    pub open spec fn spec_white() -> Color {
        Color { r: 255, g: 255, b: 255, a: 255 }
    }

    /// Opaque white.
    #[verifier::when_used_as_spec(spec_white)]
    pub fn white() -> (c: Color)
        ensures
            c == Self::spec_white(),
    {
        Color { r: 255, g: 255, b: 255, a: 255 }
    }

    pub open spec fn spec_sky_blue() -> Color {
        Color { r: 135, g: 206, b: 235, a: 255 }
    }

    /// The colour of the sky half of a frame.
    #[verifier::when_used_as_spec(spec_sky_blue)]
    pub fn sky_blue() -> (c: Color)
        ensures
            c == Self::spec_sky_blue(),
    {
        Color { r: 135, g: 206, b: 235, a: 255 }
    }

    pub open spec fn spec_white_smoke() -> Color {
        Color { r: 245, g: 245, b: 245, a: 255 }
    }

    /// The colour of a traced ray.
    #[verifier::when_used_as_spec(spec_white_smoke)]
    pub fn white_smoke() -> (c: Color)
        ensures
            c == Self::spec_white_smoke(),
    {
        Color { r: 245, g: 245, b: 245, a: 255 }
    }

    pub fn new(r: u8, g: u8, b: u8, a: u8) -> (c: Color)
        ensures
            c == (Color { r, g, b, a }),
    {
        Color { r, g, b, a }
    }

    /// Splits a packed texel into its four channels.
    pub fn from_argb(pix: u32) -> (c: Color)
        ensures
            c == unpacked(pix),
    {
        let a: u8 = ((pix >> 24) & 0xFF) as u8;
        let r: u8 = ((pix >> 16) & 0xFF) as u8;
        let g: u8 = ((pix >> 8) & 0xFF) as u8;
        let b: u8 = (pix & 0xFF) as u8;
        assert((pix >> 24) & 0xFF == pix / 0x100_0000) by (bit_vector);
        assert((pix >> 16) & 0xFF == (pix / 0x1_0000) % 0x100) by (bit_vector);
        assert((pix >> 8) & 0xFF == (pix / 0x100) % 0x100) by (bit_vector);
        assert(pix & 0xFF == pix % 0x100) by (bit_vector);
        Color { r, g, b, a }
    }

    /// Packs the four channels into one texel.
    pub fn to_argb(self) -> (pix: u32)
        ensures
            pix == packed(self),
    {
        let a: u32 = self.a as u32;
        let r: u32 = self.r as u32;
        let g: u32 = self.g as u32;
        let b: u32 = self.b as u32;
        assert(a < 0x100 && r < 0x100 && g < 0x100 && b < 0x100 ==> ((a << 24) | (r << 16) | (g << 8)
            | b) == a * 0x100_0000 + r * 0x1_0000 + g * 0x100 + b) by (bit_vector);
        (a << 24) | (r << 16) | (g << 8) | b
    }
}

/// Packing a colour and splitting the texel again gives the colour back.
pub proof fn lemma_unpack_pack(c: Color)
    ensures
        unpacked(packed(c)) == c,
{
}

/// Splitting a texel and packing the colour again gives the texel back.
pub proof fn lemma_pack_unpack(pix: u32)
    ensures
        packed(unpacked(pix)) == pix,
{
}

} // verus!
