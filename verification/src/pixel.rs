//! Pixels as colour channels.
use vstd::prelude::*;

verus! {

/// A pixel, as a set of rgba colours.
#[derive(Debug, Copy, Clone, PartialEq, Eq, Structural)]
pub struct Pixel {
    /// Red
    pub r: u8,
    /// Green
    pub g: u8,
    /// Blue
    pub b: u8,
    /// Alpha
    pub a: u8,
}

impl Pixel {
    /// An all white pixel
    pub fn white() -> (p: Self)
        ensures
            p == (Pixel { r: 255, g: 255, b: 255, a: 255 }),
    {
        Pixel { r: 255, g: 255, b: 255, a: 255 }
    }

    /// An all black pixel: no colour, fully opaque
    pub fn black() -> (p: Self)
        ensures
            p == (Pixel { r: 0, g: 0, b: 0, a: 255 }),
    {
        Self::default()
    }

    /// A transparent pixel (all values set to zero)
    pub fn transparent() -> (p: Self)
        ensures
            p == (Pixel { r: 0, g: 0, b: 0, a: 0 }),
    {
        Pixel { r: 0, g: 0, b: 0, a: 0 }
    }

    /// The four channels in the order red, green, blue, alpha.
    pub open spec fn channels(&self) -> Seq<u8> {
        seq![self.r, self.g, self.b, self.a]
    }

    /// The pixel of four channel bytes in the order red, green, blue, alpha.
    pub fn from_channels(color: [u8; 4]) -> (p: Self)
        ensures
            p == (Pixel { r: color@[0], g: color@[1], b: color@[2], a: color@[3] }),
            p.channels() =~= color@,
    {
        Pixel { r: color[0], g: color[1], b: color[2], a: color[3] }
    }
}

impl Default for Pixel {
    /// The default pixel is black.
    fn default() -> (p: Self)
        ensures
            p == (Pixel { r: 0, g: 0, b: 0, a: 255 }),
    {
        Pixel { r: 0, g: 0, b: 0, a: 255 }
    }
}

/// A grey scale pixel
#[derive(Debug, Copy, Clone, PartialEq, Eq, Structural)]
pub struct BWPixel(pub u8);

} // verus!
