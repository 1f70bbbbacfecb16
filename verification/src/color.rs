//! The colour of one pixel: three 8-bit channels.

use vstd::prelude::*;

verus! {

/// An opaque RGB colour with 8 bits per channel.
#[derive(Clone, Copy, Debug, PartialEq, Eq, Structural)]
pub struct Color {
    pub r: u8,
    pub g: u8,
    pub b: u8,
}

impl Color {
    /// The colour whose three channels are all zero.
    pub open spec fn black() -> Color {
        Color { r: 0, g: 0, b: 0 }
    }

    /// The colour whose three channels are all 255.
    pub open spec fn white() -> Color {
        Color { r: 255, g: 255, b: 255 }
    }

    /// The grey whose three channels all equal `level`.
    pub open spec fn gray(level: u8) -> Color {
        Color { r: level, g: level, b: level }
    }

    /// Builds a colour from its three channels.
    pub fn new(r: u8, g: u8, b: u8) -> (c: Color)
        ensures
            c == (Color { r, g, b }),
    {
        Color { r, g, b }
    }
}

} // verus!
