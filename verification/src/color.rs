//! Colours, as their red, green and blue parts.

use vstd::prelude::*;

verus! {

/// A colour without transparency.
#[derive(Clone, Copy, Debug, PartialEq, Eq, Structural)]
pub struct Color {
    pub r: u8,
    pub g: u8,
    pub b: u8,
}

impl Color {
    /// The colour with the given parts.
    pub open spec fn rgb(r: u8, g: u8, b: u8) -> Color {
        Color { r, g, b }
    }

    /// Pure red.
    pub open spec fn red() -> Color {
        Color::rgb(255, 0, 0)
    }

    /// Pure yellow.
    pub open spec fn yellow() -> Color {
        Color::rgb(255, 255, 0)
    }

    /// The colour with the given parts.
    pub fn from_rgb(r: u8, g: u8, b: u8) -> (color: Color)
        ensures
            color == Color::rgb(r, g, b),
    {
        Color { r, g, b }
    }
}

} // verus!
