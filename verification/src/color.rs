//! Colours of tiles, entities and log lines, as three 8-bit channels.

use vstd::prelude::*;

verus! {

/// An RGB colour.
#[derive(Clone, Copy, Debug, PartialEq, Eq, Structural)]
pub struct Color {
    pub r: u8,
    pub g: u8,
    pub b: u8,
}

impl Color {
    /// The colour with the channels `r`, `g` and `b`.
    pub fn new(r: u8, g: u8, b: u8) -> (c: Color)
        ensures
            c == (Color { r, g, b }),
    {
        Color { r, g, b }
    }
}

// The palette. Each colour is a function that contracts and code share.
#[verifier::allow_in_spec]
pub fn black() -> Color
    returns
        (Color { r: 0, g: 0, b: 0 }),
{
    Color { r: 0, g: 0, b: 0 }
}

#[verifier::allow_in_spec]
pub fn grey() -> Color
    returns
        (Color { r: 127, g: 127, b: 127 }),
{
    Color { r: 127, g: 127, b: 127 }
}

#[verifier::allow_in_spec]
pub fn white() -> Color
    returns
        (Color { r: 255, g: 255, b: 255 }),
{
    Color { r: 255, g: 255, b: 255 }
}

#[verifier::allow_in_spec]
pub fn red() -> Color
    returns
        (Color { r: 255, g: 0, b: 0 }),
{
    Color { r: 255, g: 0, b: 0 }
}

#[verifier::allow_in_spec]
pub fn light_red() -> Color
    returns
        (Color { r: 255, g: 63, b: 63 }),
{
    Color { r: 255, g: 63, b: 63 }
}

#[verifier::allow_in_spec]
pub fn dark_red() -> Color
    returns
        (Color { r: 191, g: 0, b: 0 }),
{
    Color { r: 191, g: 0, b: 0 }
}

#[verifier::allow_in_spec]
pub fn green() -> Color
    returns
        (Color { r: 0, g: 255, b: 0 }),
{
    Color { r: 0, g: 255, b: 0 }
}

#[verifier::allow_in_spec]
pub fn light_green() -> Color
    returns
        (Color { r: 63, g: 255, b: 63 }),
{
    Color { r: 63, g: 255, b: 63 }
}

#[verifier::allow_in_spec]
pub fn dark_green() -> Color
    returns
        (Color { r: 0, g: 191, b: 0 }),
{
    Color { r: 0, g: 191, b: 0 }
}

#[verifier::allow_in_spec]
pub fn blue() -> Color
    returns
        (Color { r: 0, g: 0, b: 255 }),
{
    Color { r: 0, g: 0, b: 255 }
}

#[verifier::allow_in_spec]
pub fn dark_blue() -> Color
    returns
        (Color { r: 0, g: 0, b: 191 }),
{
    Color { r: 0, g: 0, b: 191 }
}

#[verifier::allow_in_spec]
pub fn orange() -> Color
    returns
        (Color { r: 255, g: 127, b: 0 }),
{
    Color { r: 255, g: 127, b: 0 }
}

#[verifier::allow_in_spec]
pub fn copper() -> Color
    returns
        (Color { r: 197, g: 136, b: 124 }),
{
    Color { r: 197, g: 136, b: 124 }
}

#[verifier::allow_in_spec]
pub fn light_violet() -> Color
    returns
        (Color { r: 159, g: 63, b: 255 }),
{
    Color { r: 159, g: 63, b: 255 }
}

/// Walls out of sight.
#[verifier::allow_in_spec]
pub fn dark_wall() -> Color
    returns
        (Color { r: 26, g: 37, b: 47 }),
{
    Color { r: 26, g: 37, b: 47 }
}

/// Walls in sight.
#[verifier::allow_in_spec]
pub fn light_wall() -> Color
    returns
        (Color { r: 44, g: 62, b: 80 }),
{
    Color { r: 44, g: 62, b: 80 }
}

/// Ground out of sight.
#[verifier::allow_in_spec]
pub fn dark_ground() -> Color
    returns
        (Color { r: 77, g: 23, b: 17 }),
{
    Color { r: 77, g: 23, b: 17 }
}

/// Ground in sight.
#[verifier::allow_in_spec]
pub fn light_ground() -> Color
    returns
        (Color { r: 231, g: 76, b: 60 }),
{
    Color { r: 231, g: 76, b: 60 }
}

/// The healing potion.
#[verifier::allow_in_spec]
pub fn potion_purple() -> Color
    returns
        (Color { r: 142, g: 68, b: 173 }),
{
    Color { r: 142, g: 68, b: 173 }
}

/// The confusion scroll.
#[verifier::allow_in_spec]
pub fn scroll_orange() -> Color
    returns
        (Color { r: 211, g: 84, b: 0 }),
{
    Color { r: 211, g: 84, b: 0 }
}

/// The troll.
#[verifier::allow_in_spec]
pub fn troll_green() -> Color
    returns
        (Color { r: 39, g: 174, b: 96 }),
{
    Color { r: 39, g: 174, b: 96 }
}

} // verus!
