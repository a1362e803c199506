//! The fixed palette from which a container's color is picked by its color
//! index, for the interactive view and for plain output alike.

use vstd::prelude::*;

verus! {

/// A color of the palette.
#[derive(Debug, Clone, Copy, PartialEq, Eq, Structural)]
pub enum Hue {
    BrightGreen,
    BrightBlue,
    BrightYellow,
    BrightMagenta,
    BrightCyan,
    BrightWhite,
    BrightRed,
    Yellow,
    Green,
}

/// The nine colors of the palette, in the order of their slots.
pub open spec fn palette() -> Seq<Hue> {
    seq![
        Hue::BrightGreen,
        Hue::BrightBlue,
        Hue::BrightYellow,
        Hue::BrightMagenta,
        Hue::BrightCyan,
        Hue::BrightWhite,
        Hue::BrightRed,
        Hue::Yellow,
        Hue::Green,
    ]
}

/// The color of a color index: the slot `index mod 9` of the palette.
pub open spec fn hue_of(index: nat) -> Hue {
    palette()[(index % 9) as int]
}

/// The color of the container with the color index `index`.
pub fn get_color(index: usize) -> (hue: Hue)
    ensures
        hue == hue_of(index as nat),
{
    let slot: usize = index % 9;
    if slot == 0 {
        Hue::BrightGreen
    } else if slot == 1 {
        Hue::BrightBlue
    } else if slot == 2 {
        Hue::BrightYellow
    } else if slot == 3 {
        Hue::BrightMagenta
    } else if slot == 4 {
        Hue::BrightCyan
    } else if slot == 5 {
        Hue::BrightWhite
    } else if slot == 6 {
        Hue::BrightRed
    } else if slot == 7 {
        Hue::Yellow
    } else {
        Hue::Green
    }
}

/// Color indices that differ by a multiple of nine get the same color.
pub proof fn law_palette_repeats(index: nat)
    ensures
        hue_of(index + 9) == hue_of(index),
{
}

} // verus!
