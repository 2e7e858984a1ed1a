//! The fixed label palette.
//!
//! A label's display colour is a pure function of its ID: the palette is
//! cycled by ID modulo its length, so colours are stable across sessions
//! and need not be stored.

use vstd::prelude::*;

verus! {

/// Number of palette entries.
pub const PALETTE_LEN: u32 = 9;

#[derive(Clone, Copy, PartialEq, Eq, Structural, Debug)]
pub struct Rgb {
    pub r: u8,
    pub g: u8,
    pub b: u8,
}

/// Palette entry for an index already reduced modulo `PALETTE_LEN`.
pub open spec fn spec_palette(i: int) -> Rgb {
    if i == 0 {
        Rgb { r: 255, g: 0, b: 0 }
    } else if i == 1 {
        Rgb { r: 0, g: 255, b: 0 }
    } else if i == 2 {
        Rgb { r: 0, g: 0, b: 255 }
    } else if i == 3 {
        Rgb { r: 255, g: 255, b: 0 }
    } else if i == 4 {
        Rgb { r: 255, g: 0, b: 255 }
    } else if i == 5 {
        Rgb { r: 0, g: 255, b: 255 }
    } else if i == 6 {
        Rgb { r: 255, g: 128, b: 0 }
    } else if i == 7 {
        Rgb { r: 128, g: 0, b: 255 }
    } else {
        Rgb { r: 0, g: 255, b: 128 }
    }
}

/// The colour assigned to a label ID: palette entry `id mod PALETTE_LEN`.
pub open spec fn spec_color_for(id: u32) -> Rgb {
    spec_palette(id as int % (PALETTE_LEN as int))
}

/// Deterministic palette colour for a label ID.
pub fn color_for(id: u32) -> (c: Rgb)
    ensures
        c == spec_color_for(id),
{
    match id % PALETTE_LEN {
        0 => Rgb { r: 255, g: 0, b: 0 },
        1 => Rgb { r: 0, g: 255, b: 0 },
        2 => Rgb { r: 0, g: 0, b: 255 },
        3 => Rgb { r: 255, g: 255, b: 0 },
        4 => Rgb { r: 255, g: 0, b: 255 },
        5 => Rgb { r: 0, g: 255, b: 255 },
        6 => Rgb { r: 255, g: 128, b: 0 },
        7 => Rgb { r: 128, g: 0, b: 255 },
        _ => Rgb { r: 0, g: 255, b: 128 },
    }
}

} // verus!
