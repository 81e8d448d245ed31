use vstd::prelude::*;

verus! {

/// Width of the display grid in cells.
pub const WIDTH: usize = 64;

/// Height of the display grid in cells.
pub const HEIGHT: usize = 32;

/// Colour of a lit cell in the rendered buffer.
pub const WHITE_PIXEL: u32 = 0x0099FFD8;

/// Colour of an unlit cell in the rendered buffer.
pub const BLACK_PIXEL: u32 = 0x00204537;

/// Packs three 8-bit colour channels into one `0x00RRGGBB` word.
pub fn from_rgb(r: u8, g: u8, b: u8) -> (c: u32)
    ensures
        c == ((r as u32) << 16u32) | ((g as u32) << 8u32) | (b as u32),
{
    ((r as u32) << 16u32) | ((g as u32) << 8u32) | (b as u32)
}

} // verus!
