//! Byte-valued RGB colors, converted from the renderer's fixed-point
//! channel values.

use vstd::prelude::*;
use crate::fixed::{tdiv, tdiv_i128, Fixed, SCALE};

verus! {

/// An RGB color with one byte per channel.
#[derive(Clone, Copy, Debug, PartialEq, Eq, Structural)]
pub struct Color {
    pub r: u8,
    pub g: u8,
    pub b: u8,
}

/// The byte a normalized channel value maps to: scaled by 255 with the
/// scaling rounded toward zero, then saturated into `0..=255`.
pub open spec fn channel_byte(v: int) -> int {
    let scaled = tdiv(v * 255, SCALE as int);
    if scaled < 0 {
        0
    } else if scaled > 255 {
        255
    } else {
        scaled
    }
}

impl Color {
    /// A color from its three byte channels.
    pub fn rgb(r: u8, g: u8, b: u8) -> (c: Color)
        ensures
            c.r == r,
            c.g == g,
            c.b == b,
    {
        Color { r, b, g }
    }

    /// A color from normalized fixed-point channels: each channel is
    /// scaled by 255 and saturated into a byte.
    pub fn rgb_normalized(r: Fixed, g: Fixed, b: Fixed) -> (c: Color)
        ensures
            c.r == channel_byte(r@),
            c.g == channel_byte(g@),
            c.b == channel_byte(b@),
    {
        Color { r: channel_to_byte(r), g: channel_to_byte(g), b: channel_to_byte(b) }
    }
}

/// Scale one fixed-point channel by 255 and saturate it into a byte.
fn channel_to_byte(v: Fixed) -> (b: u8)
    ensures
        b == channel_byte(v@),
{
    let wide: i128 = (v.raw as i128) * 255;
    let scaled: i128 = tdiv_i128(wide, SCALE as i128);
    if scaled < 0 {
        0
    } else if scaled > 255 {
        255
    } else {
        scaled as u8
    }
}

} // verus!
