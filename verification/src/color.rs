//! Colours: the 8-bit colour of an image or a palette, and the wider working pixel.

use vstd::prelude::*;

verus! {

/// A colour with 8-bit channels, as images and palettes hold it.
#[derive(Clone, Copy, Debug, PartialEq, Eq, Structural)]
pub struct Rgb {
    pub r: u8,
    pub g: u8,
    pub b: u8,
}

/// A pixel under work. Its channels may leave the range of a colour while
/// error is being carried from pixel to pixel.
#[derive(Clone, Copy, Debug, PartialEq, Eq, Structural)]
pub struct Pixel {
    pub r: i64,
    pub g: i64,
    pub b: i64,
}

impl View for Rgb {
    type V = (int, int, int);

    open spec fn view(&self) -> (int, int, int) {
        (self.r as int, self.g as int, self.b as int)
    }
}

impl View for Pixel {
    type V = (int, int, int);

    open spec fn view(&self) -> (int, int, int) {
        (self.r as int, self.g as int, self.b as int)
    }
}

/// The remainder of `v` by 256, in 0..=255: what is left of a channel that
/// is cut down to 8 bits.
pub open spec fn low_byte(v: int) -> int {
    v % 256
}

/// The colour that is left of a pixel when each channel is cut down to 8 bits.
pub open spec fn truncated(p: (int, int, int)) -> Rgb {
    Rgb { r: low_byte(p.0) as u8, g: low_byte(p.1) as u8, b: low_byte(p.2) as u8 }
}

/// `v` limited to the range of a channel, 0..=255.
pub open spec fn clamped(v: int) -> int {
    if v < 0 {
        0
    } else if v > 255 {
        255
    } else {
        v
    }
}

impl Rgb {
    /// The colour as a working pixel.
    pub fn to_pixel(self) -> (p: Pixel)
        ensures
            p@ == self@,
    {
        Pixel { r: self.r as i64, g: self.g as i64, b: self.b as i64 }
    }
}

/// Cuts one channel down to 8 bits; values outside 0..=255 wrap around.
pub fn channel_to_byte(v: i64) -> (byte: u8)
    ensures
        byte == low_byte(v as int),
{
    let m: i64 = v % 256;
    if m < 0 {
        (m + 256) as u8
    } else {
        m as u8
    }
}

impl Pixel {
    /// The colour that is left when each channel is cut down to 8 bits.
    pub fn truncate(self) -> (c: Rgb)
        ensures
            c == truncated(self@),
    {
        Rgb { r: channel_to_byte(self.r), g: channel_to_byte(self.g), b: channel_to_byte(self.b) }
    }
}

} // verus!
