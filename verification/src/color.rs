use vstd::prelude::*;

verus! {

/// A color with 8-bit sRGB components and alpha.
#[derive(Clone, Copy, PartialEq, Eq, Structural, Debug)]
pub struct RgbaColor {
    pub r: u8,
    pub g: u8,
    pub b: u8,
    pub a: u8,
}

impl RgbaColor {
    pub fn new(r: u8, g: u8, b: u8, a: u8) -> (c: RgbaColor)
        ensures
            c == (RgbaColor { r, g, b, a }),
    {
        RgbaColor { r, g, b, a }
    }
}

/// Hue/saturation/brightness adjustment, each factor in per-mille
/// (1000 means "leave the channel unchanged").
#[derive(Clone, Copy, PartialEq, Eq, Structural, Debug)]
pub struct HsbTransform {
    pub hue: u32,
    pub saturation: u32,
    pub brightness: u32,
}

} // verus!
