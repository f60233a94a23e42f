//! Frame buffers, wire protocols and an animated pixel-set controller for
//! LED-matrix boards.

use vstd::prelude::*;

pub mod cpu;
pub mod error;
pub mod keyboard;
pub mod pimoroni;
pub mod pixel;
mod random;
pub mod render;

verus! {

/// One LED colour, a byte per channel.
#[derive(Debug, Clone, Copy, PartialEq, Eq, Structural)]
pub struct RGB {
    pub r: u8,
    pub g: u8,
    pub b: u8,
}

impl RGB {
    /// The colour of an unlit LED.
    pub fn black() -> (rgb: RGB)
        ensures
            rgb == (RGB { r: 0, g: 0, b: 0 }),
    {
        RGB { r: 0, g: 0, b: 0 }
    }

    pub fn new(r: u8, g: u8, b: u8) -> (rgb: RGB)
        ensures
            rgb == (RGB { r, g, b }),
    {
        RGB { r, g, b }
    }
}

} // verus!
