use vstd::prelude::*;

verus! {

/// An RGB colour with one byte per channel.
#[derive(Clone, Copy, Debug, PartialEq, Eq, Structural)]
pub struct Color(pub u8, pub u8, pub u8);

impl Color {
    /// Opaque white: the colour of the sky and the base of all shading.
    pub fn white() -> (c: Color)
        ensures
            c == Color(255, 255, 255),
    {
        Color(255, 255, 255)
    }

    /// A grey whose three channels all equal `level`.
    pub fn gray(level: u8) -> (c: Color)
        ensures
            c == Color(level, level, level),
    {
        Color(level, level, level)
    }

    /// This colour scaled by one half, each channel truncated to an integer.
    pub fn halved(&self) -> (c: Color)
        ensures
            c.0 == self.0 / 2,
            c.1 == self.1 / 2,
            c.2 == self.2 / 2,
    {
        Color(self.0 / 2, self.1 / 2, self.2 / 2)
    }
}

} // verus!
