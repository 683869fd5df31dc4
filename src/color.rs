use vstd::prelude::*;

verus! {

/// An RGBA colour with 8 bits per channel.
#[derive(Debug, Clone, Copy, PartialEq, Eq, Structural, Hash)]
pub struct Color {
    pub red: u8,
    pub green: u8,
    pub blue: u8,
    pub alpha: u8,
}

impl Color {
    /// Red channel.
    pub fn get_red(&self) -> (r: u8)
        ensures
            r == self.red,
    {
        self.red
    }

    /// Green channel.
    pub fn get_green(&self) -> (r: u8)
        ensures
            r == self.green,
    {
        self.green
    }

    /// Blue channel.
    pub fn get_blue(&self) -> (r: u8)
        ensures
            r == self.blue,
    {
        self.blue
    }

    /// Alpha channel.
    pub fn get_alpha(&self) -> (r: u8)
        ensures
            r == self.alpha,
    {
        self.alpha
    }

    /// A colour from its four channels.
    pub fn new(red: u8, green: u8, blue: u8, alpha: u8) -> (r: Color)
        ensures
            r.red == red,
            r.green == green,
            r.blue == blue,
            r.alpha == alpha,
    {
        Color { red, green, blue, alpha }
    }

    /// Opaque white: the colour of untinted faces.
    pub fn white() -> (r: Color)
        ensures
            r.red == 255 && r.green == 255 && r.blue == 255 && r.alpha == 255,
    {
        Color { red: 255, green: 255, blue: 255, alpha: 255 }
    }
}

} // verus!
