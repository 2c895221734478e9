//! 8-bit RGBA colors.

use vstd::prelude::*;

verus! {

/// An 8-bit RGBA color in the sRGB color space, with alpha that is not
/// premultiplied.
#[derive(PartialEq, Eq, Structural, Clone, Copy, Debug)]
pub struct Color {
    pub red: u8,
    pub green: u8,
    pub blue: u8,
    pub alpha: u8,
}

impl Color {
    /// Opaque black.
    pub fn black() -> (color: Color)
        ensures
            color == (Color { red: 0, green: 0, blue: 0, alpha: 255 }),
    {
        Color { red: 0, green: 0, blue: 0, alpha: 255 }
    }

    /// Opaque white.
    pub fn white() -> (color: Color)
        ensures
            color == (Color { red: 255, green: 255, blue: 255, alpha: 255 }),
    {
        Color { red: 255, green: 255, blue: 255, alpha: 255 }
    }

    /// Opaque red.
    pub fn red() -> (color: Color)
        ensures
            color == (Color { red: 255, green: 0, blue: 0, alpha: 255 }),
    {
        Color { red: 255, green: 0, blue: 0, alpha: 255 }
    }

    /// Opaque green.
    pub fn green() -> (color: Color)
        ensures
            color == (Color { red: 0, green: 255, blue: 0, alpha: 255 }),
    {
        Color { red: 0, green: 255, blue: 0, alpha: 255 }
    }

    /// Opaque blue.
    pub fn blue() -> (color: Color)
        ensures
            color == (Color { red: 0, green: 0, blue: 255, alpha: 255 }),
    {
        Color { red: 0, green: 0, blue: 255, alpha: 255 }
    }

    /// Opaque yellow.
    pub fn yellow() -> (color: Color)
        ensures
            color == (Color { red: 255, green: 255, blue: 0, alpha: 255 }),
    {
        Color { red: 255, green: 255, blue: 0, alpha: 255 }
    }

    /// Opaque magenta.
    pub fn magenta() -> (color: Color)
        ensures
            color == (Color { red: 255, green: 0, blue: 255, alpha: 255 }),
    {
        Color { red: 255, green: 0, blue: 255, alpha: 255 }
    }

    /// Opaque cyan.
    pub fn cyan() -> (color: Color)
        ensures
            color == (Color { red: 0, green: 255, blue: 255, alpha: 255 }),
    {
        Color { red: 0, green: 255, blue: 255, alpha: 255 }
    }

    /// The color of a pixel that was never written: black and fully
    /// transparent.
    pub fn transparent() -> (color: Color)
        ensures
            color == (Color { red: 0, green: 0, blue: 0, alpha: 0 }),
    {
        Color { red: 0, green: 0, blue: 0, alpha: 0 }
    }

    /// An opaque color with the given red, green and blue parts.
    pub fn from_rgb8(r: u8, g: u8, b: u8) -> (color: Color)
        ensures
            color == (Color { red: r, green: g, blue: b, alpha: 255 }),
    {
        Color { red: r, green: g, blue: b, alpha: 255 }
    }

    /// A color with the given parts.
    pub fn from_rgba8(r: u8, g: u8, b: u8, a: u8) -> (color: Color)
        ensures
            color == (Color { red: r, green: g, blue: b, alpha: a }),
    {
        Color { red: r, green: g, blue: b, alpha: a }
    }

    /// The red part.
    pub fn r(&self) -> (r: u8)
        ensures
            r == self.red,
    {
        self.red
    }

    /// The green part.
    pub fn g(&self) -> (g: u8)
        ensures
            g == self.green,
    {
        self.green
    }

    /// The blue part.
    pub fn b(&self) -> (b: u8)
        ensures
            b == self.blue,
    {
        self.blue
    }

    /// The alpha part: 0 is fully transparent, 255 fully opaque.
    pub fn a(&self) -> (a: u8)
        ensures
            a == self.alpha,
    {
        self.alpha
    }

    /// The same color with its alpha part replaced by `a`.
    pub fn with_alpha(self, a: u8) -> (color: Color)
        ensures
            color == (Color { alpha: a, ..self }),
    {
        Color { red: self.red, green: self.green, blue: self.blue, alpha: a }
    }

    /// The part at `index` in the order red, green, blue, alpha.
    pub open spec fn channel(&self, index: int) -> u8 {
        if index == 0 {
            self.red
        } else if index == 1 {
            self.green
        } else if index == 2 {
            self.blue
        } else {
            self.alpha
        }
    }

    /// Returns the part at `index` in the order red, green, blue, alpha.
    pub fn index(&self, index: usize) -> (part: u8)
        requires
            index < 4,
        ensures
            part == self.channel(index as int),
    {
        if index == 0 {
            self.red
        } else if index == 1 {
            self.green
        } else if index == 2 {
            self.blue
        } else {
            self.alpha
        }
    }
}

} // verus!
