use vstd::prelude::*;

verus! {

/// The value of an RGB triple packed as `0x00RRGGBB`.
pub open spec fn packed_rgb(rgb: (u8, u8, u8)) -> int {
    rgb.0 as int * 65536 + rgb.1 as int * 256 + rgb.2 as int
}

/// An immutable RGB color with 8 bits per channel.
#[derive(Debug, Clone, Copy)]
pub struct Color {
    r: u8,
    g: u8,
    b: u8,
}

impl View for Color {
    type V = (u8, u8, u8);

    closed spec fn view(&self) -> (u8, u8, u8) {
        (self.r, self.g, self.b)
    }
}

impl Color {
    /// The packed pixel value `0x00RRGGBB` of this color.
    pub open spec fn spec_as_u32(&self) -> u32 {
        packed_rgb(self@) as u32
    }

    /// The color packed as `(r << 16) | (g << 8) | b`; the top byte is zero.
    pub fn as_u32(&self) -> (r: u32)
        ensures
            r as int == packed_rgb(self@),
            r == self.spec_as_u32(),
            r < 0x0100_0000,
    {
        let r = self.r as u32;
        let g = self.g as u32;
        let b = self.b as u32;
        proof {
            assert(r << 16u32 | g << 8u32 | b == r * 65536 + g * 256 + b) by (bit_vector)
                requires
                    r < 256,
                    g < 256,
                    b < 256,
            ;
        }
        r << 16 | g << 8 | b
    }

    pub fn red() -> (c: Color)
        ensures
            c@ == (255u8, 0u8, 0u8),
    {
        Color { r: 255, g: 0, b: 0 }
    }

    pub fn green() -> (c: Color)
        ensures
            c@ == (0u8, 255u8, 0u8),
    {
        Color { r: 0, g: 255, b: 0 }
    }

    pub fn white() -> (c: Color)
        ensures
            c@ == (255u8, 255u8, 255u8),
    {
        Color { r: 255, g: 255, b: 255 }
    }

    pub fn from_u8_rgb(r: u8, g: u8, b: u8) -> (c: Color)
        ensures
            c@ == (r, g, b),
    {
        Color { r, g, b }
    }
}

} // verus!
