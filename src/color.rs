use vstd::prelude::*;

verus! {

/// Intensity level that stands for full light (1.0).
pub const FULL_INTENSITY: u8 = 255;

/// An RGB color; each channel is an 8-bit level, 0 for 0.0 and 255 for 1.0.
#[derive(Clone, Copy, Debug, PartialEq, Eq, Structural)]
pub struct Color {
    pub r: u8,
    pub g: u8,
    pub b: u8,
}

/// The packed framebuffer value of a color: red << 16 | green << 8 | blue.
pub open spec fn packed(r: int, g: int, b: int) -> int {
    r * 0x10000 + g * 0x100 + b
}

/// A channel level scaled by an intensity level, rounded to the nearest level.
pub open spec fn scaled_channel(c: int, intensity: int) -> int {
    (c * intensity + 127) / 255
}

impl Color {
    /// A color from its three 8-bit channel levels.
    pub fn new_from_rgb(r: u8, g: u8, b: u8) -> (c: Color)
        ensures
            c.r == r,
            c.g == g,
            c.b == b,
    {
        Color { r, g, b }
    }

    /// The packed 24-bit value written to the framebuffer.
    pub fn get_pixel_color(&self) -> (p: u32)
        ensures
            p == packed(self.r as int, self.g as int, self.b as int),
            p <= 0xFF_FFFF,
    {
        (self.r as u32) * 0x10000 + (self.g as u32) * 0x100 + self.b as u32
    }

    /// Scales every channel by `intensity`, where `FULL_INTENSITY` leaves the
    /// color as it is and 0 makes it black.
    pub fn modify_intensity(&mut self, intensity: u8)
        ensures
            final(self).r == scaled_channel(old(self).r as int, intensity as int),
            final(self).g == scaled_channel(old(self).g as int, intensity as int),
            final(self).b == scaled_channel(old(self).b as int, intensity as int),
    {
        self.r = scale_channel(self.r, intensity);
        self.g = scale_channel(self.g, intensity);
        self.b = scale_channel(self.b, intensity);
    }
}

fn scale_channel(c: u8, intensity: u8) -> (r: u8)
    ensures
        r == scaled_channel(c as int, intensity as int),
{
    assert(0 <= (c as int) * (intensity as int) <= 255 * 255) by (nonlinear_arith)
        requires
            0 <= c <= 255,
            0 <= intensity <= 255,
    ;
    (((c as u32) * (intensity as u32) + 127) / 255) as u8
}

} // verus!
