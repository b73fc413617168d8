use vstd::prelude::*;

verus! {

/// An RGBA image with 8 bits per channel, stored row by row, four bytes
/// per pixel.
pub struct Raster {
    pub width: u32,
    pub height: u32,
    pub data: Vec<u8>,
}

/// A color as its red, green and blue components.
pub type Rgb = (u8, u8, u8);

/// The position of the first byte of pixel `(x, y)` in a buffer of rows of
/// `width` pixels.
pub open spec fn pixel_offset(width: int, x: int, y: int) -> int {
    4 * (y * width + x)
}

/// A pixel of a row-major RGBA buffer lies inside the buffer.
pub proof fn lemma_pixel_in_bounds(width: int, height: int, x: int, y: int)
    requires
        0 <= x < width,
        0 <= y < height,
    ensures
        0 <= pixel_offset(width, x, y),
        pixel_offset(width, x, y) + 4 <= 4 * width * height,
        y * width + x < width * height,
{
    assert(0 <= y * width) by (nonlinear_arith)
        requires 0 <= y, 0 <= width;
    assert(y * width + x + 1 <= width * height) by (nonlinear_arith)
        requires 0 <= x < width, 0 <= y < height;
    assert(4 * (width * height) == 4 * width * height) by (nonlinear_arith);
}

impl Raster {
    /// The buffer holds every pixel of the image.
    pub open spec fn wf(&self) -> bool {
        4 * (self.width as int) * (self.height as int) <= self.data@.len()
    }

    /// The color of pixel `(x, y)`, alpha left out.
    pub open spec fn rgb_at(&self, x: int, y: int) -> Rgb {
        let i = pixel_offset(self.width as int, x, y);
        (self.data@[i], self.data@[i + 1], self.data@[i + 2])
    }

    /// The color of pixel `(x, y)`, alpha left out.
    pub fn rgb(&self, x: u32, y: u32) -> (c: Rgb)
        requires
            self.wf(),
            x < self.width,
            y < self.height,
        ensures
            c == self.rgb_at(x as int, y as int),
    {
        proof {
            lemma_pixel_in_bounds(self.width as int, self.height as int, x as int, y as int);
        }
        let len = self.data.len();
        assert((y as int) * (self.width as int) + (x as int) < len);
        let i = (y as usize * self.width as usize + x as usize) * 4;
        (self.data[i], self.data[i + 1], self.data[i + 2])
    }
}

} // verus!
