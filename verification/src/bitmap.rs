//! The canonical in-memory pixel buffer produced by every decode path.

use vstd::prelude::*;

verus! {

/// The channel layout of a `Bitmap`'s pixel bytes.
#[derive(Debug, Copy, Clone, PartialEq, Eq, Structural)]
pub enum BitmapFormat {
    Rgb,
    Rgba,
}

/// Bytes per pixel of a bitmap format: 3 for RGB, 4 for RGBA.
pub open spec fn bytes_per_pixel(format: BitmapFormat) -> int {
    match format {
        BitmapFormat::Rgb => 3,
        BitmapFormat::Rgba => 4,
    }
}

/// A decoded image: row-major, top-to-bottom pixel bytes with no row padding.
pub struct Bitmap {
    pub width: u32,
    pub height: u32,
    pub format: BitmapFormat,
    pub pixels: Vec<u8>,
}

impl Bitmap {
    /// The size invariant every fully decoded bitmap satisfies: the pixel
    /// buffer holds exactly `width * height` pixels of the stated format.
    pub open spec fn wf(&self) -> bool {
        self.pixels@.len() == self.width as int * self.height as int * bytes_per_pixel(
            self.format,
        )
    }

    pub fn new(width: u32, height: u32, format: BitmapFormat, pixels: Vec<u8>) -> (r: Bitmap)
        ensures
            r.width == width,
            r.height == height,
            r.format == format,
            r.pixels@ == pixels@,
    {
        Bitmap { width, height, format, pixels }
    }
}

/// One palette entry of the 8-bit indexed lossless layout.
#[derive(Debug, Copy, Clone, PartialEq, Eq, Structural)]
pub struct Color {
    pub r: u8,
    pub g: u8,
    pub b: u8,
    pub a: u8,
}

} // verus!
