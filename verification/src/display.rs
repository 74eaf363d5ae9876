//! Where a pixel goes in a framebuffer, and what is written there.
//!
//! Writing to the framebuffer is left to the caller. Here is the arithmetic:
//! the byte offset of a pixel and the word that encodes its colour.

use vstd::prelude::*;

verus! {

/// Bytes that one pixel takes in the framebuffer.
pub const PIXEL_SIZE: usize = 4;

/// The order of the colour channels in a pixel of the framebuffer.
#[derive(Debug, Clone, Copy, PartialEq, Eq, Structural)]
pub enum PixelFormat {
    /// Red in the lowest byte, then green, then blue.
    Rgb,
    /// Blue in the lowest byte, then green, then red.
    Bgr,
}

/// A colour.
#[derive(Debug, Clone, Copy, PartialEq, Eq, Structural)]
pub struct Pixel {
    pub red: u8,
    pub green: u8,
    pub blue: u8,
}

/// The byte offset of the pixel in row `row` and column `col` of a framebuffer
/// whose rows are `stride` pixels apart.
pub open spec fn offset_of(row: int, col: int, stride: int) -> int {
    (row * stride + col) * PIXEL_SIZE
}

/// The word that encodes `pixel` in the given format.
pub open spec fn color_of(pixel: Pixel, format: PixelFormat) -> int {
    match format {
        PixelFormat::Rgb => pixel.blue * 0x1_0000 + pixel.green * 0x100 + pixel.red,
        PixelFormat::Bgr => pixel.red * 0x1_0000 + pixel.green * 0x100 + pixel.blue,
    }
}

/// The byte offset of the pixel in row `row` and column `col`, or nothing where
/// the offset is more than an index can hold.
pub fn pixel_offset(row: usize, col: usize, stride: usize) -> (res: Option<usize>)
    ensures
        res is Some <==> offset_of(row as int, col as int, stride as int) <= usize::MAX,
        res matches Some(offset) ==> offset == offset_of(row as int, col as int, stride as int),
{
    let rows = match row.checked_mul(stride) {
        Some(rows) => rows,
        None => {
            return None;
        },
    };
    let pixels = match rows.checked_add(col) {
        Some(pixels) => pixels,
        None => {
            return None;
        },
    };
    pixels.checked_mul(PIXEL_SIZE)
}

/// The word that encodes `pixel` in the given format.
pub fn pixel_color(pixel: Pixel, format: PixelFormat) -> (color: u32)
    ensures
        color == color_of(pixel, format),
{
    let (high, low) = match format {
        PixelFormat::Rgb => (pixel.blue as u32, pixel.red as u32),
        PixelFormat::Bgr => (pixel.red as u32, pixel.blue as u32),
    };
    let mid = pixel.green as u32;
    assert(high << 16 == high * 0x1_0000 && mid << 8 == mid * 0x100) by (bit_vector)
        requires
            high <= 0xff,
            mid <= 0xff,
    ;
    (high << 16) + (mid << 8) + low
}

} // verus!
