//! RGBA images as plain values, and laying one image over another with the
//! `image` crate.

use vstd::prelude::*;

use image::{ImageBuffer, Rgba, RgbaImage};

verus! {

/// An RGBA image with 8 bits per channel: `pixels` holds the rows one after
/// the other, each pixel as its red, green, blue and alpha bytes.
pub struct Canvas {
    pub width: u32,
    pub height: u32,
    pub pixels: Vec<u8>,
}

impl Canvas {
    /// The buffer holds exactly the pixels of the image.
    pub open spec fn wf(&self) -> bool {
        self.pixels@.len() == self.width * self.height * 4
    }
}

/// Channel `ch` of the pixel at column `x`, row `y` of an image `w` pixels wide
/// whose bytes are `s`.
pub open spec fn byte_at(s: Seq<u8>, w: int, x: int, y: int, ch: int) -> u8 {
    s[(y * w + x) * 4 + ch]
}

/// Channel `ch` (0 red, 1 green, 2 blue, 3 alpha) of the pixel at column `x`, row `y`.
pub open spec fn pixel_byte(c: Canvas, x: int, y: int, ch: int) -> u8 {
    byte_at(c.pixels@, c.width as int, x, y, ch)
}

/// Calls `image::imageops::overlay` on the two images: `top` is laid over
/// `bottom` with its top left corner at column `x`, row `y`, clipped to
/// `bottom`. The contract states, as the crate's source shows it (each covered
/// pixel of `bottom` is blended with the pixel of `top` over it, and
/// `Rgba::blend` keeps the bottom pixel under a transparent one and takes the
/// top pixel over it where that one is opaque), that pixels not covered, or
/// covered by a transparent pixel, stay as they were, and that pixels covered
/// by an opaque pixel become that pixel. What a partly transparent pixel gives
/// (a floating point blend) is left unsaid.
#[verifier::external_body]
pub(crate) fn overlay(bottom: &mut Canvas, top: &Canvas, x: i64, y: i64)
    requires
        old(bottom).wf(),
        top.wf(),
    ensures
        final(bottom).width == old(bottom).width,
        final(bottom).height == old(bottom).height,
        final(bottom).wf(),
        forall|px: int, py: int, ch: int|
            0 <= px < old(bottom).width && 0 <= py < old(bottom).height && 0 <= ch < 4 ==> {
                let covered = x <= px < x + top.width && y <= py < y + top.height;
                &&& (!covered || pixel_byte(*top, px - x, py - y, 3) == 0) ==> #[trigger] pixel_byte(
                    *final(bottom),
                    px,
                    py,
                    ch,
                ) == pixel_byte(*old(bottom), px, py, ch)
                &&& (covered && pixel_byte(*top, px - x, py - y, 3) == 255) ==> pixel_byte(
                    *final(bottom),
                    px,
                    py,
                    ch,
                ) == pixel_byte(*top, px - x, py - y, ch)
            },
{
    let data = std::mem::take(&mut bottom.pixels);
    let mut under: RgbaImage = ImageBuffer::from_raw(bottom.width, bottom.height, data).unwrap();
    let over: ImageBuffer<Rgba<u8>, &[u8]> =
        ImageBuffer::from_raw(top.width, top.height, top.pixels.as_slice()).unwrap();
    image::imageops::overlay(&mut under, &over, x, y);
    bottom.pixels = under.into_raw();
}

} // verus!
