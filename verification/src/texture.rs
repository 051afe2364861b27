//! Texture containers: the checker pattern over two textures, and the image
//! texture with its texel lookup.

use image::{Pixel, RgbImage};
use vstd::prelude::*;

verus! {

/// A checker pattern: two textures that alternate in space. The texture
/// `odd` fills the cells where the pattern's sign is negative, `even` the
/// others.
pub struct Checker<Odd, Even> {
    odd: Odd,
    even: Even,
}

impl<Odd, Even> Checker<Odd, Even> {
    /// The texture of the odd cells.
    pub closed spec fn spec_odd(self) -> Odd {
        self.odd
    }

    /// The texture of the even cells.
    pub closed spec fn spec_even(self) -> Even {
        self.even
    }

    /// Makes a checker pattern of two textures.
    pub fn new(odd: Odd, even: Even) -> (checker: Self)
        ensures
            checker.spec_odd() == odd,
            checker.spec_even() == even,
    {
        Checker { odd, even }
    }

    /// Returns the texture of the odd cells.
    pub fn odd(&self) -> (t: &Odd)
        ensures
            *t == self.spec_odd(),
    {
        &self.odd
    }

    /// Returns the texture of the even cells.
    pub fn even(&self) -> (t: &Even)
        ensures
            *t == self.spec_even(),
    {
        &self.even
    }
}

/// A decoded RGB image, held in an `image::RgbImage`. Its pixels are read
/// through the functions below only.
#[verifier::external_body]
pub struct Pixels {
    buffer: RgbImage,
}

/// The pixels of an image as red, green and blue samples: one sequence per
/// row, the top row first, each row from left to right.
pub uninterp spec fn rows(pixels: Pixels) -> Seq<Seq<(u8, u8, u8)>>;

/// The rows that a sample buffer holds for an image of the given size: the
/// pixel in column `x` of row `y` takes the three samples that start at
/// `3 * (y * width + x)`.
pub open spec fn unpack(width: int, height: int, data: Seq<u8>) -> Seq<Seq<(u8, u8, u8)>> {
    Seq::new(
        height as nat,
        |y: int|
            Seq::new(
                width as nat,
                |x: int|
                    (
                        data[3 * (y * width + x)],
                        data[3 * (y * width + x) + 1],
                        data[3 * (y * width + x) + 2],
                    ),
            ),
    )
}

/// `ImageBuffer::from_raw` makes an image of a sample buffer. For an image
/// that is to have pixels it does so if and only if the buffer holds at
/// least three samples for each of the `width * height` pixels; the image
/// then has the pixels that the buffer holds, row after row.
#[verifier::external_body]
fn pixels_from_raw(width: u32, height: u32, data: Vec<u8>) -> (pixels: Option<Pixels>)
    requires
        width > 0,
        height > 0,
    ensures
        pixels is Some <==> 3 * width * height <= data.len(),
        pixels matches Some(p) ==> rows(p) == unpack(width as int, height as int, data@),
{
    match RgbImage::from_raw(width, height, data) {
        Some(buffer) => Some(Pixels { buffer }),
        None => None,
    }
}

/// `ImageBuffer::width` returns the number of pixels in a row: every row of
/// the image has this length.
#[verifier::external_body]
fn pixels_width(pixels: &Pixels) -> (w: u32)
    ensures
        forall|r: int| 0 <= r < rows(*pixels).len() ==> (#[trigger] rows(*pixels)[r]).len() == w,
{
    pixels.buffer.width()
}

/// `ImageBuffer::height` returns the number of rows.
#[verifier::external_body]
fn pixels_height(pixels: &Pixels) -> (h: u32)
    ensures
        h == rows(*pixels).len(),
{
    pixels.buffer.height()
}

/// `ImageBuffer::get_pixel` returns the pixel in column `x` of row `y`, whose
/// three channels are handed out as they are. It panics where `x` or `y`
/// lies outside the image.
#[verifier::external_body]
fn pixels_get(pixels: &Pixels, x: u32, y: u32) -> (rgb: (u8, u8, u8))
    requires
        y < rows(*pixels).len(),
        x < rows(*pixels)[y as int].len(),
    ensures
        rgb == rows(*pixels)[y as int][x as int],
{
    let channels = pixels.buffer.get_pixel(x, y).channels();
    (channels[0], channels[1], channels[2])
}

/// The rows form an image with at least one pixel: there is a row, the rows
/// are not empty, and all have one length.
pub open spec fn has_pixels(rows: Seq<Seq<(u8, u8, u8)>>) -> bool {
    &&& rows.len() > 0
    &&& rows[0].len() > 0
    &&& forall|r: int| 0 <= r < rows.len() ==> (#[trigger] rows[r]).len() == rows[0].len()
}

/// An image texture: a decoded RGB image with at least one pixel.
pub struct Image {
    image: Pixels,
}

impl View for Image {
    type V = Seq<Seq<(u8, u8, u8)>>;

    /// The rows of the image, the top row first.
    closed spec fn view(&self) -> Seq<Seq<(u8, u8, u8)>> {
        rows(self.image)
    }
}

impl Image {
    #[verifier::type_invariant]
    spec fn inv(self) -> bool {
        has_pixels(rows(self.image))
    }

    /// The texel that a lookup at column `i` and row `j` gives: coordinates
    /// past the last column or row are clamped to it.
    pub open spec fn texel_at(self, i: int, j: int) -> (u8, u8, u8) {
        let x = if i < self@[0].len() { i } else { self@[0].len() - 1 };
        let y = if j < self@.len() { j } else { self@.len() - 1 };
        self@[y][x]
    }

    /// Makes a texture of a decoded image, given as its size and its sample
    /// buffer: three samples per pixel, row after row from the top. An image
    /// without pixels makes no texture, nor does a buffer that is too short
    /// for the size.
    pub fn new(width: u32, height: u32, data: Vec<u8>) -> (texture: Option<Image>)
        ensures
            texture is Some <==> width > 0 && height > 0 && 3 * width * height <= data.len(),
            texture matches Some(t) ==> t@ == unpack(width as int, height as int, data@),
    {
        if width == 0 || height == 0 {
            return None;
        }
        match pixels_from_raw(width, height, data) {
            Some(image) => Some(Image { image }),
            None => None,
        }
    }

    /// Returns the number of columns, which is not zero.
    pub fn width(&self) -> (w: u32)
        ensures
            w == self@[0].len(),
            w > 0,
            has_pixels(self@),
    {
        proof {
            use_type_invariant(self);
        }
        pixels_width(&self.image)
    }

    /// Returns the number of rows, which is not zero.
    pub fn height(&self) -> (h: u32)
        ensures
            h == self@.len(),
            h > 0,
            has_pixels(self@),
    {
        proof {
            use_type_invariant(self);
        }
        pixels_height(&self.image)
    }

    /// Returns the red, green and blue samples of the texel at column `i`
    /// and row `j`, row 0 being the top row. Coordinates past the last
    /// column or row are clamped to it.
    pub fn texel(&self, i: u32, j: u32) -> (rgb: (u8, u8, u8))
        ensures
            rgb == self.texel_at(i as int, j as int),
    {
        let w = self.width();
        let h = self.height();
        let x: u32 = if i < w { i } else { w - 1 };
        let y: u32 = if j < h { j } else { h - 1 };
        pixels_get(&self.image, x, y)
    }
}

} // verus!
