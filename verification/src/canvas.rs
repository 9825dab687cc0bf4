//! The finished frame as an image buffer, filled pixel by pixel in parallel.

use vstd::prelude::*;
use crate::color::Rgb;
use crate::frame::{all_within, colors_on, render, rgba_bytes, FrameSize};
use crate::palette::{ColorIndex, Palette};

verus! {

/// An image buffer of the `image` crate with four bytes to the pixel,
/// `image::ImageBuffer<image::Rgba<u8>, Vec<u8>>`. The verifier does not look
/// inside: what an image holds is known by `image_bytes` and `image_extent`
/// alone, through the contracts of the functions that make and read one.
#[verifier::external_body]
pub struct FrameImage {
    buffer: image::ImageBuffer<image::Rgba<u8>, Vec<u8>>,
}

/// The bytes of an image, pixel after pixel, row after row.
pub uninterp spec fn image_bytes(img: FrameImage) -> Seq<u8>;

/// Width and height of an image, in pixels.
pub uninterp spec fn image_extent(img: FrameImage) -> (u32, u32);

/// The four bytes of pixel `(x, y)` of a frame `width` pixels wide whose
/// colours stand row by row in `colors`.
pub fn pixel_at(colors: &Vec<Rgb>, width: u32, x: u32, y: u32) -> (px: [u8; 4])
    requires
        x < width,
        y * width + x < colors@.len(),
    ensures
        px@ == colors@[y * width + x].rgba_seq(),
{
    let n = colors.len();
    assert(0 <= y * width) by (nonlinear_arith)
        requires
            0 <= y,
            0 <= width,
    ;
    assert(y * width + x < n);
    let place: usize = y as usize * width as usize + x as usize;
    colors[place].to_rgba()
}

/// `image::ImageBuffer::from_par_fn`: an image of `width` by `height` pixels
/// in which pixel `(x, y)` is what the function handed in returns for
/// `(x, y)`, here the colour at row-major place `y * width + x`. The buffer
/// stores the pixels row by row, four bytes each. The call panics where the
/// buffer would be larger than a vector can be, which the bound on the
/// number of bytes leaves out.
#[verifier::external_body]
fn paint(width: u32, height: u32, colors: &Vec<Rgb>) -> (img: FrameImage)
    requires
        colors@.len() == width * height,
        4 * width * height <= isize::MAX,
    ensures
        image_bytes(img) == rgba_bytes(colors@),
        image_extent(img) == (width, height),
{
    FrameImage {
        buffer: image::ImageBuffer::from_par_fn(width, height, |x, y| {
            image::Rgba(pixel_at(colors, width, x, y))
        }),
    }
}

/// `image::ImageBuffer::into_raw`: the buffer's bytes, as they stand.
#[verifier::external_body]
fn raw_bytes(img: FrameImage) -> (buf: Vec<u8>)
    ensures
        buf@ == image_bytes(img),
{
    img.buffer.into_raw()
}

/// `image::ImageBuffer::width`: the number of pixels in a row.
#[verifier::external_body]
fn raw_width(img: &FrameImage) -> (w: u32)
    ensures
        w == image_extent(*img).0,
{
    img.buffer.width()
}

/// `image::ImageBuffer::height`: the number of rows.
#[verifier::external_body]
fn raw_height(img: &FrameImage) -> (h: u32)
    ensures
        h == image_extent(*img).1,
{
    img.buffer.height()
}

impl FrameImage {
    /// Pixels in a row.
    pub fn width(&self) -> (w: u32)
        ensures
            w == image_extent(*self).0,
    {
        raw_width(self)
    }

    /// Rows.
    pub fn height(&self) -> (h: u32)
        ensures
            h == image_extent(*self).1,
    {
        raw_height(self)
    }

    /// The image's bytes: four for each pixel, row by row.
    pub fn into_bytes(self) -> (buf: Vec<u8>)
        ensures
            buf@ == image_bytes(self),
    {
        raw_bytes(self)
    }
}

/// The image of a frame from the colour index of each of its pixels, row by
/// row: `None` where the indices are not one for each pixel, one of them
/// lies outside the palette, or the buffer would be larger than a vector can
/// be.
pub fn frame_image(size: &FrameSize, palette: &Palette, indices: &Vec<ColorIndex>) -> (r: Option<
    FrameImage,
>)
    ensures
        r.is_some() <==> (indices@.len() == size@.width * size@.height && 4 * size@.width
            * size@.height <= isize::MAX && all_within(palette@, indices@)),
        r matches Some(img) ==> image_bytes(img) == rgba_bytes(colors_on(palette@, indices@))
            && image_extent(img) == (size@.width as u32, size@.height as u32),
{
    let count = size.pixel_count();
    assert(4 * size@.width * size@.height == 4 * (size@.width * size@.height)) by (nonlinear_arith);
    if indices.len() as u64 != count || count > (isize::MAX as u64) / 4 {
        return None;
    }
    match render(palette, indices) {
        Some(colors) => Some(paint(size.width(), size.height(), &colors)),
        None => None,
    }
}

} // verus!
