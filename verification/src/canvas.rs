//! The image that a render fills.

use image::ImageBuffer;
use image::Rgb;
use image::RgbImage;
use vstd::prelude::*;

verus! {

/// An image of red, green and blue bytes, held in an `image::RgbImage`.
#[verifier::external_body]
pub struct Canvas {
    buffer: RgbImage,
}

/// The number of columns of a canvas.
pub uninterp spec fn canvas_width(canvas: Canvas) -> int;

/// The number of rows of a canvas.
pub uninterp spec fn canvas_height(canvas: Canvas) -> int;

/// The pixels of a canvas as red, green and blue bytes, row by row from the
/// top and from left to right within a row.
pub uninterp spec fn canvas_pixels(canvas: Canvas) -> Seq<(u8, u8, u8)>;

/// The place of the pixel in column `x` and row `y` among the pixels of an
/// image with `width` columns.
pub open spec fn pixel_index(width: int, x: int, y: int) -> int {
    y * width + x
}

/// The pixel in column `x` and row `y` of a canvas.
pub open spec fn pixel_at(canvas: Canvas, x: u32, y: u32) -> (u8, u8, u8) {
    canvas_pixels(canvas)[pixel_index(canvas_width(canvas), x as int, y as int)]
}

/// The pixels of an image have their places among its pixels.
pub proof fn lemma_pixel_index(width: int, height: int, x: int, y: int)
    requires
        0 <= x < width,
        0 <= y < height,
    ensures
        0 <= pixel_index(width, x, y) < width * height,
{
    assert(0 <= y * width && y * width + width <= height * width && height * width == width
        * height) by (nonlinear_arith)
        requires
            0 <= y,
            y + 1 <= height,
            0 < width,
    ;
}

/// Different pixels have different places.
pub proof fn lemma_pixel_index_injective(width: int, x1: int, y1: int, x2: int, y2: int)
    requires
        0 <= x1 < width,
        0 <= x2 < width,
        pixel_index(width, x1, y1) == pixel_index(width, x2, y2),
    ensures
        x1 == x2,
        y1 == y2,
{
    if y1 < y2 {
        assert(y1 * width + width <= y2 * width) by (nonlinear_arith)
            requires
                y1 + 1 <= y2,
                0 < width,
        ;
    }
    if y2 < y1 {
        assert(y2 * width + width <= y1 * width) by (nonlinear_arith)
            requires
                y2 + 1 <= y1,
                0 < width,
        ;
    }
}

/// A canvas of the given size by `ImageBuffer::new`, which makes every
/// pixel black. The size must be such that the three bytes of every pixel
/// can be counted.
#[verifier::external_body]
fn blank(width: u32, height: u32) -> (canvas: Canvas)
    requires
        3 * width * height <= usize::MAX,
    ensures
        canvas_width(canvas) == width,
        canvas_height(canvas) == height,
        canvas_pixels(canvas) == Seq::new((width * height) as nat, |i: int| (0u8, 0u8, 0u8)),
{
    Canvas { buffer: ImageBuffer::new(width, height) }
}

/// The number of columns, by `ImageBuffer::width`.
#[verifier::external_body]
fn columns(canvas: &Canvas) -> (width: u32)
    ensures
        width == canvas_width(*canvas),
{
    canvas.buffer.width()
}

/// The number of rows, by `ImageBuffer::height`.
#[verifier::external_body]
fn rows(canvas: &Canvas) -> (height: u32)
    ensures
        height == canvas_height(*canvas),
{
    canvas.buffer.height()
}

/// The pixel in column `x` and row `y`, which must lie in the image, by
/// `ImageBuffer::get_pixel`.
#[verifier::external_body]
fn get_pixel(canvas: &Canvas, x: u32, y: u32) -> (rgb: (u8, u8, u8))
    requires
        x < canvas_width(*canvas),
        y < canvas_height(*canvas),
    ensures
        rgb == canvas_pixels(*canvas)[pixel_index(canvas_width(*canvas), x as int, y as int)],
{
    let pixel = canvas.buffer.get_pixel(x, y);
    (pixel.0[0], pixel.0[1], pixel.0[2])
}

/// Sets the pixel in column `x` and row `y`, which must lie in the image,
/// by `ImageBuffer::put_pixel`. The other pixels and the size stay.
#[verifier::external_body]
fn put_pixel(canvas: &mut Canvas, x: u32, y: u32, rgb: (u8, u8, u8))
    requires
        x < canvas_width(*old(canvas)),
        y < canvas_height(*old(canvas)),
    ensures
        canvas_width(*final(canvas)) == canvas_width(*old(canvas)),
        canvas_height(*final(canvas)) == canvas_height(*old(canvas)),
        canvas_pixels(*final(canvas)) == canvas_pixels(*old(canvas)).update(
            pixel_index(canvas_width(*old(canvas)), x as int, y as int),
            rgb,
        ),
{
    canvas.buffer.put_pixel(x, y, Rgb([rgb.0, rgb.1, rgb.2]))
}

impl Canvas {
    /// Whether an image of the given size can be held: the three bytes of
    /// every pixel can be counted.
    pub open spec fn spec_fits(width: u32, height: u32) -> bool {
        3 * width * height <= usize::MAX
    }

    /// A black canvas of the given size, or `None` where an image of that
    /// size cannot be held.
    pub fn new(width: u32, height: u32) -> (r: Option<Canvas>)
        ensures
            r is Some == Canvas::spec_fits(width, height),
            r matches Some(canvas) ==> {
                &&& canvas_width(canvas) == width
                &&& canvas_height(canvas) == height
                &&& canvas_pixels(canvas) == Seq::new(
                    (width * height) as nat,
                    |i: int| (0u8, 0u8, 0u8),
                )
            },
    {
        assert(width * height <= 0xffff_ffff * 0xffff_ffff) by (nonlinear_arith)
            requires
                0 <= width <= 0xffff_ffff,
                0 <= height <= 0xffff_ffff,
        ;
        let pixels: u64 = width as u64 * height as u64;
        if pixels as u128 * 3 <= usize::MAX as u128 {
            assert(3 * width * height == pixels * 3) by (nonlinear_arith)
                requires
                    pixels == width * height,
            ;
            Some(blank(width, height))
        } else {
            assert(3 * width * height == pixels * 3) by (nonlinear_arith)
                requires
                    pixels == width * height,
            ;
            None
        }
    }

    /// The number of columns.
    pub fn width(&self) -> (width: u32)
        ensures
            width == canvas_width(*self),
    {
        columns(self)
    }

    /// The number of rows.
    pub fn height(&self) -> (height: u32)
        ensures
            height == canvas_height(*self),
    {
        rows(self)
    }

    /// The pixel in column `x` and row `y`, or `None` where the image has
    /// no such pixel.
    pub fn pixel(&self, x: u32, y: u32) -> (r: Option<(u8, u8, u8)>)
        ensures
            r == (if x < canvas_width(*self) && y < canvas_height(*self) {
                Some(canvas_pixels(*self)[pixel_index(canvas_width(*self), x as int, y as int)])
            } else {
                None
            }),
    {
        if x < columns(self) && y < rows(self) {
            Some(get_pixel(self, x, y))
        } else {
            None
        }
    }

    /// Sets the pixel in column `x` and row `y` and returns `true`, or
    /// leaves the canvas as it is and returns `false` where it has no such
    /// pixel.
    pub fn set_pixel(&mut self, x: u32, y: u32, rgb: (u8, u8, u8)) -> (done: bool)
        ensures
            done == (x < canvas_width(*old(self)) && y < canvas_height(*old(self))),
            canvas_width(*final(self)) == canvas_width(*old(self)),
            canvas_height(*final(self)) == canvas_height(*old(self)),
            canvas_pixels(*final(self)) == (if done {
                canvas_pixels(*old(self)).update(
                    pixel_index(canvas_width(*old(self)), x as int, y as int),
                    rgb,
                )
            } else {
                canvas_pixels(*old(self))
            }),
    {
        if x < columns(self) && y < rows(self) {
            put_pixel(self, x, y, rgb);
            true
        } else {
            false
        }
    }
}

} // verus!
