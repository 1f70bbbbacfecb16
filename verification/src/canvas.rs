//! The pixel grid: an 8-bit RGB image buffer of the `image` crate, seen
//! through its size and the colour of each of its pixels.

use vstd::prelude::*;
use vstd::arithmetic::div_mod::{lemma_fundamental_div_mod, lemma_mod_bound};
use crate::color::Color;

verus! {

/// A raster image of RGB pixels, addressed by column `x` and row `y`.
///
/// The pixels live in an `image::RgbImage`; the functions of this module are
/// the only ones that touch it.
#[verifier::external_body]
pub struct PixelGrid {
    img: image::RgbImage,
}

/// Width and height of a grid, in pixels.
pub uninterp spec fn grid_size(grid: PixelGrid) -> (u32, u32);

/// The colour of each pixel of a grid, keyed by `(x, y)`.
pub uninterp spec fn grid_pixels(grid: PixelGrid) -> Map<(u32, u32), Color>;

/// Whether a grid of `width` by `height` pixels can be held: its channels,
/// three per pixel, are the bytes of one buffer, and a buffer has at most
/// `isize::MAX` bytes.
pub open spec fn fits_in_memory(width: u32, height: u32) -> bool {
    3 * width <= usize::MAX && 3 * width * height <= isize::MAX
}

/// `image::ImageBuffer::new`: a buffer of the given size whose channels are
/// all zero. The outside function panics when the number of channels,
/// computed as `3 * width` and then times `height`, overflows `usize`, and
/// the vector that it allocates panics beyond `isize::MAX` bytes.
#[verifier::external_body]
pub(crate) fn new_grid(width: u32, height: u32) -> (grid: PixelGrid)
    requires
        fits_in_memory(width, height),
    ensures
        grid_size(grid) == (width, height),
        forall|x: u32, y: u32|
            x < width && y < height ==> #[trigger] grid_pixels(grid)[(x, y)] == Color::black(),
{
    PixelGrid { img: image::RgbImage::new(width, height) }
}

/// `image::ImageBuffer::put_pixel`: overwrites the pixel at column `x`, row `y`
/// and leaves the size and every other pixel as they were. The outside
/// function panics when `(x, y)` lies outside the image.
#[verifier::external_body]
pub(crate) fn put_pixel(grid: &mut PixelGrid, x: u32, y: u32, color: Color)
    requires
        x < grid_size(*old(grid)).0,
        y < grid_size(*old(grid)).1,
    ensures
        grid_size(*final(grid)) == grid_size(*old(grid)),
        grid_pixels(*final(grid)) == grid_pixels(*old(grid)).insert((x, y), color),
{
    grid.img.put_pixel(x, y, image::Rgb([color.r, color.g, color.b]))
}

/// `image::ImageBuffer::dimensions`: the width and the height.
#[verifier::external_body]
fn read_dimensions(grid: &PixelGrid) -> (size: (u32, u32))
    ensures
        size == grid_size(*grid),
{
    grid.img.dimensions()
}

/// `image::ImageBuffer::get_pixel`: the pixel at column `x`, row `y`. The
/// outside function panics when `(x, y)` lies outside the image.
#[verifier::external_body]
fn read_pixel(grid: &PixelGrid, x: u32, y: u32) -> (color: Color)
    requires
        x < grid_size(*grid).0,
        y < grid_size(*grid).1,
    ensures
        color == grid_pixels(*grid)[(x, y)],
{
    let p = grid.img.get_pixel(x, y);
    Color { r: p[0], g: p[1], b: p[2] }
}

/// `image::ImageBuffer::as_raw`: the channels of all pixels, three per pixel
/// in the order red, green, blue, row after row from the top.
#[verifier::external_body]
fn read_raw(grid: &PixelGrid) -> (bytes: &Vec<u8>)
    ensures
        is_raster_of(bytes@, *grid),
{
    grid.img.as_raw()
}

/// Whether `bytes` is the row-major RGB raster of `grid`.
pub open spec fn is_raster_of(bytes: Seq<u8>, grid: PixelGrid) -> bool {
    &&& bytes.len() == 3 * grid.width() * grid.height()
    &&& forall|x: u32, y: u32|
        x < grid.width() && y < grid.height() ==> {
            let at = 3 * (y * grid.width() + x);
            let color = #[trigger] grid.pixel(x, y);
            bytes[at] == color.r && bytes[at + 1] == color.g && bytes[at + 2] == color.b
        }
}

/// The pixel that byte `k` of a raster of `width` columns belongs to, and
/// the byte's place among the three channels of that pixel.
proof fn lemma_byte_of_pixel(width: u32, height: u32, k: int) -> (place: (u32, u32, int))
    requires
        0 <= k < 3 * width * height,
    ensures
        place.0 < width,
        place.1 < height,
        0 <= place.2 < 3,
        k == 3 * (place.1 * width + place.0) + place.2,
{
    let w = width as int;
    let h = height as int;
    assert(3 * w * h == 3 * (w * h)) by (nonlinear_arith);
    assert(w > 0) by (nonlinear_arith)
        requires
            0 <= w,
            0 < 3 * (w * h),
    ;
    let q = k / 3;
    let y = q / w;
    let x = q % w;
    lemma_fundamental_div_mod(q, w);
    lemma_mod_bound(q, w);
    assert(0 <= y < h) by (nonlinear_arith)
        requires
            w > 0,
            0 <= q < w * h,
            q == w * y + x,
            0 <= x < w,
    ;
    assert(y * w == w * y) by (nonlinear_arith);
    (x as u32, y as u32, k % 3)
}

/// A grid has one raster only, and grids that agree in size and in every
/// pixel have the same raster.
pub proof fn lemma_raster_is_unique(first: PixelGrid, second: PixelGrid, a: Seq<u8>, b: Seq<u8>)
    requires
        is_raster_of(a, first),
        is_raster_of(b, second),
        first.width() == second.width(),
        first.height() == second.height(),
        forall|x: u32, y: u32|
            x < first.width() && y < first.height() ==> first.pixel(x, y) == second.pixel(x, y),
    ensures
        a == b,
{
    assert forall|k: int| 0 <= k < a.len() implies a[k] == b[k] by {
        let (x, y, c) = lemma_byte_of_pixel(first.width(), first.height(), k);
        let one = first.pixel(x, y);
        let other = second.pixel(x, y);
        assert(one == other);
    }
    assert(a =~= b);
}

impl PixelGrid {
    /// The number of columns.
    pub open spec fn width(&self) -> u32 {
        grid_size(*self).0
    }

    /// The number of rows.
    pub open spec fn height(&self) -> u32 {
        grid_size(*self).1
    }

    /// The colour at column `x`, row `y`; meaningful inside the grid only.
    pub open spec fn pixel(&self, x: u32, y: u32) -> Color {
        grid_pixels(*self)[(x, y)]
    }

    /// Width and height, in this order.
    pub fn dimensions(&self) -> (size: (u32, u32))
        ensures
            size == (self.width(), self.height()),
    {
        read_dimensions(self)
    }

    /// The colour at column `x`, row `y`, or `None` outside the grid.
    pub fn get_pixel(&self, x: u32, y: u32) -> (color: Option<Color>)
        ensures
            color == if x < self.width() && y < self.height() {
                Some(self.pixel(x, y))
            } else {
                None
            },
    {
        let (width, height) = read_dimensions(self);
        if x < width && y < height {
            Some(read_pixel(self, x, y))
        } else {
            None
        }
    }

    /// The channels of all pixels as one row-major run of bytes.
    pub fn as_raw(&self) -> (bytes: &Vec<u8>)
        ensures
            is_raster_of(bytes@, *self),
    {
        read_raw(self)
    }
}

} // verus!
