//! Bitmap passability maps.
//!
//! A [`Bitmap`] is a row-major grid of bytes over which rectangular
//! occupancy queries are answered: a pixel whose byte is zero blocks
//! movement, any other value is passable.

use vstd::prelude::*;
use crate::geometry::OverworldRect;

verus! {

/// A row-major grid of `width * height` bytes; the byte at `(x, y)` sits at
/// index `y * width + x`. A zero byte marks an occupied (impassable) pixel.
#[derive(Clone, Copy)]
pub struct Bitmap {
    width: usize,
    height: usize,
    data: &'static [u8],
}

impl Bitmap {
    /// The number of pixels in one row.
    pub closed spec fn spec_width(self) -> usize {
        self.width
    }

    /// The number of rows.
    pub closed spec fn spec_height(self) -> usize {
        self.height
    }

    /// The underlying bytes, one per pixel, row-major.
    pub closed spec fn spec_data(self) -> Seq<u8> {
        self.data@
    }

    /// The grid is exactly as large as its dimensions claim.
    pub open spec fn wf(self) -> bool {
        self.spec_data().len() == self.spec_width() * self.spec_height()
    }

    /// Whether the pixel at `(x, y)` is occupied (blocks movement).
    pub open spec fn spec_pixel_occupied(self, x: int, y: int) -> bool {
        self.spec_data()[y * self.spec_width() + x] == 0
    }

    /// Whether any pixel of `rect` — minimum corner included, maximum corner
    /// excluded, as for a half-open range on each axis — is occupied.
    pub open spec fn spec_rect_occupied(self, rect: OverworldRect<usize>) -> bool {
        exists|x: int, y: int|
            rect.min.x <= x < rect.max.x && rect.min.y <= y < rect.max.y
                && self.spec_pixel_occupied(x, y)
    }

    /// Wraps `data` as a grid of the given dimensions. The byte count must
    /// match the dimensions exactly.
    pub fn new(width: usize, height: usize, data: &'static [u8]) -> (r: Self)
        requires
            data@.len() == width * height,
        ensures
            r.wf(),
            r.spec_width() == width,
            r.spec_height() == height,
            r.spec_data() == data@,
    {
        Self { width, height, data }
    }

    /// The row-major index of the pixel at `(x, y)`.
    fn index(&self, x: usize, y: usize) -> (r: usize)
        requires
            self.wf(),
            x < self.spec_width(),
            y < self.spec_height(),
        ensures
            r == y * self.spec_width() + x,
            r < self.spec_data().len(),
    {
        let byte_count = self.data.len();
        proof {
            lemma_row_major_index_in_range(
                x as int,
                y as int,
                self.spec_width() as int,
                self.spec_height() as int,
            );
        }
        y * self.width + x
    }

    /// Whether the pixel at `(x, y)` blocks movement.
    pub fn pixel_occupied(&self, x: usize, y: usize) -> (r: bool)
        requires
            self.wf(),
            x < self.spec_width(),
            y < self.spec_height(),
        ensures
            r == self.spec_pixel_occupied(x as int, y as int),
    {
        let index = self.index(x, y);
        self.data[index] == 0
    }

    /// Whether any pixel of `rect` (half-open on each axis) blocks movement.
    ///
    /// The corners must be ordered and the maximal corner's row-major index
    /// must fall inside the grid's bytes; a rectangle that does not satisfy
    /// this cannot be asked about.
    pub fn rect_occupied(&self, rect: &OverworldRect<usize>) -> (r: bool)
        requires
            self.wf(),
            rect.min.x <= rect.max.x,
            rect.min.y <= rect.max.y,
            rect.max.y * self.spec_width() + rect.max.x < self.spec_data().len(),
        ensures
            r == self.spec_rect_occupied(*rect),
    {
        let width = self.width;
        let byte_count = self.data.len();
        let mut y = rect.min.y;
        while y < rect.max.y
            invariant
                self.wf(),
                rect.min.y <= y <= rect.max.y,
                rect.min.x <= rect.max.x,
                rect.max.y * self.spec_width() + rect.max.x < self.spec_data().len(),
                width == self.spec_width(),
                byte_count == self.spec_data().len(),
                forall|xx: int, yy: int|
                    rect.min.x <= xx < rect.max.x && rect.min.y <= yy < y
                        ==> !self.spec_pixel_occupied(xx, yy),
            decreases rect.max.y - y,
        {
            let mut x = rect.min.x;
            while x < rect.max.x
                invariant
                    self.wf(),
                    rect.min.y <= y < rect.max.y,
                    rect.min.x <= x <= rect.max.x,
                    rect.max.y * self.spec_width() + rect.max.x < self.spec_data().len(),
                    width == self.spec_width(),
                    byte_count == self.spec_data().len(),
                    forall|xx: int|
                        rect.min.x <= xx < x ==> !self.spec_pixel_occupied(xx, y as int),
                decreases rect.max.x - x,
            {
                proof {
                    lemma_row_major_index_below_corner(
                        x as int,
                        y as int,
                        rect.max.x as int,
                        rect.max.y as int,
                        self.spec_width() as int,
                    );
                }
                let index = y * width + x;
                if self.data[index] == 0 {
                    assert(self.spec_pixel_occupied(x as int, y as int));
                    return true;
                }
                x = x + 1;
            }
            y = y + 1;
        }
        false
    }

    pub fn width(&self) -> (r: usize)
        ensures
            r == self.spec_width(),
    {
        self.width
    }

    pub fn height(&self) -> (r: usize)
        ensures
            r == self.spec_height(),
    {
        self.height
    }
}

/// Inside the grid, a pixel's row-major index is below the byte count.
proof fn lemma_row_major_index_in_range(x: int, y: int, width: int, height: int)
    requires
        0 <= x < width,
        0 <= y < height,
    ensures
        0 <= y * width + x < width * height,
{
    assert(y * width + x < width * height) by (nonlinear_arith)
        requires
            0 <= x < width,
            0 <= y < height,
    {
    }
    assert(0 <= y * width) by (nonlinear_arith)
        requires
            0 <= y,
            0 < width,
    {
    }
}

/// Strictly inside the rectangle, a pixel's row-major index stays below the
/// index of the rectangle's maximal corner.
proof fn lemma_row_major_index_below_corner(x: int, y: int, max_x: int, max_y: int, width: int)
    requires
        0 <= x < max_x,
        0 <= y < max_y,
        0 <= width,
    ensures
        0 <= y * width + x < max_y * width + max_x,
{
    assert(y * width <= max_y * width) by (nonlinear_arith)
        requires
            y <= max_y,
            0 <= width,
    {
    }
    assert(0 <= y * width) by (nonlinear_arith)
        requires
            0 <= y,
            0 <= width,
    {
    }
}

} // verus!
