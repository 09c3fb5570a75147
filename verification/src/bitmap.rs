//! A row-major RGB pixel buffer.
//!
//! Chunks are rasterized into bitmaps: a solid fill for a uniform chunk, a
//! square block per tile otherwise, and an optional border overlay. The
//! buffer exposes exactly the drawing primitive that rasterization needs:
//! filling an axis-aligned rectangle.

use vstd::prelude::*;

use crate::tile_kind::Color;

verus! {

/// A `width` by `height` grid of colors, row-major, row zero at the top.
pub struct Bitmap {
    pub width: u32,
    pub height: u32,
    pub pixels: Vec<Color>,
}

/// The flat row-major index of pixel column `x` in row `y`.
pub open spec fn pixel_index(width: int, x: int, y: int) -> int {
    y * width + x
}

/// A flat row-major index lies inside the buffer.
proof fn lemma_pixel_index_in_bounds(width: int, height: int, x: int, y: int)
    requires
        0 <= x < width,
        0 <= y < height,
    ensures
        0 <= pixel_index(width, x, y) < width * height,
{
    assert(0 <= y * width + x < width * height) by (nonlinear_arith)
        requires
            0 <= x < width,
            0 <= y < height,
    ;
}

/// Row-major indexing is injective: distinct pixel coordinates never share
/// a flat index.
proof fn lemma_pixel_index_injective(width: int, x1: int, y1: int, x2: int, y2: int)
    requires
        0 <= x1 < width,
        0 <= x2 < width,
        0 <= y1,
        0 <= y2,
        pixel_index(width, x1, y1) == pixel_index(width, x2, y2),
    ensures
        x1 == x2,
        y1 == y2,
{
    assert(y1 * width + x1 == y2 * width + x2 ==> x1 == x2 && y1 == y2) by (nonlinear_arith)
        requires
            0 <= x1 < width,
            0 <= x2 < width,
            0 <= y1,
            0 <= y2,
    ;
}

impl Bitmap {
    /// A well-formed buffer: one color per pixel, with each side small
    /// enough that flat indices fit the machine's word size.
    pub open spec fn wf(self) -> bool {
        &&& self.pixels@.len() == self.width * self.height
        &&& self.width <= 32768
        &&& self.height <= 32768
    }

    /// The color of the pixel in column `x` of row `y`.
    pub open spec fn pixel_spec(self, x: int, y: int) -> Color {
        self.pixels@[pixel_index(self.width as int, x, y)]
    }

    /// Creates a buffer of the given dimensions filled with one color.
    pub fn new_filled(width: u32, height: u32, color: Color) -> (bitmap: Bitmap)
        requires
            width <= 32768,
            height <= 32768,
        ensures
            bitmap.wf(),
            bitmap.width == width,
            bitmap.height == height,
            forall|x: int, y: int|
                0 <= x < width && 0 <= y < height ==> #[trigger] bitmap.pixel_spec(x, y) == color,
    {
        proof {
            assert(width * height <= 32768 * 32768) by (nonlinear_arith)
                requires
                    width <= 32768,
                    height <= 32768,
            ;
        }
        let total: usize = (width as usize) * (height as usize);
        let mut pixels: Vec<Color> = Vec::new();
        let mut n: usize = 0;
        while n < total
            invariant
                total == width * height,
                n <= total,
                pixels@.len() == n as nat,
                forall|i: int| 0 <= i < n ==> pixels@[i] == color,
            decreases total - n,
        {
            pixels.push(color);
            n += 1;
        }
        let bitmap = Bitmap { width, height, pixels };
        proof {
            assert forall|x: int, y: int|
                0 <= x < width && 0 <= y < height implies #[trigger] bitmap.pixel_spec(x, y)
                == color by {
                lemma_pixel_index_in_bounds(width as int, height as int, x, y);
            }
        }
        bitmap
    }

    /// The color of one pixel.
    pub fn pixel(&self, x: u32, y: u32) -> (color: Color)
        requires
            self.wf(),
            x < self.width,
            y < self.height,
        ensures
            color == self.pixel_spec(x as int, y as int),
    {
        proof {
            lemma_pixel_index_in_bounds(self.width as int, self.height as int, x as int, y as int);
            assert(y * self.width + x < 0x40000000) by (nonlinear_arith)
                requires
                    x < self.width,
                    y < self.height,
                    self.width <= 32768,
                    self.height <= 32768,
            ;
        }
        let index: usize = (y as usize) * (self.width as usize) + (x as usize);
        self.pixels[index]
    }

    /// Fills the axis-aligned rectangle of size `w` by `h` whose top-left
    /// corner is `(x, y)` with one color, leaving every other pixel as it
    /// was.
    pub fn fill_rect(&mut self, x: u32, y: u32, w: u32, h: u32, color: Color)
        requires
            old(self).wf(),
            x + w <= old(self).width,
            y + h <= old(self).height,
        ensures
            final(self).wf(),
            final(self).width == old(self).width,
            final(self).height == old(self).height,
            forall|px: int, py: int|
                0 <= px < old(self).width && 0 <= py < old(self).height
                    ==> #[trigger] final(self).pixel_spec(px, py) == (if x <= px < x + w && y <= py
                    < y + h {
                    color
                } else {
                    old(self).pixel_spec(px, py)
                }),
    {
        let width = self.width;
        let height = self.height;
        let mut j: u32 = y;
        while j < y + h
            invariant
                self.wf(),
                self.width == width,
                self.height == height,
                x + w <= width,
                y + h <= height,
                y <= j <= y + h,
                forall|px: int, py: int|
                    0 <= px < width && 0 <= py < height ==> #[trigger] self.pixel_spec(px, py) == (
                    if x <= px < x + w && y <= py < j {
                        color
                    } else {
                        old(self).pixel_spec(px, py)
                    }),
            decreases y + h - j,
        {
            let mut i: u32 = x;
            while i < x + w
                invariant
                    self.wf(),
                    self.width == width,
                    self.height == height,
                    x + w <= width,
                    y + h <= height,
                    y <= j < y + h,
                    x <= i <= x + w,
                    forall|px: int, py: int|
                        0 <= px < width && 0 <= py < height ==> #[trigger] self.pixel_spec(px, py)
                            == (if x <= px < x + w && y <= py < j || py == j && x <= px < i {
                            color
                        } else {
                            old(self).pixel_spec(px, py)
                        }),
                decreases x + w - i,
            {
                proof {
                    lemma_pixel_index_in_bounds(width as int, height as int, i as int, j as int);
                    assert(j * width + i < 0x40000000) by (nonlinear_arith)
                        requires
                            i < width,
                            j < height,
                            width <= 32768,
                            height <= 32768,
                    ;
                }
                let index: usize = (j as usize) * (width as usize) + (i as usize);
                let ghost before = *self;
                self.pixels[index] = color;
                proof {
                    assert forall|px: int, py: int| 0 <= px < width && 0 <= py < height implies #[trigger] self.pixel_spec(px, py) == (
                        if x <= px < x + w && y <= py < j || py == j && x <= px < i + 1 {
                            color
                        } else {
                            old(self).pixel_spec(px, py)
                        }) by {
                        lemma_pixel_index_in_bounds(width as int, height as int, px, py);
                        if pixel_index(width as int, px, py) == pixel_index(
                            width as int,
                            i as int,
                            j as int,
                        ) {
                            lemma_pixel_index_injective(
                                width as int,
                                px,
                                py,
                                i as int,
                                j as int,
                            );
                        } else {
                            assert(self.pixel_spec(px, py) == before.pixel_spec(px, py));
                        }
                    }
                }
                i += 1;
            }
            j += 1;
        }
    }
}

} // verus!
