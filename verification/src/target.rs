//! The target image that every fitness evaluation reads.

use vstd::prelude::*;
use crate::color::Rgb;

verus! {

/// A square RGB image, stored row-major. The side length is capped so
/// that coordinates also fit the animation encoder's 16-bit dimensions.
pub struct TargetImage {
    pub size: usize,
    pub pixels: Vec<Rgb>,
}

impl TargetImage {
    pub open spec fn wf(self) -> bool {
        &&& 1 <= self.size <= 0xFFFF
        &&& self.pixels@.len() == self.size * self.size
    }

    /// The color at a row and column.
    pub open spec fn spec_at(self, row: int, col: int) -> Rgb
        recommends
            self.wf(),
            0 <= row < self.size,
            0 <= col < self.size,
    {
        self.pixels@[row * self.size + col]
    }

    /// Wraps a side length and row-major pixels; refused unless the side
    /// length is positive, fits 16 bits, and matches the pixel count.
    pub fn new(size: usize, pixels: Vec<Rgb>) -> (t: Option<TargetImage>)
        ensures
            t is Some <==> (1 <= size <= 0xFFFF && pixels@.len() == size * size),
            t matches Some(img) ==> img.wf() && img.size == size && img.pixels@ == pixels@,
    {
        if 1 <= size && size <= 0xFFFF {
            proof {
                lemma_square_fits(size as int);
            }
            let need = size * size;
            if pixels.len() == need {
                Some(TargetImage { size, pixels })
            } else {
                None
            }
        } else {
            None
        }
    }

    /// Reads the color at a row and column.
    pub fn at(&self, row: usize, col: usize) -> (c: Rgb)
        requires
            self.wf(),
            row < self.size,
            col < self.size,
        ensures
            c == self.spec_at(row as int, col as int),
    {
        proof {
            lemma_square_fits(self.size as int);
            lemma_row_major_bound(row as int, col as int, self.size as int);
        }
        self.pixels[row * self.size + col]
    }
}

/// The pixel count of a square image with a 16-bit side fits `usize`.
pub proof fn lemma_square_fits(size: int)
    requires
        0 <= size <= 0xFFFF,
    ensures
        size * size <= 0xFFFF * 0xFFFF,
{
    assert(size * size <= 0xFFFF * 0xFFFF) by (nonlinear_arith)
        requires
            0 <= size <= 0xFFFF,
    ;
}

/// Cells of rows already filled sit below the next row's start.
pub proof fn lemma_row_major_le(yy: int, xx: int, y: int, size: int)
    requires
        0 <= yy < y,
        0 <= xx < size,
    ensures
        yy * size + xx < y * size,
{
    assert(yy * size + xx < y * size) by (nonlinear_arith)
        requires
            0 <= yy < y,
            0 <= xx < size,
    ;
}

/// A row-major index lies inside the square.
pub proof fn lemma_row_major_bound(row: int, col: int, size: int)
    requires
        0 <= row < size,
        0 <= col < size,
    ensures
        0 <= row * size + col < size * size,
{
    assert(0 <= row * size + col < size * size) by (nonlinear_arith)
        requires
            0 <= row < size,
            0 <= col < size,
    ;
}

/// The gradient pixel at column `x`, row `y`: red grows with the column,
/// green with the row, blue with their sum.
pub open spec fn sample_pixel(x: int, y: int, size: int) -> Rgb
    recommends
        1 <= size,
        0 <= x < size,
        0 <= y < size,
{
    Rgb {
        r: (x * 255 / size) as u8,
        g: (y * 255 / size) as u8,
        b: ((x + y) * 255 / (size * 2)) as u8,
    }
}

/// Builds the deterministic synthetic gradient used when no target image
/// can be loaded.
pub fn create_sample_image(size: usize) -> (t: TargetImage)
    requires
        1 <= size <= 0xFFFF,
    ensures
        t.wf(),
        t.size == size,
        forall|y: int, x: int|
            0 <= y < size && 0 <= x < size ==> t.spec_at(y, x) == sample_pixel(
                x,
                y,
                size as int,
            ),
{
    let mut pixels: Vec<Rgb> = Vec::new();
    let mut y: usize = 0;
    while y < size
        invariant
            1 <= size <= 0xFFFF,
            y <= size,
            pixels@.len() == y * size,
            forall|yy: int, xx: int|
                0 <= yy < y && 0 <= xx < size ==> pixels@[yy * size + xx] == sample_pixel(
                    xx,
                    yy,
                    size as int,
                ),
        decreases size - y,
    {
        let mut x: usize = 0;
        while x < size
            invariant
                1 <= size <= 0xFFFF,
                y < size,
                x <= size,
                pixels@.len() == y * size + x,
                forall|yy: int, xx: int|
                    0 <= yy < y && 0 <= xx < size ==> pixels@[yy * size + xx] == sample_pixel(
                        xx,
                        yy,
                        size as int,
                    ),
                forall|xx: int|
                    0 <= xx < x ==> pixels@[y * size + xx] == sample_pixel(xx, y as int, size as int),
            decreases size - x,
        {
            proof {
                lemma_square_fits(size as int);
                lemma_row_major_bound(y as int, x as int, size as int);
                lemma_sample_channel_bounds(x as int, y as int, size as int);
            }
            let r = (x * 255 / size) as u8;
            let g = (y * 255 / size) as u8;
            let b = ((x + y) * 255 / (size * 2)) as u8;
            pixels.push(Rgb { r, g, b });
            proof {
                assert forall|yy: int, xx: int| 0 <= yy < y && 0 <= xx < size implies pixels@[yy
                    * size + xx] == sample_pixel(xx, yy, size as int) by {
                    lemma_row_major_le(yy, xx, y as int, size as int);
                }
            }
            x = x + 1;
        }
        proof {
            assert(y * size + size == (y + 1) * size) by (nonlinear_arith);
            assert forall|yy: int, xx: int| 0 <= yy < y + 1 && 0 <= xx < size implies pixels@[yy
                * size + xx] == sample_pixel(xx, yy, size as int) by {
                lemma_row_major_le(yy, xx, y as int + 1, size as int);
                if yy < y {
                } else {
                    assert(pixels@[y * size + xx] == sample_pixel(xx, y as int, size as int));
                }
            }
        }
        y = y + 1;
    }
    let t = TargetImage { size, pixels };
    proof {
        assert forall|y0: int, x0: int| 0 <= y0 < size && 0 <= x0 < size implies t.spec_at(y0, x0)
            == sample_pixel(x0, y0, size as int) by {
            lemma_row_major_bound(y0, x0, size as int);
        }
    }
    t
}

/// The gradient channels stay inside a byte.
proof fn lemma_sample_channel_bounds(x: int, y: int, size: int)
    requires
        1 <= size,
        0 <= x < size,
        0 <= y < size,
    ensures
        0 <= x * 255 / size < 255,
        0 <= y * 255 / size < 255,
        0 <= (x + y) * 255 / (size * 2) < 255,
        x * 255 <= 255 * size,
        (x + y) * 255 <= 255 * 2 * size,
    decreases 0int,
{
    assert(0 <= x * 255 / size < 255 && x * 255 <= 255 * size) by (nonlinear_arith)
        requires
            1 <= size,
            0 <= x < size,
    ;
    assert(0 <= y * 255 / size < 255) by (nonlinear_arith)
        requires
            1 <= size,
            0 <= y < size,
    ;
    assert(0 <= (x + y) * 255 / (size * 2) < 255 && (x + y) * 255 <= 255 * 2 * size)
        by (nonlinear_arith)
        requires
            1 <= size,
            0 <= x < size,
            0 <= y < size,
    ;
}

} // verus!
