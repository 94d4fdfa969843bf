//! The canonical in-memory pixel representation that every stage of the
//! solver consumes: a rectangular grid of RGBA pixels.

use vstd::prelude::*;

verus! {

/// One RGBA pixel. Only the alpha channel decides whether a pixel belongs to
/// an icon's silhouette; the color channels matter solely for delimiter
/// detection in the segmenter.
#[derive(Clone, Copy, Debug, PartialEq, Eq, Structural)]
pub struct Pixel {
    pub r: u8,
    pub g: u8,
    pub b: u8,
    pub a: u8,
}

/// The fully transparent pixel used to default-initialize silhouette buffers.
pub open spec fn transparent() -> Pixel {
    Pixel { r: 0, g: 0, b: 0, a: 0 }
}

/// A rectangular RGBA image, stored as rows of pixels in raster order.
/// Every component of the solver works on this one type; decoding an image
/// container into it is a caller's concern.
pub struct PixelBuffer {
    pub width: u32,
    pub height: u32,
    pub rows: Vec<Vec<Pixel>>,
}

impl PixelBuffer {
    /// The mathematical model of a buffer: a sequence of rows, each a
    /// sequence of pixels.
    pub open spec fn grid(self) -> Seq<Seq<Pixel>> {
        self.rows@.map_values(|r: Vec<Pixel>| r@)
    }

    /// Well-formedness: the row and column counts match the stated
    /// dimensions.
    pub open spec fn wf(self) -> bool {
        &&& self.grid().len() == self.height as int
        &&& forall|y: int|
            0 <= y < self.height as int ==> (#[trigger] self.grid()[y]).len() == self.width as int
    }

    /// The pixel at column `x` of row `y`.
    pub open spec fn pix(self, x: int, y: int) -> Pixel {
        self.grid()[y][x]
    }

    /// Read one pixel.
    pub fn get(&self, x: u32, y: u32) -> (p: Pixel)
        requires
            self.wf(),
            x < self.width,
            y < self.height,
        ensures
            p == self.pix(x as int, y as int),
    {
        let row: &Vec<Pixel> = &self.rows[y as usize];
        proof {
            assert(self.grid()[y as int] == self.rows@[y as int]@);
        }
        row[x as usize]
    }

    /// Build a buffer from plain rows, checking that they form a rectangle
    /// of the stated dimensions. This is the door through which callers that
    /// decoded an image container hand the solver its input.
    pub fn from_rows(width: u32, height: u32, rows: Vec<Vec<Pixel>>) -> (r: Option<PixelBuffer>)
        ensures
            match r {
                Some(b) => {
                    &&& b.wf()
                    &&& b.width == width
                    &&& b.height == height
                    &&& b.grid() == rows@.map_values(|row: Vec<Pixel>| row@)
                    &&& rows@.len() == height as int
                    &&& forall|y: int|
                        0 <= y < height as int ==> (#[trigger] rows@[y]@).len() == width as int
                },
                None => {
                    ||| rows@.len() != height as int
                    ||| exists|y: int|
                        0 <= y < height as int && (#[trigger] rows@[y]@).len() != width as int
                },
            },
    {
        if rows.len() != height as usize {
            return None;
        }
        for y in 0..rows.len()
            invariant
                rows@.len() == height as int,
                forall|yy: int| 0 <= yy < y ==> (#[trigger] rows@[yy]@).len() == width as int,
        {
            if rows[y].len() != width as usize {
                return None;
            }
        }
        Some(PixelBuffer { width, height, rows })
    }
}

/// Two well-formed buffers of equal dimensions whose pixels agree everywhere
/// have equal grids.
pub proof fn lemma_grid_pointwise_eq(a: PixelBuffer, b: PixelBuffer)
    requires
        a.wf(),
        b.wf(),
        a.width == b.width,
        a.height == b.height,
        forall|x: int, y: int|
            0 <= x < a.width as int && 0 <= y < a.height as int ==> a.pix(x, y) == #[trigger] b.pix(
                x,
                y,
            ),
    ensures
        a.grid() == b.grid(),
{
    assert forall|y: int| 0 <= y < a.height as int implies a.grid()[y] =~= b.grid()[y] by {
        assert forall|x: int| 0 <= x < a.width as int implies a.grid()[y][x] == b.grid()[y][x] by {
            assert(a.pix(x, y) == b.pix(x, y));
        }
    }
    assert(a.grid() =~= b.grid());
}

} // verus!
