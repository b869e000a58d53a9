//! The atlas's backing store: one coverage byte for each pixel, row by row.
use vstd::prelude::*;
use vstd::arithmetic::div_mod::{lemma_fundamental_div_mod, lemma_mod_pos_bound};

verus! {

/// A rectangle of bytes, stored row by row from the top.
pub struct PixelGrid {
    width: u32,
    height: u32,
    data: Vec<u8>,
}

/// Where pixel `(px, py)` lies in a buffer of rows of `width` bytes.
pub open spec fn offset_of(width: u32, px: int, py: int) -> int {
    py * width + px
}

/// The place of pixel `(px, py)` in the bytes handed to a write into the
/// region at `offset` of size `size`, one row after the other.
pub open spec fn source_of(offset: (u32, u32), size: (u32, u32), px: int, py: int) -> int {
    (py - offset.1) * size.0 + (px - offset.0)
}

/// The pixel lies in the region at `offset` of size `size`.
pub open spec fn in_region(offset: (u32, u32), size: (u32, u32), px: int, py: int) -> bool {
    offset.0 <= px < offset.0 + size.0 && offset.1 <= py < offset.1 + size.1
}

/// Pixels of one row find their places inside that row of the buffer, and
/// two pixels never share a place.
pub proof fn lemma_offsets(width: u32, height: u32, px: int, py: int, qx: int, qy: int)
    requires
        0 <= px < width,
        0 <= py < height,
        0 <= qx < width,
        0 <= qy < height,
    ensures
        0 <= py * width <= offset_of(width, px, py) < width * height,
        offset_of(width, px, py) == offset_of(width, qx, qy) ==> px == qx && py == qy,
{
    assert(0 <= py * width) by (nonlinear_arith)
        requires
            0 <= py,
            0 <= width,
    ;
    assert(0 <= py * width + px < width * height) by (nonlinear_arith)
        requires
            0 <= px < width,
            0 <= py < height,
    ;
    assert(py * width + px == qy * width + qx ==> px == qx && py == qy) by (nonlinear_arith)
        requires
            0 <= px < width,
            0 <= qx < width,
            0 <= py,
            0 <= qy,
    ;
}

/// The buffer after a write: the pixels of the region take the bytes handed
/// in, row by row, as far as they go; every other byte stays.
pub open spec fn written(
    pixels: Seq<u8>,
    width: u32,
    offset: (u32, u32),
    size: (u32, u32),
    bytes: Seq<u8>,
) -> Seq<u8> {
    Seq::new(
        pixels.len(),
        |k: int|
            {
                let px = k % (width as int);
                let py = k / (width as int);
                if in_region(offset, size, px, py) && source_of(offset, size, px, py) < bytes.len() {
                    bytes[source_of(offset, size, px, py)]
                } else {
                    pixels[k]
                }
            },
    )
}

/// Each place of the buffer is the place of one pixel.
pub proof fn lemma_pixel_of(width: u32, height: u32, k: int)
    requires
        0 <= k < width * height,
    ensures
        0 <= k % (width as int) < width,
        0 <= k / (width as int) < height,
        offset_of(width, k % (width as int), k / (width as int)) == k,
{
    let w = width as int;
    assert(w > 0) by (nonlinear_arith)
        requires
            0 <= k < w * height,
            0 <= w,
    ;
    lemma_fundamental_div_mod(k, w);
    lemma_mod_pos_bound(k, w);
    let py = k / w;
    let px = k % w;
    assert(w * py == py * w) by (nonlinear_arith);
    assert(0 <= py < height) by (nonlinear_arith)
        requires
            k == py * w + px,
            0 <= px < w,
            0 <= k < w * height,
    ;
}

impl PixelGrid {
    /// The width in pixels.
    pub closed spec fn cols(&self) -> u32 {
        self.width
    }

    /// The height in pixels.
    pub closed spec fn rows(&self) -> u32 {
        self.height
    }

    /// The bytes, row by row.
    pub closed spec fn view(&self) -> Seq<u8> {
        self.data@
    }

    /// There is one byte for each pixel.
    pub closed spec fn wf(&self) -> bool {
        self.data@.len() == self.width * self.height && self.width * self.height <= usize::MAX
    }

    /// The byte of pixel `(px, py)`.
    pub open spec fn pixel(&self, px: int, py: int) -> u8 {
        self@[offset_of(self.cols(), px, py)]
    }

    /// A grid has one byte for each pixel.
    pub proof fn lemma_len(&self)
        requires
            self.wf(),
        ensures
            self@.len() == self.cols() * self.rows(),
    {
    }

    /// A grid of zero bytes.
    pub fn new(width: u32, height: u32) -> (g: Self)
        requires
            width * height <= usize::MAX,
        ensures
            g.wf(),
            g.cols() == width,
            g.rows() == height,
            g@ == Seq::new((width * height) as nat, |i: int| 0u8),
    {
        let n: usize = (width as usize) * (height as usize);
        let data: Vec<u8> = vec![0u8; n];
        proof {
            assert(data@ =~= Seq::new((width * height) as nat, |i: int| 0u8));
        }
        PixelGrid { width, height, data }
    }

    /// The width and the height.
    pub fn dimensions(&self) -> (d: (u32, u32))
        ensures
            d == (self.cols(), self.rows()),
    {
        (self.width, self.height)
    }

    /// All the bytes, row by row.
    pub fn as_bytes(&self) -> (b: &[u8])
        ensures
            b@ == self@,
    {
        self.data.as_slice()
    }

    /// The byte of one pixel.
    pub fn get(&self, px: u32, py: u32) -> (v: u8)
        requires
            self.wf(),
            px < self.cols(),
            py < self.rows(),
        ensures
            v == self.pixel(px as int, py as int),
    {
        proof {
            lemma_offsets(self.width, self.height, px as int, py as int, px as int, py as int);
            assert(self.data@.len() <= usize::MAX);
        }
        self.data[(py as usize) * (self.width as usize) + (px as usize)]
    }

    /// Write `bytes`, the rows of a region one after the other, into the
    /// region at `offset` of size `size`. Where `bytes` ends early the rest
    /// of the region stays as it was; nothing outside the region changes.
    pub fn write_region(&mut self, offset: (u32, u32), size: (u32, u32), bytes: &[u8])
        requires
            old(self).wf(),
            offset.0 + size.0 <= old(self).cols(),
            offset.1 + size.1 <= old(self).rows(),
        ensures
            final(self).wf(),
            final(self).cols() == old(self).cols(),
            final(self).rows() == old(self).rows(),
            final(self)@ == written(old(self)@, old(self).cols(), offset, size, bytes@),
            forall|px: int, py: int|
                0 <= px < old(self).cols() && 0 <= py < old(self).rows() ==> (#[trigger] final(self).pixel(
                    px,
                    py,
                )) == (if in_region(offset, size, px, py) && source_of(
                    offset,
                    size,
                    px,
                    py,
                ) < bytes@.len() {
                    bytes@[source_of(offset, size, px, py)]
                } else {
                    old(self).pixel(px, py)
                }),
    {
        let ghost before = *self;
        let mut row: u32 = 0;
        while row < size.1
            invariant
                row <= size.1,
                self.wf(),
                before.wf(),
                self.width == before.width,
                self.height == before.height,
                offset.0 + size.0 <= self.width,
                offset.1 + size.1 <= self.height,
                forall|px: int, py: int|
                    0 <= px < self.width && 0 <= py < self.height ==> #[trigger] self.pixel(px, py)
                        == (if in_region(offset, size, px, py) && py - offset.1 < row && source_of(
                        offset,
                        size,
                        px,
                        py,
                    ) < bytes@.len() {
                        bytes@[source_of(offset, size, px, py)]
                    } else {
                        before.pixel(px, py)
                    }),
            decreases size.1 - row,
        {
            let mut col: u32 = 0;
            while col < size.0
                invariant
                    row < size.1,
                    col <= size.0,
                    self.wf(),
                    before.wf(),
                    self.width == before.width,
                    self.height == before.height,
                    offset.0 + size.0 <= self.width,
                    offset.1 + size.1 <= self.height,
                    forall|px: int, py: int|
                        0 <= px < self.width && 0 <= py < self.height ==> #[trigger] self.pixel(
                            px,
                            py,
                        ) == (if in_region(offset, size, px, py) && (py - offset.1 < row || (py
                            - offset.1 == row && px - offset.0 < col)) && source_of(
                            offset,
                            size,
                            px,
                            py,
                        ) < bytes@.len() {
                            bytes@[source_of(offset, size, px, py)]
                        } else {
                            before.pixel(px, py)
                        }),
                decreases size.0 - col,
            {
                let ghost mid = *self;
                let px0: u32 = offset.0 + col;
                let py0: u32 = offset.1 + row;
                proof {
                    lemma_offsets(
                        self.width,
                        self.height,
                        px0 as int,
                        py0 as int,
                        px0 as int,
                        py0 as int,
                    );
                    lemma_offsets(size.0, size.1, col as int, row as int, col as int, row as int);
                    assert(size.0 * size.1 <= self.width * self.height) by (nonlinear_arith)
                        requires
                            size.0 <= self.width,
                            size.1 <= self.height,
                    ;
                    assert(self.data@.len() <= usize::MAX);
                }
                let src: usize = (row as usize) * (size.0 as usize) + (col as usize);
                if src < bytes.len() {
                    let dst: usize = (py0 as usize) * (self.width as usize) + (px0 as usize);
                    self.data[dst] = bytes[src];
                    proof {
                        assert forall|px: int, py: int|
                            0 <= px < self.width && 0 <= py < self.height implies #[trigger] self.pixel(
                            px,
                            py,
                        ) == (if px == px0 && py == py0 {
                            bytes@[src as int]
                        } else {
                            mid.pixel(px, py)
                        }) by {
                            lemma_offsets(self.width, self.height, px, py, px0 as int, py0 as int);
                        }
                    }
                }
                col += 1;
            }
            row += 1;
        }
        proof {
            let after = written(before@, before.width, offset, size, bytes@);
            assert forall|k: int| 0 <= k < self.data@.len() implies self.data@[k] == after[k] by {
                lemma_pixel_of(self.width, self.height, k);
                let px = k % (self.width as int);
                let py = k / (self.width as int);
                assert(self.pixel(px, py) == self.data@[k]);
                assert(before.pixel(px, py) == before.data@[k]);
            }
            assert(self.data@ =~= after);
        }
    }
}

} // verus!
