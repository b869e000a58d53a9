//! A rectangle of pixels, and regions cut out of it.
use vstd::prelude::*;
use vstd::slice::slice_subrange;
use crate::pixel::Pixel;

verus! {

/// A width and a height.
#[derive(Debug, Copy, Clone, PartialEq, Eq, Structural)]
pub struct Size {
    /// Width
    pub width: usize,
    /// Height
    pub height: usize,
}

impl Size {
    /// A size of `width` by `height`.
    pub fn new(width: usize, height: usize) -> (s: Self)
        ensures
            s == (Size { width, height }),
    {
        Size { width, height }
    }
}

/// A place in a rectangle of pixels, counted from the top left.
#[derive(Debug, Copy, Clone, PartialEq, Eq, Structural)]
pub struct Position {
    /// Column
    pub x: usize,
    /// Row
    pub y: usize,
}

impl Position {
    /// The place in column `x` of row `y`.
    pub fn new(x: usize, y: usize) -> (p: Self)
        ensures
            p == (Position { x, y }),
    {
        Position { x, y }
    }
}

/// The buffer with `row` copied over it from place `at` on.
pub open spec fn overwrite<T>(buf: Seq<T>, at: int, row: Seq<T>) -> Seq<T> {
    Seq::new(
        buf.len(),
        |k: int|
            if at <= k < at + row.len() {
                row[k - at]
            } else {
                buf[k]
            },
    )
}

/// The buffer with each row copied over it: row `i` from the place of
/// column `position.x` in row `position.y + i` on.
pub open spec fn with_rows<T>(
    buf: Seq<T>,
    width: usize,
    position: Position,
    rows: Seq<Seq<T>>,
) -> Seq<T>
    decreases rows.len(),
{
    if rows.len() == 0 {
        buf
    } else {
        overwrite(
            with_rows(buf, width, position, rows.drop_last()),
            (position.y + rows.len() - 1) * width + position.x,
            rows.last(),
        )
    }
}

/// Every row has room in a buffer of `len` values, from its place on.
pub open spec fn rows_fit<T>(len: nat, width: usize, position: Position, rows: Seq<Seq<T>>) -> bool {
    forall|i: int|
        0 <= i < rows.len() ==> (position.y + i) * width + position.x + (#[trigger] rows[i]).len()
            <= len
}

/// The channel bytes of the pixels, four for each: red, green, blue, alpha.
pub open spec fn channel_bytes(pixels: Seq<Pixel>) -> Seq<u8>
    decreases pixels.len(),
{
    if pixels.len() == 0 {
        Seq::empty()
    } else {
        channel_bytes(pixels.drop_last()) + pixels.last().channels()
    }
}

/// Represents a region of pixels: some rows of a rectangle, each cut to the
/// same columns.
pub struct Region<'a, T> {
    inner: Vec<&'a [T]>,
}

impl<'a, T> Region<'a, T> {
    /// The rows of the region, from the top.
    pub closed spec fn view(&self) -> Seq<Seq<T>> {
        Seq::new(self.inner@.len(), |i: int| self.inner@[i]@)
    }

    /// The rows of pixels, from the top
    pub fn rows(&self) -> (rows: &Vec<&'a [T]>)
        ensures
            rows@.len() == self@.len(),
            forall|i: int| 0 <= i < rows@.len() ==> (#[trigger] rows@[i])@ == self@[i],
    {
        &self.inner
    }

    /// The pixel in column `x` of row `y` of the region.
    pub fn get(&self, x: usize, y: usize) -> (v: &T)
        requires
            y < self@.len(),
            x < self@[y as int].len(),
        ensures
            *v == self@[y as int][x as int],
    {
        &self.inner[y][x]
    }
}

/// Holds a bunch of pixels, row by row.
pub struct Pixels<T> {
    inner: Vec<T>,
    size: Size,
}

impl<T: Copy> Pixels<T> {
    /// The pixels, row by row.
    pub closed spec fn view(&self) -> Seq<T> {
        self.inner@
    }

    /// The width and the height.
    pub closed spec fn extent(&self) -> Size {
        self.size
    }

    /// There is one value for each pixel.
    pub closed spec fn wf(&self) -> bool {
        self.inner@.len() == self.size.width * self.size.height
    }

    /// The pixel in column `x` of row `y`.
    pub open spec fn at(&self, x: int, y: int) -> T {
        self@[y * self.extent().width + x]
    }

    /// There is one value for each pixel.
    pub proof fn lemma_len(&self)
        requires
            self.wf(),
        ensures
            self@.len() == self.extent().width * self.extent().height,
    {
    }

    /// Create new `Pixels` from the values of its pixels, row by row.
    pub fn new(inner: Vec<T>, size: Size) -> (p: Self)
        requires
            inner@.len() == size.width * size.height,
        ensures
            p.wf(),
            p@ == inner@,
            p.extent() == size,
    {
        Pixels { inner, size }
    }

    /// Repeat the pixel width * height times.
    pub fn from_pixel(pixel: T, size: Size) -> (p: Self)
        requires
            size.width * size.height <= usize::MAX,
        ensures
            p.wf(),
            p.extent() == size,
            p@ == Seq::new((size.width * size.height) as nat, |i: int| pixel),
    {
        let cap: usize = size.width * size.height;
        let mut inner: Vec<T> = Vec::new();
        let mut i: usize = 0;
        while i < cap
            invariant
                i <= cap,
                inner@ == Seq::new(i as nat, |k: int| pixel),
            decreases cap - i,
        {
            inner.push(pixel);
            proof {
                assert(inner@ =~= Seq::new((i + 1) as nat, |k: int| pixel));
            }
            i += 1;
        }
        Pixels { inner, size }
    }

    /// Get the size of the pixel buffer
    /// as a width and a height.
    pub fn size(&self) -> (s: Size)
        ensures
            s == self.extent(),
    {
        self.size
    }

    /// The pixel at place `index`, counted row by row.
    pub fn get(&self, index: usize) -> (v: &T)
        requires
            index < self@.len(),
        ensures
            *v == self@[index as int],
    {
        &self.inner[index]
    }

    /// Put a pixel at place `index`, counted row by row.
    pub fn set(&mut self, index: usize, pixel: T)
        requires
            old(self).wf(),
            index < old(self)@.len(),
        ensures
            final(self).wf(),
            final(self).extent() == old(self).extent(),
            final(self)@ == old(self)@.update(index as int, pixel),
    {
        self.inner[index] = pixel;
    }

    /// Get the region of `size` whose top left corner is at `position`.
    pub fn region(&self, position: Position, size: Size) -> (r: Region<'_, T>)
        requires
            self.wf(),
            self.extent().width >= size.width + position.x,
            self.extent().height >= size.height + position.y,
        ensures
            r@.len() == size.height,
            forall|row: int|
                0 <= row < size.height ==> (#[trigger] r@[row]).len() == size.width && forall|
                    col: int,
                |
                    0 <= col < size.width ==> r@[row][col] == self.at(
                        position.x + col,
                        position.y + row,
                    ),
    {
        let width = self.size.width;
        let total = self.inner.len();
        let mut rows: Vec<&[T]> = Vec::new();
        let mut row: usize = 0;
        while row < size.height
            invariant
                total == self.inner@.len(),
                row <= size.height,
                self.wf(),
                width == self.size.width,
                self.size.width >= size.width + position.x,
                self.size.height >= size.height + position.y,
                rows@.len() == row,
                forall|r: int|
                    0 <= r < row ==> (#[trigger] rows@[r])@ == self.inner@.subrange(
                        (position.y + r) * width + position.x,
                        (position.y + r) * width + position.x + size.width,
                    ),
            decreases size.height - row,
        {
            proof {
                lemma_row_in_buffer(
                    width as int,
                    self.size.height as int,
                    (position.y + row) as int,
                );
            }
            let start: usize = (position.y + row) * width + position.x;
            let line = slice_subrange(self.inner.as_slice(), start, start + size.width);
            rows.push(line);
            row += 1;
        }
        let r = Region { inner: rows };
        proof {
            assert forall|row: int| 0 <= row < size.height implies (#[trigger] r@[row]).len()
                == size.width && forall|col: int|
                0 <= col < size.width ==> r@[row][col] == self.at(
                    position.x + col,
                    position.y + row,
                ) by {
                lemma_row_in_buffer(width as int, self.size.height as int, position.y + row);
                assert(r@[row] == rows@[row]@);
            }
        }
        r
    }

    /// Copy the rows of a region over the pixels: row `i` from column
    /// `position.x` of row `position.y + i` on.
    pub fn write_region(&mut self, position: Position, region: Region<'_, T>)
        requires
            old(self).wf(),
            position.y + region@.len() <= usize::MAX,
            rows_fit(old(self)@.len(), old(self).extent().width, position, region@),
        ensures
            final(self).wf(),
            final(self).extent() == old(self).extent(),
            final(self)@ == with_rows(old(self)@, old(self).extent().width, position, region@),
    {
        let ghost before = self.inner@;
        let width = self.size.width;
        let total = self.inner.len();
        let rows = region.rows();
        let mut i: usize = 0;
        while i < rows.len()
            invariant
                total == self.inner@.len(),
                position.y + region@.len() <= usize::MAX,
                i <= rows@.len(),
                rows@.len() == region@.len(),
                forall|k: int| 0 <= k < rows@.len() ==> (#[trigger] rows@[k])@ == region@[k],
                width == self.size.width,
                self.size == old(self).size,
                self.inner@.len() == before.len(),
                before.len() == width * self.size.height,
                rows_fit(before.len(), width, position, region@),
                self.inner@ == with_rows(before, width, position, region@.take(i as int)),
            decreases rows@.len() - i,
        {
            let row = rows[i];
            proof {
                assert(region@.take(i + 1).drop_last() =~= region@.take(i as int));
                assert(region@.take(i + 1).last() == row@);
                assert(region@[i as int] == row@);
                assert(0 <= (position.y + i) * width) by (nonlinear_arith)
                    requires
                        0 <= position.y + i,
                        0 <= width,
                ;
            }
            let at: usize = (position.y + i) * width + position.x;
            let ghost start = self.inner@;
            let mut k: usize = 0;
            while k < row.len()
                invariant
                    total == self.inner@.len(),
                    self.size == old(self).size,
                    width == self.size.width,
                    k <= row@.len(),
                    at + row@.len() <= self.inner@.len(),
                    self.inner@.len() == start.len(),
                    self.inner@ == overwrite(start, at as int, row@.take(k as int)),
                decreases row@.len() - k,
            {
                self.inner[at + k] = row[k];
                proof {
                    assert(self.inner@ =~= overwrite(start, at as int, row@.take(k + 1)));
                }
                k += 1;
            }
            proof {
                assert(row@.take(row@.len() as int) =~= row@);
                assert(self.inner@ =~= overwrite(start, at as int, row@));
            }
            i += 1;
        }
        proof {
            assert(region@.take(rows@.len() as int) =~= region@);
        }
    }

    /// Insert a pixel at a given location.
    pub fn insert_pixel(&mut self, pixel: T, pos: Position)
        requires
            old(self).wf(),
            pos.x <= old(self).extent().width,
            pos.y <= old(self).extent().height,
            pos.y * old(self).extent().width + pos.x < old(self)@.len(),
        ensures
            final(self).wf(),
            final(self).extent() == old(self).extent(),
            final(self)@ == old(self)@.update(pos.y * old(self).extent().width + pos.x, pixel),
    {
        proof {
            assert(0 <= pos.y * self.size.width) by (nonlinear_arith)
                requires
                    0 <= pos.y,
                    0 <= self.size.width,
            ;
        }
        let total = self.inner.len();
        let index: usize = pos.y * self.size.width + pos.x;
        self.inner[index] = pixel;
    }
}

impl Pixels<Pixel> {
    /// The pixels as bytes: the four channels of each pixel, one pixel after
    /// the other.
    pub fn as_bytes(&self) -> (bytes: Vec<u8>)
        ensures
            bytes@ == channel_bytes(self@),
    {
        let mut bytes: Vec<u8> = Vec::new();
        let mut i: usize = 0;
        while i < self.inner.len()
            invariant
                i <= self.inner@.len(),
                bytes@ == channel_bytes(self.inner@.take(i as int)),
            decreases self.inner@.len() - i,
        {
            let p = self.inner[i];
            proof {
                assert(self.inner@.take(i + 1).drop_last() =~= self.inner@.take(i as int));
            }
            let ghost before = bytes@;
            bytes.push(p.r);
            bytes.push(p.g);
            bytes.push(p.b);
            bytes.push(p.a);
            proof {
                assert(bytes@ =~= before + p.channels());
            }
            i += 1;
        }
        proof {
            assert(self.inner@.take(self.inner@.len() as int) =~= self.inner@);
        }
        bytes
    }
}

/// A row of a rectangle lies inside its buffer.
pub proof fn lemma_row_in_buffer(width: int, height: int, y: int)
    requires
        0 <= width,
        0 <= y < height,
    ensures
        0 <= y * width,
        y * width + width <= width * height,
{
    assert(0 <= y * width && y * width + width <= width * height) by (nonlinear_arith)
        requires
            0 <= width,
            0 <= y < height,
    ;
}

} // verus!
