use vstd::prelude::*;

verus! {

/// Why a canvas refused to read or write a pixel.
#[derive(Debug, Clone, Copy, PartialEq, Eq, Structural)]
pub enum CanvasError {
    /// The coordinate lies outside the canvas.
    OutOfRange,
}

/// A `width` x `height` framebuffer of pixels of type `P`, stored row by row.
///
/// The pixel at column `x` and row `y` sits at position `y * width + x` of the
/// backing vector.
pub struct Canvas<P> {
    width: usize,
    height: usize,
    pixels: Vec<P>,
}

/// Position of column `x`, row `y` in a row-major grid `width` columns wide.
pub open spec fn grid_index(x: int, y: int, width: int) -> int {
    y * width + x
}

proof fn lemma_grid_index_bounds(x: int, y: int, width: int, height: int)
    requires
        0 <= x < width,
        0 <= y < height,
    ensures
        0 <= grid_index(x, y, width) < width * height,
{
    assert(y * width + x < width * height) by (nonlinear_arith)
        requires
            0 <= x < width,
            0 <= y < height,
    ;
    assert(0 <= y * width) by (nonlinear_arith)
        requires
            0 <= y,
            0 <= width,
    ;
}

proof fn lemma_grid_index_injective(x1: int, y1: int, x2: int, y2: int, width: int)
    requires
        0 <= x1 < width,
        0 <= x2 < width,
        0 <= y1,
        0 <= y2,
        grid_index(x1, y1, width) == grid_index(x2, y2, width),
    ensures
        x1 == x2,
        y1 == y2,
{
    if y1 < y2 {
        assert(y1 * width + width <= y2 * width) by (nonlinear_arith)
            requires
                y1 < y2,
                0 <= width,
        ;
    } else if y2 < y1 {
        assert(y2 * width + width <= y1 * width) by (nonlinear_arith)
            requires
                y2 < y1,
                0 <= width,
        ;
    }
}

impl<P> Canvas<P> {
    /// The backing vector holds exactly one pixel per coordinate, and the
    /// pixel count fits a `usize`.
    pub closed spec fn wf(&self) -> bool {
        &&& self.width * self.height <= usize::MAX
        &&& self.pixels@.len() == self.width * self.height
    }

    pub closed spec fn spec_width(&self) -> nat {
        self.width as nat
    }

    pub closed spec fn spec_height(&self) -> nat {
        self.height as nat
    }

    /// Whether column `x`, row `y` lies on the canvas.
    pub open spec fn in_bounds(&self, x: int, y: int) -> bool {
        0 <= x < self.spec_width() && 0 <= y < self.spec_height()
    }

    /// The pixel stored at column `x`, row `y` (meaningful when in bounds).
    pub closed spec fn pixel(&self, x: int, y: int) -> P {
        self.pixels@[grid_index(x, y, self.width as int)]
    }

    /// What reading column `x`, row `y` gives.
    pub open spec fn read(&self, x: int, y: int) -> Result<P, CanvasError> {
        if self.in_bounds(x, y) {
            Ok(self.pixel(x, y))
        } else {
            Err(CanvasError::OutOfRange)
        }
    }

    /// `after` is `before` with the pixel at column `x`, row `y` replaced by
    /// `color` when that coordinate is on the canvas, and unchanged otherwise.
    pub open spec fn written(before: Self, after: Self, color: P, x: int, y: int) -> bool {
        &&& after.wf()
        &&& after.spec_width() == before.spec_width()
        &&& after.spec_height() == before.spec_height()
        &&& forall|i: int, j: int|
            #![trigger after.pixel(i, j)]
            after.in_bounds(i, j) ==> after.pixel(i, j) == if i == x && j == y {
                color
            } else {
                before.pixel(i, j)
            }
    }

    pub fn width(&self) -> (r: usize)
        ensures
            r == self.spec_width(),
    {
        self.width
    }

    pub fn height(&self) -> (r: usize)
        ensures
            r == self.spec_height(),
    {
        self.height
    }

    /// Position of column `x`, row `y` in the row-major pixel order.
    pub fn get_index(&self, x: usize, y: usize) -> (r: Result<usize, CanvasError>)
        requires
            self.wf(),
        ensures
            self.in_bounds(x as int, y as int) ==> r == Ok::<usize, CanvasError>(
                grid_index(x as int, y as int, self.spec_width() as int) as usize,
            ),
            !self.in_bounds(x as int, y as int) ==> r == Err::<usize, CanvasError>(
                CanvasError::OutOfRange,
            ),
    {
        if x < self.width && y < self.height {
            proof {
                lemma_grid_index_bounds(x as int, y as int, self.width as int, self.height as int);
            }
            Ok(y * self.width + x)
        } else {
            Err(CanvasError::OutOfRange)
        }
    }

    /// A reference to the pixel at column `x`, row `y`, or an error off the
    /// canvas.
    pub fn get_pixel_ref(&self, x: usize, y: usize) -> (r: Result<&P, CanvasError>)
        requires
            self.wf(),
        ensures
            r is Ok <==> self.in_bounds(x as int, y as int),
            r matches Ok(p) ==> *p == self.pixel(x as int, y as int),
            r is Err ==> r == Err::<&P, CanvasError>(CanvasError::OutOfRange),
    {
        match self.get_index(x, y) {
            Ok(i) => {
                proof {
                    lemma_grid_index_bounds(x as int, y as int, self.width as int, self.height as int);
                }
                Ok(&self.pixels[i])
            },
            Err(e) => Err(e),
        }
    }
}

impl<P: Copy> Canvas<P> {
    /// A `width` x `height` canvas with every pixel set to `blank`.
    pub fn new(width: usize, height: usize, blank: P) -> (r: Self)
        requires
            width * height <= usize::MAX,
        ensures
            r.wf(),
            r.spec_width() == width,
            r.spec_height() == height,
            forall|x: int, y: int| r.in_bounds(x, y) ==> #[trigger] r.pixel(x, y) == blank,
    {
        let n: usize = width * height;
        let mut pixels: Vec<P> = Vec::with_capacity(n);
        let mut i: usize = 0;
        while i < n
            invariant
                i <= n,
                pixels@.len() == i,
                forall|k: int| 0 <= k < i ==> pixels@[k] == blank,
            decreases n - i,
        {
            pixels.push(blank);
            i = i + 1;
        }
        let r = Canvas { width, height, pixels };
        assert forall|x: int, y: int| r.in_bounds(x, y) implies #[trigger] r.pixel(x, y) == blank by {
            lemma_grid_index_bounds(x, y, width as int, height as int);
        }
        r
    }

    /// Replaces the pixel at `pos` (column, row) with `color`; a coordinate
    /// off the canvas leaves it unchanged.
    pub fn write_pixel(&mut self, color: P, pos: (usize, usize))
        requires
            old(self).wf(),
        ensures
            Self::written(*old(self), *final(self), color, pos.0 as int, pos.1 as int),
    {
        let (x, y) = pos;
        if x < self.width && y < self.height {
            proof {
                lemma_grid_index_bounds(x as int, y as int, self.width as int, self.height as int);
            }
            let i = y * self.width + x;
            self.pixels.set(i, color);
            proof {
                assert forall|a: int, b: int|
                    #![trigger self.pixel(a, b)]
                    self.in_bounds(a, b) && !(a == x && b == y) implies self.pixel(a, b)
                    == old(self).pixel(a, b) by {
                    lemma_grid_index_bounds(a, b, self.width as int, self.height as int);
                    if grid_index(a, b, self.width as int) == i {
                        lemma_grid_index_injective(a, b, x as int, y as int, self.width as int);
                    }
                }
            }
        }
    }

    /// Replaces the pixel at column `x`, row `y` with `color`, or reports a
    /// coordinate off the canvas and leaves it unchanged.
    pub fn set_pixel(&mut self, x: usize, y: usize, color: P) -> (r: Result<(), CanvasError>)
        requires
            old(self).wf(),
        ensures
            Self::written(*old(self), *final(self), color, x as int, y as int),
            r == if old(self).in_bounds(x as int, y as int) {
                Ok::<(), CanvasError>(())
            } else {
                Err(CanvasError::OutOfRange)
            },
    {
        if x < self.width && y < self.height {
            self.write_pixel(color, (x, y));
            Ok(())
        } else {
            Err(CanvasError::OutOfRange)
        }
    }

    /// The pixel at `pos` (column, row), or an error off the canvas.
    pub fn pixel_at(&self, pos: (usize, usize)) -> (r: Result<P, CanvasError>)
        requires
            self.wf(),
        ensures
            r == self.read(pos.0 as int, pos.1 as int),
    {
        self.get_pixel(pos.0, pos.1)
    }

    /// The pixel at column `x`, row `y`, or an error off the canvas.
    pub fn get_pixel(&self, x: usize, y: usize) -> (r: Result<P, CanvasError>)
        requires
            self.wf(),
        ensures
            r == self.read(x as int, y as int),
    {
        match self.get_index(x, y) {
            Ok(i) => {
                proof {
                    lemma_grid_index_bounds(x as int, y as int, self.width as int, self.height as int);
                }
                Ok(self.pixels[i])
            },
            Err(e) => Err(e),
        }
    }

    /// Sets every pixel of the canvas to `color`.
    pub fn set_all(&mut self, color: P)
        requires
            old(self).wf(),
        ensures
            final(self).wf(),
            final(self).spec_width() == old(self).spec_width(),
            final(self).spec_height() == old(self).spec_height(),
            forall|x: int, y: int|
                final(self).in_bounds(x, y) ==> #[trigger] final(self).pixel(x, y) == color,
    {
        let n = self.pixels.len();
        let mut i: usize = 0;
        while i < n
            invariant
                self.wf(),
                self.width == old(self).width,
                self.height == old(self).height,
                n == self.pixels@.len(),
                i <= n,
                forall|k: int| 0 <= k < i ==> self.pixels@[k] == color,
            decreases n - i,
        {
            self.pixels.set(i, color);
            i = i + 1;
        }
        assert forall|x: int, y: int| self.in_bounds(x, y) implies #[trigger] self.pixel(x, y) == color by {
            lemma_grid_index_bounds(x, y, self.width as int, self.height as int);
        }
    }
}

/// Reading a coordinate right after writing `color` there gives `color` when
/// the coordinate is on the canvas, and reading any other coordinate gives
/// what it gave before the write.
pub proof fn lemma_write_then_read<P>(before: Canvas<P>, after: Canvas<P>, color: P, x: int, y: int)
    requires
        before.wf(),
        Canvas::written(before, after, color, x, y),
    ensures
        before.in_bounds(x, y) ==> after.read(x, y) == Ok::<P, CanvasError>(color),
        forall|i: int, j: int|
            !(i == x && j == y) ==> #[trigger] after.read(i, j) == before.read(i, j),
{
    assert forall|i: int, j: int| !(i == x && j == y) implies #[trigger] after.read(i, j) == before.read(i, j) by {
        if after.in_bounds(i, j) {
            assert(after.pixel(i, j) == before.pixel(i, j));
        }
    }
    if before.in_bounds(x, y) {
        assert(after.pixel(x, y) == color);
    }
}

} // verus!
