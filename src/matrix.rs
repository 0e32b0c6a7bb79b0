use vstd::prelude::*;

verus! {

/// Why a matrix operation was refused.
#[derive(Debug, Clone, Copy, PartialEq, Eq, Structural)]
pub enum MatrixError {
    /// The rows given to a constructor do not all have the same length.
    RaggedRows,
    /// The operation is not defined for a matrix of this size.
    DimensionMismatch,
}

/// A grid of `h` rows by `w` columns of values of type `T`, indexed by row
/// then column.
#[derive(Debug, Clone, PartialEq)]
pub struct Matrix<T> {
    data: Vec<Vec<T>>,
    w: usize,
    h: usize,
}

impl<T> Matrix<T> {
    /// There are `h` rows and each of them holds `w` values.
    pub closed spec fn wf(&self) -> bool {
        &&& self.data@.len() == self.h
        &&& forall|r: int| 0 <= r < self.h ==> (#[trigger] self.data@[r])@.len() == self.w
    }

    /// Number of columns.
    pub closed spec fn spec_width(&self) -> nat {
        self.w as nat
    }

    /// Number of rows.
    pub closed spec fn spec_height(&self) -> nat {
        self.h as nat
    }

    /// The value in row `r`, column `c` (meaningful when both are in range).
    pub closed spec fn cell(&self, r: int, c: int) -> T {
        self.data@[r]@[c]
    }

    /// Whether row `r`, column `c` lies inside the matrix.
    pub open spec fn in_range(&self, r: int, c: int) -> bool {
        0 <= r < self.spec_height() && 0 <= c < self.spec_width()
    }

    /// `a` and `b` have the same size and the same value in every cell.
    pub open spec fn same(a: Self, b: Self) -> bool {
        &&& a.spec_width() == b.spec_width()
        &&& a.spec_height() == b.spec_height()
        &&& forall|r: int, c: int| a.in_range(r, c) ==> #[trigger] a.cell(r, c) == b.cell(r, c)
    }

    /// `t` is the transpose of `m`: rows and columns exchanged.
    pub open spec fn transposed(m: Self, t: Self) -> bool {
        &&& t.wf()
        &&& t.spec_width() == m.spec_height()
        &&& t.spec_height() == m.spec_width()
        &&& forall|r: int, c: int| t.in_range(r, c) ==> #[trigger] t.cell(r, c) == m.cell(c, r)
    }

    /// The size of the matrix as (columns, rows).
    pub fn size(&self) -> (r: (usize, usize))
        ensures
            r.0 == self.spec_width(),
            r.1 == self.spec_height(),
    {
        (self.w, self.h)
    }
}

impl<T: Copy> Matrix<T> {
    /// Whether every row of `rows` has the length of the first.
    pub open spec fn rectangular(rows: Seq<Seq<T>>) -> bool {
        forall|r: int| 0 <= r < rows.len() ==> (#[trigger] rows[r]).len() == rows[0].len()
    }

    /// A matrix whose rows are the vectors of `data`, or an error when they
    /// do not all have the same length. No rows at all give a 0 x 0 matrix.
    pub fn new_vec(data: Vec<Vec<T>>) -> (r: Result<Self, MatrixError>)
        ensures
            r is Err <==> !Self::rectangular(data@.map_values(|row: Vec<T>| row@)),
            r is Err ==> r == Err::<Self, MatrixError>(MatrixError::RaggedRows),
            r matches Ok(m) ==> {
                &&& m.wf()
                &&& m.spec_height() == data@.len()
                &&& m.spec_width() == if data@.len() == 0 {
                    0
                } else {
                    data@[0]@.len()
                }
                &&& forall|i: int, j: int| m.in_range(i, j) ==> #[trigger] m.cell(i, j) == data@[i]@[j]
            },
    {
        let ghost rows = data@.map_values(|row: Vec<T>| row@);
        let h = data.len();
        let w = if h == 0 {
            0
        } else {
            data[0].len()
        };
        let mut i: usize = 0;
        while i < h
            invariant
                h == data@.len(),
                rows == data@.map_values(|row: Vec<T>| row@),
                h > 0 ==> w == data@[0]@.len(),
                i <= h,
                forall|k: int| 0 <= k < i ==> (#[trigger] data@[k])@.len() == w,
            decreases h - i,
        {
            if data[i].len() != w {
                proof {
                    assert(rows[i as int].len() != rows[0].len());
                }
                return Err(MatrixError::RaggedRows);
            }
            i = i + 1;
        }
        proof {
            assert forall|r: int| 0 <= r < rows.len() implies (#[trigger] rows[r]).len()
                == rows[0].len() by {
                assert(data@[r]@.len() == w);
            }
        }
        Ok(Matrix { data, w, h })
    }

    /// A matrix copied from a slice of rows, or an error when the rows do not
    /// all have the same length.
    pub fn new(data: &[&[T]]) -> (r: Result<Self, MatrixError>)
        ensures
            r is Err <==> !Self::rectangular(data@.map_values(|row: &[T]| row@)),
            r is Err ==> r == Err::<Self, MatrixError>(MatrixError::RaggedRows),
            r matches Ok(m) ==> {
                &&& m.wf()
                &&& m.spec_height() == data@.len()
                &&& m.spec_width() == if data@.len() == 0 {
                    0
                } else {
                    data@[0]@.len()
                }
                &&& forall|i: int, j: int| m.in_range(i, j) ==> #[trigger] m.cell(i, j) == data@[i]@[j]
            },
    {
        let mut rows: Vec<Vec<T>> = Vec::with_capacity(data.len());
        let mut i: usize = 0;
        while i < data.len()
            invariant
                i <= data@.len(),
                rows@.len() == i,
                forall|k: int| 0 <= k < i ==> (#[trigger] rows@[k])@ == data@[k]@,
            decreases data@.len() - i,
        {
            let src: &[T] = data[i];
            let mut row: Vec<T> = Vec::with_capacity(src.len());
            let mut j: usize = 0;
            while j < src.len()
                invariant
                    j <= src@.len(),
                    row@ == src@.subrange(0, j as int),
                decreases src@.len() - j,
            {
                row.push(src[j]);
                j = j + 1;
            }
            assert(row@ =~= src@);
            rows.push(row);
            i = i + 1;
        }
        assert(rows@.map_values(|row: Vec<T>| row@) =~= data@.map_values(|row: &[T]| row@));
        Self::new_vec(rows)
    }

    /// The value in row `r`, column `c`, or `None` outside the matrix.
    pub fn get(&self, r: usize, c: usize) -> (v: Option<T>)
        requires
            self.wf(),
        ensures
            v == if self.in_range(r as int, c as int) {
                Some(self.cell(r as int, c as int))
            } else {
                None
            },
    {
        if r < self.h && c < self.w {
            Some(self.data[r][c])
        } else {
            None
        }
    }

    /// A matrix of `size.0` columns and `size.1` rows with `zero` in every cell.
    pub fn zero(size: (usize, usize), zero: T) -> (m: Self)
        ensures
            m.wf(),
            m.spec_width() == size.0,
            m.spec_height() == size.1,
            forall|r: int, c: int| m.in_range(r, c) ==> #[trigger] m.cell(r, c) == zero,
    {
        let (w, h) = size;
        let mut data: Vec<Vec<T>> = Vec::with_capacity(h);
        let mut r: usize = 0;
        while r < h
            invariant
                r <= h,
                data@.len() == r,
                forall|i: int| 0 <= i < r ==> (#[trigger] data@[i])@.len() == w,
                forall|i: int, j: int| 0 <= i < r && 0 <= j < w ==> #[trigger] data@[i]@[j] == zero,
            decreases h - r,
        {
            let mut row: Vec<T> = Vec::with_capacity(w);
            let mut c: usize = 0;
            while c < w
                invariant
                    c <= w,
                    row@.len() == c,
                    forall|j: int| 0 <= j < c ==> row@[j] == zero,
                decreases w - c,
            {
                row.push(zero);
                c = c + 1;
            }
            data.push(row);
            r = r + 1;
        }
        Matrix { data, w, h }
    }

    /// Stores `v` in row `r`, column `c`.
    fn set(&mut self, r: usize, c: usize, v: T)
        requires
            old(self).wf(),
            old(self).in_range(r as int, c as int),
        ensures
            final(self).wf(),
            final(self).spec_width() == old(self).spec_width(),
            final(self).spec_height() == old(self).spec_height(),
            forall|i: int, j: int|
                #![trigger final(self).cell(i, j)]
                final(self).in_range(i, j) ==> final(self).cell(i, j) == if i == r && j == c {
                    v
                } else {
                    old(self).cell(i, j)
                },
    {
        self.data[r].set(c, v);
    }

    /// A matrix of `size.0` columns and `size.1` rows with `one` on the main
    /// diagonal and `zero` everywhere else.
    pub fn indentity(size: (usize, usize), zero: T, one: T) -> (m: Self)
        ensures
            m.wf(),
            m.spec_width() == size.0,
            m.spec_height() == size.1,
            forall|r: int, c: int| m.in_range(r, c) ==> #[trigger] m.cell(r, c) == if r == c {
                one
            } else {
                zero
            },
    {
        let mut m = Self::zero(size, zero);
        let n = if size.0 < size.1 {
            size.0
        } else {
            size.1
        };
        let mut i: usize = 0;
        while i < n
            invariant
                m.wf(),
                m.spec_width() == size.0,
                m.spec_height() == size.1,
                n <= size.0,
                n <= size.1,
                i <= n,
                forall|r: int, c: int|
                    #![trigger m.cell(r, c)]
                    m.in_range(r, c) ==> m.cell(r, c) == if r == c && r < i {
                    one
                } else {
                    zero
                },
            decreases n - i,
        {
            m.set(i, i, one);
            i = i + 1;
        }
        m
    }

    /// The transpose: row `r`, column `c` of the result holds row `c`,
    /// column `r` of `self`, for a matrix of any size.
    pub fn transpose(self) -> (t: Self)
        requires
            self.wf(),
        ensures
            Self::transposed(self, t),
    {
        let mut data: Vec<Vec<T>> = Vec::with_capacity(self.w);
        let mut r: usize = 0;
        while r < self.w
            invariant
                self.wf(),
                r <= self.w,
                data@.len() == r,
                forall|i: int| 0 <= i < r ==> (#[trigger] data@[i])@.len() == self.h,
                forall|i: int, j: int|
                    0 <= i < r && 0 <= j < self.h ==> #[trigger] data@[i]@[j] == self.cell(j, i),
            decreases self.w - r,
        {
            let mut row: Vec<T> = Vec::with_capacity(self.h);
            let mut c: usize = 0;
            while c < self.h
                invariant
                    self.wf(),
                    r < self.w,
                    c <= self.h,
                    row@.len() == c,
                    forall|j: int| 0 <= j < c ==> #[trigger] row@[j] == self.cell(j, r as int),
                decreases self.h - c,
            {
                row.push(self.data[c][r]);
                c = c + 1;
            }
            data.push(row);
            r = r + 1;
        }
        Matrix { data, w: self.h, h: self.w }
    }

    /// The matrix left after removing row `row` and column `col`, or an error
    /// when either lies outside the matrix.
    pub fn sub_matrix_at(&self, row: usize, col: usize) -> (r: Result<Self, MatrixError>)
        requires
            self.wf(),
        ensures
            !self.in_range(row as int, col as int) ==> r == Err::<Self, MatrixError>(
                MatrixError::DimensionMismatch,
            ),
            self.in_range(row as int, col as int) ==> (r matches Ok(s) && {
                &&& s.wf()
                &&& s.spec_width() == self.spec_width() - 1
                &&& s.spec_height() == self.spec_height() - 1
                &&& forall|i: int, j: int| s.in_range(i, j) ==> #[trigger] s.cell(i, j) == self.cell(
                    skip_index(i, row as int),
                    skip_index(j, col as int),
                )
            }),
    {
        if row >= self.h || col >= self.w {
            return Err(MatrixError::DimensionMismatch);
        }
        let sw = self.w - 1;
        let sh = self.h - 1;
        let mut data: Vec<Vec<T>> = Vec::with_capacity(sh);
        let mut i: usize = 0;
        while i < sh
            invariant
                self.wf(),
                row < self.h,
                col < self.w,
                sw == self.w - 1,
                sh == self.h - 1,
                i <= sh,
                data@.len() == i,
                forall|k: int| 0 <= k < i ==> (#[trigger] data@[k])@.len() == sw,
                forall|k: int, j: int|
                    0 <= k < i && 0 <= j < sw ==> #[trigger] data@[k]@[j] == self.cell(
                        skip_index(k, row as int),
                        skip_index(j, col as int),
                    ),
            decreases sh - i,
        {
            let src = if i < row {
                i
            } else {
                i + 1
            };
            let mut line: Vec<T> = Vec::with_capacity(sw);
            let mut j: usize = 0;
            while j < sw
                invariant
                    self.wf(),
                    col < self.w,
                    sw == self.w - 1,
                    src < self.h,
                    src == skip_index(i as int, row as int),
                    j <= sw,
                    line@.len() == j,
                    forall|k: int|
                        0 <= k < j ==> #[trigger] line@[k] == self.cell(
                            src as int,
                            skip_index(k, col as int),
                        ),
                decreases sw - j,
            {
                let c = if j < col {
                    j
                } else {
                    j + 1
                };
                line.push(self.data[src][c]);
                j = j + 1;
            }
            data.push(line);
            i = i + 1;
        }
        Ok(Matrix { data, w: sw, h: sh })
    }

    /// The matrix left after removing the last row and the last column, or an
    /// error for a matrix without rows or without columns.
    pub fn sub_matrix(&self) -> (r: Result<Self, MatrixError>)
        requires
            self.wf(),
        ensures
            (self.spec_width() == 0 || self.spec_height() == 0) ==> r == Err::<Self, MatrixError>(
                MatrixError::DimensionMismatch,
            ),
            (self.spec_width() > 0 && self.spec_height() > 0) ==> (r matches Ok(s) && {
                &&& s.wf()
                &&& s.spec_width() == self.spec_width() - 1
                &&& s.spec_height() == self.spec_height() - 1
                &&& forall|i: int, j: int| s.in_range(i, j) ==> #[trigger] s.cell(i, j) == self.cell(
                    i,
                    j,
                )
            }),
    {
        if self.w == 0 || self.h == 0 {
            return Err(MatrixError::DimensionMismatch);
        }
        self.sub_matrix_at(self.h - 1, self.w - 1)
    }
}

/// `i` when it comes before the removed index `k`, else the index after it.
pub open spec fn skip_index(i: int, k: int) -> int {
    if i < k {
        i
    } else {
        i + 1
    }
}

/// Transposing a matrix twice gives back a matrix of the same size with the
/// same value in every cell.
pub proof fn lemma_transpose_twice<T>(m: Matrix<T>, t: Matrix<T>, u: Matrix<T>)
    requires
        m.wf(),
        Matrix::transposed(m, t),
        Matrix::transposed(t, u),
    ensures
        Matrix::same(m, u),
{
    assert forall|r: int, c: int| m.in_range(r, c) implies #[trigger] m.cell(r, c) == u.cell(r, c) by {
        assert(u.in_range(r, c));
        assert(t.in_range(c, r));
    }
}

} // verus!
