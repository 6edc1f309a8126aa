//! Cursors that walk a matrix's buffer along a row, a column, the whole
//! matrix in column-major order, or the main diagonal.
//!
//! Each cursor borrows its matrix, so it cannot outlive it, and takes its
//! bounds from the matrix's shape when it is created, so it never reads past
//! the buffer.
use crate::matrix::{lemma_cell_position, Matrix};
use vstd::prelude::*;

verus! {

/// One step of a cursor: from the elements `before` still to come, it
/// returns the first one, or `None` when there is none left, and `after` is
/// what then remains.
pub open spec fn steps_to<T>(before: Seq<T>, after: Seq<T>, r: Option<T>) -> bool {
    if before.len() == 0 {
        r is None && after == before
    } else {
        r == Some(before[0]) && after == before.drop_first()
    }
}

/// The elements of one row, left to right; successive elements are `stride`
/// apart in the buffer.
pub struct RowIterator<'a, T> {
    matrix: &'a Matrix<T>,
    row: usize,
    cols: usize,
    stride: usize,
    pos: usize,
}

impl<'a, T: Copy> RowIterator<'a, T> {
    pub closed spec fn wf(&self) -> bool {
        &&& self.matrix.wf()
        &&& self.row < self.matrix.spec_rows()
        &&& self.cols == self.matrix.spec_cols()
        &&& self.stride == self.matrix.spec_stride()
        &&& self.pos <= self.cols
    }

    /// The elements not yet returned.
    pub closed spec fn remaining(&self) -> Seq<T> {
        Seq::new(
            (self.cols - self.pos) as nat,
            |j: int| self.matrix.element(self.row as int, self.pos + j),
        )
    }

    /// A cursor over row `row` of `matrix`.
    pub fn new(matrix: &'a Matrix<T>, row: usize) -> (it: RowIterator<'a, T>)
        requires
            matrix.wf(),
            row < matrix.spec_rows(),
        ensures
            it.wf(),
            it.remaining() == matrix.row_seq(row as int),
    {
        let it = RowIterator { matrix, row, cols: matrix.cols(), stride: matrix.stride(), pos: 0 };
        assert(it.remaining() =~= matrix.row_seq(row as int));
        it
    }

    pub fn next(&mut self) -> (r: Option<T>)
        requires
            old(self).wf(),
        ensures
            final(self).wf(),
            steps_to(old(self).remaining(), final(self).remaining(), r),
    {
        if self.pos == self.cols {
            return None;
        }
        proof {
            self.matrix.lemma_element_in_buffer(self.row as int, self.pos as int);
        }
        let e = self.matrix.buffer_at(self.pos * self.stride + self.row);
        let ghost before = self.remaining();
        self.pos = self.pos + 1;
        assert(self.remaining() =~= before.drop_first());
        Some(e)
    }
}

/// The elements of one column, top to bottom; a column is contiguous in the
/// buffer.
pub struct ColIterator<'a, T> {
    matrix: &'a Matrix<T>,
    col: usize,
    start: usize,
    rows: usize,
    pos: usize,
}

impl<'a, T: Copy> ColIterator<'a, T> {
    pub closed spec fn wf(&self) -> bool {
        &&& self.matrix.wf()
        &&& self.col < self.matrix.spec_cols()
        &&& self.start == self.col * self.matrix.spec_stride()
        &&& self.rows == self.matrix.spec_rows()
        &&& self.pos <= self.rows
    }

    /// The elements not yet returned.
    pub closed spec fn remaining(&self) -> Seq<T> {
        Seq::new(
            (self.rows - self.pos) as nat,
            |j: int| self.matrix.element(self.pos + j, self.col as int),
        )
    }

    /// A cursor over column `col` of `matrix`.
    pub fn new(matrix: &'a Matrix<T>, col: usize) -> (it: ColIterator<'a, T>)
        requires
            matrix.wf(),
            col < matrix.spec_cols(),
        ensures
            it.wf(),
            it.remaining() == matrix.col_seq(col as int),
    {
        let rows = matrix.rows();
        let stride = matrix.stride();
        proof {
            if rows > 0 {
                matrix.lemma_element_in_buffer(0, col as int);
            } else {
                assert(col * stride <= (matrix.spec_cols() - 1) * stride) by (nonlinear_arith)
                    requires
                        col <= matrix.spec_cols() - 1,
                ;
            }
        }
        let it = ColIterator { matrix, col, start: col * stride, rows, pos: 0 };
        assert(it.remaining() =~= matrix.col_seq(col as int));
        it
    }

    pub fn next(&mut self) -> (r: Option<T>)
        requires
            old(self).wf(),
        ensures
            final(self).wf(),
            steps_to(old(self).remaining(), final(self).remaining(), r),
    {
        if self.pos == self.rows {
            return None;
        }
        proof {
            self.matrix.lemma_element_in_buffer(self.pos as int, self.col as int);
        }
        let e = self.matrix.buffer_at(self.start + self.pos);
        let ghost before = self.remaining();
        self.pos = self.pos + 1;
        assert(self.remaining() =~= before.drop_first());
        Some(e)
    }
}

/// Every element in column-major order: each column top to bottom, columns
/// left to right. This is the buffer's own order, skipping any slack between
/// columns.
pub struct CellIterator<'a, T> {
    matrix: &'a Matrix<T>,
    rows: usize,
    cols: usize,
    stride: usize,
    r: usize,
    c: usize,
}

impl<'a, T: Copy> CellIterator<'a, T> {
    pub closed spec fn wf(&self) -> bool {
        &&& self.matrix.wf()
        &&& self.rows == self.matrix.spec_rows()
        &&& self.cols == self.matrix.spec_cols()
        &&& self.stride == self.matrix.spec_stride()
        &&& self.c <= self.cols
        &&& self.c < self.cols ==> self.r < self.rows
        &&& self.c == self.cols ==> self.r == 0
    }

    /// How many elements have been returned.
    closed spec fn consumed(&self) -> int {
        self.c * self.rows + self.r
    }

    /// The elements not yet returned.
    pub closed spec fn remaining(&self) -> Seq<T> {
        self.matrix.cells_seq().skip(self.consumed())
    }

    /// A cursor over every element of `matrix`.
    pub fn new(matrix: &'a Matrix<T>) -> (it: CellIterator<'a, T>)
        requires
            matrix.wf(),
        ensures
            it.wf(),
            it.remaining() == matrix.cells_seq(),
    {
        let rows = matrix.rows();
        let cols = matrix.cols();
        // with no rows there is nothing to visit in any column
        let c = if rows == 0 {
            cols
        } else {
            0
        };
        let it = CellIterator { matrix, rows, cols, stride: matrix.stride(), r: 0, c };
        assert(it.consumed() == 0) by (nonlinear_arith)
            requires
                it.consumed() == c * rows,
                c == 0 || rows == 0,
        ;
        assert(it.remaining() =~= matrix.cells_seq());
        it
    }

    pub fn next(&mut self) -> (r: Option<T>)
        requires
            old(self).wf(),
        ensures
            final(self).wf(),
            steps_to(old(self).remaining(), final(self).remaining(), r),
    {
        let ghost before = self.remaining();
        let ghost k = self.consumed();
        let ghost (r0, c0) = (self.r as int, self.c as int);
        if self.c == self.cols {
            assert(before.len() == 0) by (nonlinear_arith)
                requires
                    k == self.cols * self.rows,
                    before.len() == self.matrix.cells_seq().len() - k,
                    self.matrix.cells_seq().len() == self.rows * self.cols,
            ;
            return None;
        }
        proof {
            self.matrix.lemma_element_in_buffer(self.r as int, self.c as int);
            lemma_cell_position(self.rows as int, self.cols as int, self.r as int, self.c as int);
        }
        let e = self.matrix.buffer_at(self.c * self.stride + self.r);
        self.r = self.r + 1;
        if self.r == self.rows {
            self.r = 0;
            self.c = self.c + 1;
        }
        assert(self.consumed() == k + 1) by (nonlinear_arith)
            requires
                self.consumed() == self.c * self.rows + self.r,
                k == c0 * self.rows + r0,
                (self.r == r0 + 1 && self.c == c0) || (self.r == 0 && self.c == c0 + 1 && r0 + 1
                    == self.rows),
        ;
        assert(self.remaining() =~= before.drop_first());
        Some(e)
    }
}

/// The main diagonal, from the top-left corner; successive elements are
/// `stride + 1` apart in the buffer.
pub struct DiagIterator<'a, T> {
    matrix: &'a Matrix<T>,
    min_dim_size: usize,
    stride: usize,
    pos: usize,
}

impl<'a, T: Copy> DiagIterator<'a, T> {
    pub closed spec fn wf(&self) -> bool {
        &&& self.matrix.wf()
        &&& self.min_dim_size == self.matrix.diag_len()
        &&& self.stride == self.matrix.spec_stride()
        &&& self.pos <= self.min_dim_size
    }

    /// The elements not yet returned.
    pub closed spec fn remaining(&self) -> Seq<T> {
        Seq::new(
            (self.min_dim_size - self.pos) as nat,
            |j: int| self.matrix.element(self.pos + j, self.pos + j),
        )
    }

    /// A cursor over the main diagonal of `matrix`.
    pub fn new(matrix: &'a Matrix<T>) -> (it: DiagIterator<'a, T>)
        requires
            matrix.wf(),
        ensures
            it.wf(),
            it.remaining() == matrix.diag_seq(),
    {
        let rows = matrix.rows();
        let cols = matrix.cols();
        let min_dim_size = if rows <= cols {
            rows
        } else {
            cols
        };
        let it = DiagIterator { matrix, min_dim_size, stride: matrix.stride(), pos: 0 };
        assert(it.remaining() =~= matrix.diag_seq());
        it
    }

    pub fn next(&mut self) -> (r: Option<T>)
        requires
            old(self).wf(),
        ensures
            final(self).wf(),
            steps_to(old(self).remaining(), final(self).remaining(), r),
    {
        if self.pos == self.min_dim_size {
            return None;
        }
        proof {
            self.matrix.lemma_element_in_buffer(self.pos as int, self.pos as int);
        }
        let e = self.matrix.buffer_at(self.pos * self.stride + self.pos);
        let ghost before = self.remaining();
        self.pos = self.pos + 1;
        assert(self.remaining() =~= before.drop_first());
        Some(e)
    }
}

impl<T: Copy> Matrix<T> {
    /// A cursor over row `r`.
    pub fn row_iter(&self, r: usize) -> (it: RowIterator<'_, T>)
        requires
            self.wf(),
            r < self.spec_rows(),
        ensures
            it.wf(),
            it.remaining() == self.row_seq(r as int),
    {
        RowIterator::new(self, r)
    }

    /// A cursor over column `c`.
    pub fn col_iter(&self, c: usize) -> (it: ColIterator<'_, T>)
        requires
            self.wf(),
            c < self.spec_cols(),
        ensures
            it.wf(),
            it.remaining() == self.col_seq(c as int),
    {
        ColIterator::new(self, c)
    }

    /// A cursor over every element, in column-major order.
    pub fn cell_iter(&self) -> (it: CellIterator<'_, T>)
        requires
            self.wf(),
        ensures
            it.wf(),
            it.remaining() == self.cells_seq(),
    {
        CellIterator::new(self)
    }

    /// A cursor over the main diagonal.
    pub fn diag_iter(&self) -> (it: DiagIterator<'_, T>)
        requires
            self.wf(),
        ensures
            it.wf(),
            it.remaining() == self.diag_seq(),
    {
        DiagIterator::new(self)
    }
}

} // verus!
