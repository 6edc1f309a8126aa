//! Column-major dense matrices with a column stride.
use vstd::arithmetic::div_mod::{
    lemma_fundamental_div_mod_converse_div, lemma_fundamental_div_mod_converse_mod,
};
use vstd::prelude::*;

verus! {

/// A dense matrix stored column by column in an owned buffer.
///
/// Element `(r, c)` lives at buffer offset `c * stride + r`. A stride larger
/// than the row count leaves unused slots at the end of each column, so that
/// a matrix can describe a region of a larger allocation.
pub struct Matrix<T> {
    rows: usize,
    cols: usize,
    stride: usize,
    data: Vec<T>,
}

/// A matrix with a single column.
pub type Vector<T> = Matrix<T>;

/// The buffer length needed to hold `cols` columns of `rows` elements each,
/// with consecutive columns `stride` apart.
pub open spec fn needed_len(rows: int, cols: int, stride: int) -> int {
    if cols == 0 {
        0
    } else {
        (cols - 1) * stride + rows
    }
}

proof fn lemma_offset_below_needed(rows: int, cols: int, stride: int, r: int, c: int)
    requires
        0 <= r < rows,
        0 <= c < cols,
        stride >= rows,
    ensures
        0 <= c * stride + r < needed_len(rows, cols, stride),
{
    assert(c * stride <= (cols - 1) * stride) by (nonlinear_arith)
        requires
            0 <= c <= cols - 1,
            stride >= 0,
    ;
    assert(0 <= c * stride) by (nonlinear_arith)
        requires
            0 <= c,
            stride >= 0,
    ;
}

/// Position `c * rows + r` of a column-major scan is in range and splits back
/// into row `r` and column `c`.
pub proof fn lemma_cell_position(rows: int, cols: int, r: int, c: int)
    requires
        0 <= r < rows,
        0 <= c < cols,
    ensures
        0 <= c * rows + r < rows * cols,
        (c * rows + r) % rows == r,
        (c * rows + r) / rows == c,
{
    lemma_fundamental_div_mod_converse_mod(c * rows + r, rows, c, r);
    lemma_fundamental_div_mod_converse_div(c * rows + r, rows, c, r);
    assert(c * rows + r < rows * cols) by (nonlinear_arith)
        requires
            0 <= r < rows,
            0 <= c < cols,
    ;
    assert(0 <= c * rows) by (nonlinear_arith)
        requires
            0 <= rows,
            0 <= c,
    ;
}

impl<T: Copy> Matrix<T> {
    pub closed spec fn spec_rows(&self) -> nat {
        self.rows as nat
    }

    pub closed spec fn spec_cols(&self) -> nat {
        self.cols as nat
    }

    pub closed spec fn spec_stride(&self) -> nat {
        self.stride as nat
    }

    /// The backing buffer.
    pub closed spec fn buffer(&self) -> Seq<T> {
        self.data@
    }

    /// The shape invariant: columns do not overlap and all fit in the buffer.
    pub open spec fn wf(&self) -> bool {
        &&& self.spec_stride() >= self.spec_rows()
        &&& needed_len(self.spec_rows() as int, self.spec_cols() as int, self.spec_stride() as int)
            <= self.buffer().len()
        &&& self.buffer().len() <= usize::MAX
    }

    /// Element `(r, c)`.
    pub open spec fn element(&self, r: int, c: int) -> T {
        self.buffer()[c * self.spec_stride() + r]
    }

    /// Row `r`, left to right.
    pub open spec fn row_seq(&self, r: int) -> Seq<T> {
        Seq::new(self.spec_cols(), |c: int| self.element(r, c))
    }

    /// Column `c`, top to bottom.
    pub open spec fn col_seq(&self, c: int) -> Seq<T> {
        Seq::new(self.spec_rows(), |r: int| self.element(r, c))
    }

    /// Every element in column-major order: all of column 0, then column 1, ...
    pub open spec fn cells_seq(&self) -> Seq<T> {
        Seq::new(
            self.spec_rows() * self.spec_cols(),
            |i: int| self.element(i % (self.spec_rows() as int), i / (self.spec_rows() as int)),
        )
    }

    /// The number of elements on the main diagonal.
    pub open spec fn diag_len(&self) -> nat {
        if self.spec_rows() <= self.spec_cols() {
            self.spec_rows()
        } else {
            self.spec_cols()
        }
    }

    /// The main diagonal, from the top-left corner.
    pub open spec fn diag_seq(&self) -> Seq<T> {
        Seq::new(self.diag_len(), |i: int| self.element(i, i))
    }

    pub proof fn lemma_element_in_buffer(&self, r: int, c: int)
        requires
            self.wf(),
            0 <= r < self.spec_rows(),
            0 <= c < self.spec_cols(),
        ensures
            0 <= c * self.spec_stride() + r < self.buffer().len(),
    {
        lemma_offset_below_needed(
            self.spec_rows() as int,
            self.spec_cols() as int,
            self.spec_stride() as int,
            r,
            c,
        );
    }

    /// A full scan yields `rows * cols` elements, column after column: the
    /// element at position `c * rows + r` is element `(r, c)`.
    pub proof fn lemma_cells_column_major(&self)
        ensures
            self.cells_seq().len() == self.spec_rows() * self.spec_cols(),
            forall|r: int, c: int|
                0 <= r < self.spec_rows() && 0 <= c < self.spec_cols() ==> #[trigger] self.cells_seq()[c
                    * self.spec_rows() + r] == self.element(r, c),
    {
        let n = self.spec_rows() as int;
        assert forall|r: int, c: int|
            0 <= r < self.spec_rows() && 0 <= c < self.spec_cols() implies #[trigger] self.cells_seq()[c
                * n + r] == self.element(r, c) by {
            lemma_cell_position(n, self.spec_cols() as int, r, c);
        }
    }

    /// A matrix with `rows` rows and `cols` columns whose columns are
    /// `stride` apart in `data`; `None` unless `stride >= rows` and `data`
    /// holds every column.
    pub fn with_stride(rows: usize, cols: usize, stride: usize, data: Vec<T>) -> (r: Option<
        Matrix<T>,
    >)
        ensures
            r is Some <==> stride >= rows && needed_len(rows as int, cols as int, stride as int)
                <= data@.len(),
            r matches Some(m) ==> m.wf() && m.spec_rows() == rows && m.spec_cols() == cols
                && m.spec_stride() == stride && m.buffer() == data@,
    {
        let len = data.len();
        if stride < rows {
            return None;
        }
        if cols > 0 {
            match (cols - 1).checked_mul(stride) {
                None => {
                    proof {
                        assert((cols - 1) * stride <= (cols - 1) * stride + rows);
                    }
                    return None;
                },
                Some(prefix) => {
                    if prefix > len || len - prefix < rows {
                        return None;
                    }
                },
            }
        }
        Some(Matrix { rows, cols, stride, data })
    }

    /// A `rows` by `cols` matrix from its elements listed column by column;
    /// `None` unless `data` holds exactly `rows * cols` elements.
    pub fn from_col_major(rows: usize, cols: usize, data: Vec<T>) -> (r: Option<Matrix<T>>)
        ensures
            r is Some <==> data@.len() == rows * cols,
            r matches Some(m) ==> m.wf() && m.spec_rows() == rows && m.spec_cols() == cols
                && m.spec_stride() == rows && m.buffer() == data@,
    {
        let len = data.len();
        match rows.checked_mul(cols) {
            None => None,
            Some(n) => {
                if n != len {
                    return None;
                }
                proof {
                    if cols > 0 {
                        assert((cols - 1) * rows + rows == rows * cols) by (nonlinear_arith)
                            requires
                                cols > 0,
                        ;
                    }
                }
                Some(Matrix { rows, cols, stride: rows, data })
            },
        }
    }

    /// A column vector holding `values` in order.
    pub fn vector(values: Vec<T>) -> (r: Vector<T>)
        ensures
            r.wf(),
            r.spec_rows() == values@.len(),
            r.spec_cols() == 1,
            r.col_seq(0) == values@,
    {
        let n = values.len();
        let r = Matrix { rows: n, cols: 1, stride: n, data: values };
        assert(r.col_seq(0) =~= values@);
        r
    }

    pub fn rows(&self) -> (r: usize)
        ensures
            r == self.spec_rows(),
    {
        self.rows
    }

    pub fn cols(&self) -> (r: usize)
        ensures
            r == self.spec_cols(),
    {
        self.cols
    }

    pub fn stride(&self) -> (r: usize)
        ensures
            r == self.spec_stride(),
    {
        self.stride
    }

    /// A copy of element `(r, c)`.
    pub fn element_at(&self, r: usize, c: usize) -> (e: T)
        requires
            self.wf(),
            r < self.spec_rows(),
            c < self.spec_cols(),
        ensures
            e == self.element(r as int, c as int),
    {
        let len = self.data.len();
        proof {
            self.lemma_element_in_buffer(r as int, c as int);
        }
        self.data[c * self.stride + r]
    }

    /// A copy of the buffer slot at `offset`.
    pub(crate) fn buffer_at(&self, offset: usize) -> (e: T)
        requires
            offset < self.buffer().len(),
        ensures
            e == self.buffer()[offset as int],
    {
        self.data[offset]
    }
}

} // verus!
