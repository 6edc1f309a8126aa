//! Gaussian elimination with partial pivoting for square systems `A x = b`.
use crate::matrix::{Matrix, Vector};
use crate::scalar::Scalar;
use vstd::prelude::*;

verus! {

/// Why a system could not be solved.
#[derive(Clone, Copy, Debug, PartialEq, Eq, Structural)]
pub enum SolverError {
    /// The coefficient matrix is not square, or the right-hand side is not a
    /// single column with one entry per row.
    DimensionMismatch,
    /// Elimination met a pivot column whose best candidate is negligible.
    SingularMatrix,
}

/// The rows of a row-major working copy.
pub open spec fn rows_of<T>(w: Seq<Vec<T>>) -> Seq<Seq<T>> {
    Seq::new(w.len(), |i: int| w[i]@)
}

/// The rows of a matrix, top to bottom.
pub open spec fn matrix_rows<T: Copy>(a: &Matrix<T>) -> Seq<Seq<T>> {
    Seq::new(a.spec_rows(), |i: int| a.row_seq(i))
}

/// Every row of `w` has `n` entries.
pub open spec fn all_rows_len<T>(w: Seq<Seq<T>>, n: int) -> bool {
    forall|i: int| 0 <= i < w.len() ==> (#[trigger] w[i]).len() == n
}

/// The pivot for column `k` among rows `k..end`: the first row whose entry in
/// column `k` no later row outweighs.
pub open spec fn pivot_row<T: Scalar>(w: Seq<Seq<T>>, k: int, end: int) -> int
    decreases end - k,
{
    if end <= k + 1 {
        k
    } else {
        let best = pivot_row(w, k, end - 1);
        if T::spec_outweighs(w[end - 1][k], w[best][k]) {
            end - 1
        } else {
            best
        }
    }
}

pub open spec fn swap_rows<X>(s: Seq<X>, i: int, j: int) -> Seq<X> {
    s.update(i, s[j]).update(j, s[i])
}

/// The factor by which the pivot row is scaled before it is taken from `row`.
pub open spec fn multiplier<T: Scalar>(pivot: Seq<T>, row: Seq<T>, k: int) -> T {
    T::spec_div(row[k], pivot[k])
}

/// `row` minus `multiplier` times `pivot`, on columns `k..`; earlier columns
/// are left as they are.
pub open spec fn reduced_row<T: Scalar>(pivot: Seq<T>, row: Seq<T>, k: int) -> Seq<T> {
    Seq::new(
        row.len(),
        |j: int|
            if j < k {
                row[j]
            } else {
                T::spec_sub(row[j], T::spec_mul(multiplier(pivot, row, k), pivot[j]))
            },
    )
}

/// Every row below `k` reduced by row `k`.
pub open spec fn eliminated<T: Scalar>(w: Seq<Seq<T>>, k: int) -> Seq<Seq<T>> {
    Seq::new(w.len(), |i: int| if i <= k { w[i] } else { reduced_row(w[k], w[i], k) })
}

/// The right-hand side after the row operations of `eliminated(w, k)`.
pub open spec fn eliminated_rhs<T: Scalar>(w: Seq<Seq<T>>, rhs: Seq<T>, k: int) -> Seq<T> {
    Seq::new(
        rhs.len(),
        |i: int|
            if i <= k {
                rhs[i]
            } else {
                T::spec_sub(rhs[i], T::spec_mul(multiplier(w[k], w[i], k), rhs[k]))
            },
    )
}

/// Forward elimination of an `n`-row system from column `k` on: the
/// upper-triangular system, or `None` when some pivot is negligible.
pub open spec fn forward<T: Scalar>(w: Seq<Seq<T>>, rhs: Seq<T>, n: int, k: int) -> Option<
    (Seq<Seq<T>>, Seq<T>),
>
    decreases n - k,
{
    if k >= n || k < 0 {
        Some((w, rhs))
    } else {
        let p = pivot_row(w, k, n);
        if T::spec_negligible(w[p][k]) {
            None
        } else {
            let w1 = swap_rows(w, k, p);
            let rhs1 = swap_rows(rhs, k, p);
            forward(eliminated(w1, k), eliminated_rhs(w1, rhs1, k), n, k + 1)
        }
    }
}

/// `row[lo] * x[lo] + ... + row[hi - 1] * x[hi - 1]`, summed left to right
/// from zero.
pub open spec fn row_sum<T: Scalar>(row: Seq<T>, x: Seq<T>, lo: int, hi: int) -> T
    decreases hi - lo,
{
    if hi <= lo {
        T::spec_zero()
    } else {
        T::spec_add(row_sum(row, x, lo, hi - 1), T::spec_mul(row[hi - 1], x[hi - 1]))
    }
}

/// Back substitution on an upper-triangular system: unknowns `i..` solved
/// from the last one up, earlier entries still zero.
pub open spec fn back_substituted<T: Scalar>(w: Seq<Seq<T>>, rhs: Seq<T>, i: int) -> Seq<T>
    decreases w.len() - i,
{
    if i >= w.len() || i < 0 {
        Seq::new(w.len(), |j: int| T::spec_zero())
    } else {
        let x = back_substituted(w, rhs, i + 1);
        x.update(
            i,
            T::spec_div(T::spec_sub(rhs[i], row_sum(w[i], x, i + 1, w.len() as int)), w[i][i]),
        )
    }
}

/// `a` is square and `b` is a single column with one entry per row of `a`.
pub open spec fn dims_match<T: Copy>(a: &Matrix<T>, b: &Matrix<T>) -> bool {
    &&& a.spec_rows() == a.spec_cols()
    &&& b.spec_rows() == a.spec_rows()
    &&& b.spec_cols() == 1
}

/// What solving `a x = b` gives: the solution's entries, or the error.
pub open spec fn solution<T: Scalar>(a: &Matrix<T>, b: &Matrix<T>) -> Result<Seq<T>, SolverError> {
    if !dims_match(a, b) {
        Err(SolverError::DimensionMismatch)
    } else {
        match forward(matrix_rows(a), b.col_seq(0), a.spec_rows() as int, 0) {
            None => Err(SolverError::SingularMatrix),
            Some((w, rhs)) => Ok(back_substituted(w, rhs, 0)),
        }
    }
}

pub proof fn lemma_pivot_in_range<T: Scalar>(w: Seq<Seq<T>>, k: int, end: int)
    requires
        k < end,
    ensures
        k <= pivot_row(w, k, end) < end,
    decreases end - k,
{
    if end > k + 1 {
        lemma_pivot_in_range(w, k, end - 1);
    }
}

/// The pivot row for column `k`: the first row in `k..n` whose entry in
/// column `k` no later row outweighs.
fn select_pivot<T: Scalar>(w: &Vec<Vec<T>>, k: usize) -> (p: usize)
    requires
        k < w@.len(),
        all_rows_len(rows_of(w@), w@.len() as int),
    ensures
        p == pivot_row(rows_of(w@), k as int, w@.len() as int),
        k <= p < w@.len(),
{
    let n = w.len();
    let mut best: usize = k;
    let mut i: usize = k + 1;
    while i < n
        invariant
            k < i <= n,
            n == w@.len(),
            all_rows_len(rows_of(w@), n as int),
            best == pivot_row(rows_of(w@), k as int, i as int),
            k <= best < i,
        decreases n - i,
    {
        assert(rows_of(w@)[i as int].len() == n);
        assert(rows_of(w@)[best as int].len() == n);
        let cand: T = w[i][k];
        let cur: T = w[best][k];
        if cand.outweighs(&cur) {
            best = i;
        }
        i = i + 1;
    }
    best
}

/// A copy of `row` reduced by `pivot` on columns `k..`.
fn reduce_row<T: Scalar>(pivot: &Vec<T>, row: &Vec<T>, k: usize) -> (r: Vec<T>)
    requires
        k < pivot@.len(),
        pivot@.len() == row@.len(),
    ensures
        r@ == reduced_row(pivot@, row@, k as int),
{
    let n = row.len();
    let m = row[k].div(&pivot[k]);
    let mut out: Vec<T> = Vec::new();
    let mut j: usize = 0;
    while j < n
        invariant
            j <= n,
            n == row@.len(),
            n == pivot@.len(),
            k < n,
            m == multiplier(pivot@, row@, k as int),
            out@ =~= reduced_row(pivot@, row@, k as int).take(j as int),
        decreases n - j,
    {
        if j < k {
            out.push(row[j]);
        } else {
            let scaled = m.mul(&pivot[j]);
            out.push(row[j].sub(&scaled));
        }
        j = j + 1;
    }
    out
}

/// `row[lo] * x[lo] + ... + row[n - 1] * x[n - 1]`, summed left to right.
fn dot_from<T: Scalar>(row: &Vec<T>, x: &Vec<T>, lo: usize) -> (s: T)
    requires
        lo <= row@.len(),
        row@.len() == x@.len(),
    ensures
        s == row_sum(row@, x@, lo as int, row@.len() as int),
{
    let n = row.len();
    let mut acc = T::zero();
    let mut j: usize = lo;
    while j < n
        invariant
            lo <= j <= n,
            n == row@.len(),
            n == x@.len(),
            acc == row_sum(row@, x@, lo as int, j as int),
        decreases n - j,
    {
        let term = row[j].mul(&x[j]);
        acc = acc.add(&term);
        j = j + 1;
    }
    acc
}

/// Every entry of `row` is zero.
pub open spec fn is_zero_row<T: Scalar>(row: Seq<T>) -> bool {
    forall|j: int| 0 <= j < row.len() ==> row[j] == T::spec_zero()
}

/// Forward elimination fails on a system that keeps a row of zeros at or
/// below the current pivot column.
proof fn lemma_forward_zero_row<T: Scalar>(
    w: Seq<Seq<T>>,
    rhs: Seq<T>,
    n: int,
    k: int,
    z: int,
)
    requires
        0 <= k <= z < n,
        w.len() == n,
        all_rows_len(w, n),
        is_zero_row(w[z]),
    ensures
        forward(w, rhs, n, k) is None,
    decreases n - k,
{
    let p = pivot_row(w, k, n);
    lemma_pivot_in_range(w, k, n);
    T::lemma_zero_negligible();
    if !T::spec_negligible(w[p][k]) {
        assert(w[z][k] == T::spec_zero());
        let w1 = swap_rows(w, k, p);
        let rhs1 = swap_rows(rhs, k, p);
        let z1 = if z == k {
            p
        } else {
            z
        };
        assert(w1[z1] == w[z]);
        let w2 = eliminated(w1, k);
        let pivot = w1[k];
        T::lemma_zero_div(pivot[k]);
        T::lemma_zero_sub_zero();
        assert forall|j: int| 0 <= j < w2[z1].len() implies w2[z1][j] == T::spec_zero() by {
            T::lemma_zero_mul(pivot[j]);
        }
        assert(all_rows_len(w2, n));
        lemma_forward_zero_row(w2, eliminated_rhs(w1, rhs1, k), n, k + 1, z1);
    }
}

/// A square system whose coefficient matrix has a row of zeros is singular:
/// solving it reports `SingularMatrix` and gives no solution.
pub proof fn lemma_zero_row_singular<T: Scalar>(a: &Matrix<T>, b: &Matrix<T>, z: int)
    requires
        a.wf(),
        b.wf(),
        dims_match(a, b),
        0 <= z < a.spec_rows(),
        is_zero_row(a.row_seq(z)),
    ensures
        solution(a, b) == Err::<Seq<T>, SolverError>(SolverError::SingularMatrix),
{
    lemma_forward_zero_row(matrix_rows(a), b.col_seq(0), a.spec_rows() as int, 0, z);
}

/// A linear system `A x = b` awaiting solution. It borrows its inputs and
/// never changes them.
pub struct GaussElimination<'a, T> {
    a: &'a Matrix<T>,
    b: &'a Vector<T>,
}

impl<'a, T: Scalar> GaussElimination<'a, T> {
    /// The coefficient matrix `A`.
    pub closed spec fn coefficients(&self) -> Matrix<T> {
        *self.a
    }

    /// The right-hand side `b`.
    pub closed spec fn rhs(&self) -> Vector<T> {
        *self.b
    }

    /// `r` is what solving this system gives.
    pub open spec fn outcome(&self, r: Result<Vector<T>, SolverError>) -> bool {
        match (r, solution(&self.coefficients(), &self.rhs())) {
            (Ok(x), Ok(s)) => x.wf() && x.spec_cols() == 1 && x.col_seq(0) == s,
            (Err(e), Err(f)) => e == f,
            _ => false,
        }
    }

    /// Solving the same system twice gives the same result: `solve` reads its
    /// inputs and never changes them.
    pub proof fn lemma_solve_repeatable(
        &self,
        r1: Result<Vector<T>, SolverError>,
        r2: Result<Vector<T>, SolverError>,
    )
        requires
            self.outcome(r1),
            self.outcome(r2),
        ensures
            match (r1, r2) {
                (Ok(x1), Ok(x2)) => x1.col_seq(0) == x2.col_seq(0),
                (Err(e1), Err(e2)) => e1 == e2,
                _ => false,
            },
    {
    }

    /// The system `a x = b`. Dimensions are checked by `solve`, not here.
    pub fn new(a: &'a Matrix<T>, b: &'a Vector<T>) -> (g: GaussElimination<'a, T>)
        ensures
            g.coefficients() == *a,
            g.rhs() == *b,
    {
        GaussElimination { a, b }
    }

    /// Solves the system by forward elimination with partial pivoting and
    /// back substitution, on working copies of `A` and `b`.
    ///
    /// Fails with `DimensionMismatch`, before any arithmetic, exactly when
    /// `A` is not square or `b` is not a column with one entry per row of
    /// `A`; fails with `SingularMatrix` when a pivot is negligible.
    pub fn solve(&self) -> (r: Result<Vector<T>, SolverError>)
        requires
            self.coefficients().wf(),
            self.rhs().wf(),
        ensures
            self.outcome(r),
            r == Err::<Vector<T>, SolverError>(SolverError::DimensionMismatch) <==> !dims_match(
                &self.coefficients(),
                &self.rhs(),
            ),
    {
        let a = self.a;
        let b = self.b;
        let n = a.rows();
        if n != a.cols() || b.rows() != n || b.cols() != 1 {
            return Err(SolverError::DimensionMismatch);
        }
        // working copies: the coefficients row by row, and the right-hand side
        let mut w: Vec<Vec<T>> = Vec::new();
        let mut i: usize = 0;
        while i < n
            invariant
                i <= n,
                n == a.spec_rows(),
                n == a.spec_cols(),
                a.wf(),
                w@.len() == i,
                forall|ii: int| 0 <= ii < i ==> (#[trigger] w@[ii])@ == a.row_seq(ii),
            decreases n - i,
        {
            let mut row: Vec<T> = Vec::new();
            let mut j: usize = 0;
            while j < n
                invariant
                    i < n,
                    j <= n,
                    n == a.spec_rows(),
                    n == a.spec_cols(),
                    a.wf(),
                    row@ =~= a.row_seq(i as int).take(j as int),
                decreases n - j,
            {
                row.push(a.element_at(i, j));
                j = j + 1;
            }
            w.push(row);
            i = i + 1;
        }
        assert(rows_of(w@) =~= matrix_rows(a));
        let mut rhs: Vec<T> = Vec::new();
        let mut i: usize = 0;
        while i < n
            invariant
                i <= n,
                n == b.spec_rows(),
                b.spec_cols() == 1,
                b.wf(),
                rhs@ =~= b.col_seq(0).take(i as int),
            decreases n - i,
        {
            rhs.push(b.element_at(i, 0));
            i = i + 1;
        }
        assert(rhs@ =~= b.col_seq(0));
        let ghost goal = forward(matrix_rows(a), b.col_seq(0), n as int, 0);
        let mut k: usize = 0;
        while k < n
            invariant
                k <= n,
                n == a.spec_rows(),
                dims_match(a, b),
                *a == self.coefficients(),
                *b == self.rhs(),
                goal == forward(matrix_rows(a), b.col_seq(0), n as int, 0),
                w@.len() == n,
                rhs@.len() == n,
                all_rows_len(rows_of(w@), n as int),
                forward(rows_of(w@), rhs@, n as int, k as int) == goal,
            decreases n - k,
        {
            let p = select_pivot(&w, k);
            assert(rows_of(w@)[p as int].len() == n);
            let pv: T = w[p][k];
            if pv.is_negligible() {
                return Err(SolverError::SingularMatrix);
            }
            let ghost w0 = rows_of(w@);
            let ghost r0 = rhs@;
            if p != k {
                let mut tmp: Vec<T> = Vec::new();
                std::mem::swap(&mut tmp, &mut w[k]);
                std::mem::swap(&mut tmp, &mut w[p]);
                w[k] = tmp;
                let rk: T = rhs[k];
                let rp: T = rhs[p];
                rhs[k] = rp;
                rhs[p] = rk;
            }
            let ghost w1 = rows_of(w@);
            let ghost r1 = rhs@;
            assert(w1 =~= swap_rows(w0, k as int, p as int));
            assert(r1 =~= swap_rows(r0, k as int, p as int));
            let mut i: usize = k + 1;
            while i < n
                invariant
                    k < n,
                    k < i <= n,
                    w@.len() == n,
                    rhs@.len() == n,
                    w1.len() == n,
                    r1.len() == n,
                    all_rows_len(w1, n as int),
                    all_rows_len(rows_of(w@), n as int),
                    rows_of(w@) =~= Seq::new(
                        n as nat,
                        |ii: int|
                            if k < ii < i {
                                reduced_row(w1[k as int], w1[ii], k as int)
                            } else {
                                w1[ii]
                            },
                    ),
                    rhs@ =~= Seq::new(
                        n as nat,
                        |ii: int|
                            if k < ii < i {
                                T::spec_sub(
                                    r1[ii],
                                    T::spec_mul(multiplier(w1[k as int], w1[ii], k as int), r1[k as int]),
                                )
                            } else {
                                r1[ii]
                            },
                    ),
                decreases n - i,
            {
                assert(rows_of(w@)[k as int] == w1[k as int]);
                assert(rows_of(w@)[i as int] == w1[i as int]);
                let new_row = reduce_row(&w[k], &w[i], k);
                let m = w[i][k].div(&w[k][k]);
                let t = m.mul(&rhs[k]);
                let v = rhs[i].sub(&t);
                let ghost before = w@;
                w[i] = new_row;
                assert(w@ == before.update(i as int, new_row));
                assert(rows_of(w@) =~= rows_of(before).update(i as int, new_row@));
                rhs[i] = v;
                i = i + 1;
            }
            assert(rows_of(w@) =~= eliminated(w1, k as int));
            assert(rhs@ =~= eliminated_rhs(w1, r1, k as int));
            k = k + 1;
        }
        // back substitution, from the last unknown up
        let ghost wf = rows_of(w@);
        let ghost rf = rhs@;
        let mut x: Vec<T> = Vec::new();
        let mut i: usize = 0;
        while i < n
            invariant
                i <= n,
                x@ =~= Seq::new(i as nat, |j: int| T::spec_zero()),
            decreases n - i,
        {
            x.push(T::zero());
            i = i + 1;
        }
        assert(x@ =~= back_substituted(wf, rf, n as int));
        let mut i: usize = n;
        while i > 0
            invariant
                i <= n,
                w@.len() == n,
                rhs@.len() == n,
                wf == rows_of(w@),
                rf == rhs@,
                all_rows_len(wf, n as int),
                x@ == back_substituted(wf, rf, i as int),
                x@.len() == n,
            decreases i,
        {
            i = i - 1;
            assert(wf[i as int].len() == n);
            let s = dot_from(&w[i], &x, i + 1);
            let d = rhs[i].sub(&s);
            let xi = d.div(&w[i][i]);
            x[i] = xi;
        }
        Ok(Matrix::vector(x))
    }
}

} // verus!
