//! What a successful solve means: over an element type whose operations obey
//! the field laws, the returned vector satisfies every equation of the system.
use crate::gauss::{
    all_rows_len, back_substituted, dims_match, eliminated, eliminated_rhs, forward, matrix_rows,
    multiplier, pivot_row, reduced_row, row_sum, solution, swap_rows,
};
use crate::matrix::Matrix;
use crate::scalar::Scalar;
use vstd::prelude::*;

verus! {

/// The laws of a field, in the form the elimination argument uses them.
#[verifier::opaque]
pub open spec fn field_laws<T: Scalar>() -> bool {
    &&& forall|a: T, b: T| #[trigger] T::spec_add(a, b) == T::spec_add(b, a)
    &&& forall|a: T, b: T, c: T| #[trigger]
        T::spec_add(T::spec_add(a, b), c) == T::spec_add(a, T::spec_add(b, c))
    &&& forall|a: T| #[trigger] T::spec_add(a, T::spec_zero()) == a
    &&& forall|a: T, b: T| #[trigger] T::spec_mul(a, b) == T::spec_mul(b, a)
    &&& forall|a: T, b: T, c: T| #[trigger]
        T::spec_mul(T::spec_mul(a, b), c) == T::spec_mul(a, T::spec_mul(b, c))
    &&& forall|a: T| #[trigger] T::spec_mul(T::spec_zero(), a) == T::spec_zero()
    &&& forall|a: T, b: T, c: T| #[trigger]
        T::spec_mul(a, T::spec_add(b, c)) == T::spec_add(T::spec_mul(a, b), T::spec_mul(a, c))
    &&& forall|a: T, b: T| #[trigger] T::spec_add(T::spec_sub(a, b), b) == a
    &&& forall|b: T, c: T| #[trigger] T::spec_sub(T::spec_add(c, b), b) == c
    &&& forall|a: T, b: T|
        !T::spec_negligible(b) ==> #[trigger] T::spec_mul(T::spec_div(a, b), b) == a
}

proof fn lemma_add_comm<T: Scalar>(a: T, b: T)
    requires
        field_laws::<T>(),
    ensures
        T::spec_add(a, b) == T::spec_add(b, a),
{
    reveal(field_laws);
}

proof fn lemma_add_assoc<T: Scalar>(a: T, b: T, c: T)
    requires
        field_laws::<T>(),
    ensures
        T::spec_add(T::spec_add(a, b), c) == T::spec_add(a, T::spec_add(b, c)),
{
    reveal(field_laws);
}

proof fn lemma_add_zero<T: Scalar>(a: T)
    requires
        field_laws::<T>(),
    ensures
        T::spec_add(a, T::spec_zero()) == a,
        T::spec_add(T::spec_zero(), a) == a,
{
    reveal(field_laws);
    assert(T::spec_add(T::spec_zero(), a) == T::spec_add(a, T::spec_zero()));
}

proof fn lemma_mul_comm<T: Scalar>(a: T, b: T)
    requires
        field_laws::<T>(),
    ensures
        T::spec_mul(a, b) == T::spec_mul(b, a),
{
    reveal(field_laws);
}

proof fn lemma_mul_assoc<T: Scalar>(a: T, b: T, c: T)
    requires
        field_laws::<T>(),
    ensures
        T::spec_mul(T::spec_mul(a, b), c) == T::spec_mul(a, T::spec_mul(b, c)),
{
    reveal(field_laws);
}

proof fn lemma_mul_zero<T: Scalar>(a: T)
    requires
        field_laws::<T>(),
    ensures
        T::spec_mul(T::spec_zero(), a) == T::spec_zero(),
        T::spec_mul(a, T::spec_zero()) == T::spec_zero(),
{
    reveal(field_laws);
    assert(T::spec_mul(a, T::spec_zero()) == T::spec_mul(T::spec_zero(), a));
}

proof fn lemma_distrib<T: Scalar>(a: T, b: T, c: T)
    requires
        field_laws::<T>(),
    ensures
        T::spec_mul(a, T::spec_add(b, c)) == T::spec_add(T::spec_mul(a, b), T::spec_mul(a, c)),
{
    reveal(field_laws);
}

proof fn lemma_sub_add<T: Scalar>(a: T, b: T)
    requires
        field_laws::<T>(),
    ensures
        T::spec_add(T::spec_sub(a, b), b) == a,
{
    reveal(field_laws);
}

proof fn lemma_sub_self<T: Scalar>(a: T)
    requires
        field_laws::<T>(),
    ensures
        T::spec_sub(a, a) == T::spec_zero(),
{
    reveal(field_laws);
    assert(T::spec_sub(T::spec_add(T::spec_zero(), a), a) == T::spec_zero());
    assert(T::spec_add(T::spec_zero(), a) == T::spec_add(a, T::spec_zero()));
}

proof fn lemma_div_mul<T: Scalar>(a: T, b: T)
    requires
        field_laws::<T>(),
        !T::spec_negligible(b),
    ensures
        T::spec_mul(T::spec_div(a, b), b) == a,
{
    reveal(field_laws);
}

proof fn lemma_add_swap_middle<T: Scalar>(a: T, b: T, c: T, d: T)
    requires
        field_laws::<T>(),
    ensures
        T::spec_add(T::spec_add(a, b), T::spec_add(c, d)) == T::spec_add(
            T::spec_add(a, c),
            T::spec_add(b, d),
        ),
{
    lemma_add_assoc(a, b, T::spec_add(c, d));
    lemma_add_assoc(b, c, d);
    lemma_add_comm(b, c);
    lemma_add_assoc(c, b, d);
    lemma_add_assoc(a, c, T::spec_add(b, d));
}

/// Row `i` of `w` dotted with `x` gives `rhs[i]`, for every row.
pub open spec fn satisfies<T: Scalar>(w: Seq<Seq<T>>, rhs: Seq<T>, x: Seq<T>, n: int) -> bool {
    forall|i: int| 0 <= i < n ==> #[trigger] row_sum(w[i], x, 0, n) == rhs[i]
}

/// Rows `k..` are zero in columns `..k`.
pub open spec fn below_cleared<T: Scalar>(w: Seq<Seq<T>>, k: int) -> bool {
    forall|i: int, j: int| k <= i < w.len() && 0 <= j < k ==> #[trigger] w[i][j] == T::spec_zero()
}

/// Rows `..k` are zero left of the diagonal and have a usable pivot on it.
pub open spec fn settled<T: Scalar>(w: Seq<Seq<T>>, k: int) -> bool {
    &&& forall|i: int, j: int| 0 <= j < i < k ==> #[trigger] w[i][j] == T::spec_zero()
    &&& forall|i: int| 0 <= i < k ==> !T::spec_negligible(#[trigger] w[i][i])
}

proof fn lemma_row_sum_frame<T: Scalar>(row: Seq<T>, x: Seq<T>, y: Seq<T>, lo: int, hi: int)
    requires
        forall|j: int| lo <= j < hi ==> x[j] == y[j],
    ensures
        row_sum(row, x, lo, hi) == row_sum(row, y, lo, hi),
    decreases hi - lo,
{
    if hi > lo {
        lemma_row_sum_frame(row, x, y, lo, hi - 1);
    }
}

proof fn lemma_row_sum_zeros<T: Scalar>(row: Seq<T>, x: Seq<T>, lo: int, hi: int)
    requires
        field_laws::<T>(),
        forall|j: int| lo <= j < hi ==> row[j] == T::spec_zero(),
    ensures
        row_sum(row, x, lo, hi) == T::spec_zero(),
    decreases hi - lo,
{
    if hi > lo {
        lemma_row_sum_zeros(row, x, lo, hi - 1);
        lemma_mul_zero(x[hi - 1]);
        lemma_add_zero(T::spec_zero());
    }
}

proof fn lemma_row_sum_split<T: Scalar>(row: Seq<T>, x: Seq<T>, lo: int, mid: int, hi: int)
    requires
        field_laws::<T>(),
        lo <= mid <= hi,
    ensures
        row_sum(row, x, lo, hi) == T::spec_add(row_sum(row, x, lo, mid), row_sum(row, x, mid, hi)),
    decreases hi - mid,
{
    if hi == mid {
        lemma_add_zero(row_sum(row, x, lo, mid));
    } else {
        lemma_row_sum_split(row, x, lo, mid, hi - 1);
        lemma_add_assoc(
            row_sum(row, x, lo, mid),
            row_sum(row, x, mid, hi - 1),
            T::spec_mul(row[hi - 1], x[hi - 1]),
        );
    }
}

proof fn lemma_term_split<T: Scalar>(r: T, m: T, p: T, xj: T)
    requires
        field_laws::<T>(),
    ensures
        T::spec_add(
            T::spec_mul(T::spec_sub(r, T::spec_mul(m, p)), xj),
            T::spec_mul(m, T::spec_mul(p, xj)),
        ) == T::spec_mul(r, xj),
{
    let v = T::spec_mul(m, p);
    let u = T::spec_sub(r, v);
    lemma_mul_assoc(m, p, xj);
    lemma_mul_comm(u, xj);
    lemma_mul_comm(v, xj);
    lemma_distrib(xj, u, v);
    lemma_sub_add(r, v);
    lemma_mul_comm(xj, r);
}

/// Reducing `row` by `pivot` takes `multiplier` times the pivot's sum from
/// the row's sum, when the pivot row is zero before column `k`.
proof fn lemma_reduced_row_sum<T: Scalar>(pivot: Seq<T>, row: Seq<T>, x: Seq<T>, k: int, hi: int)
    requires
        field_laws::<T>(),
        0 <= k < pivot.len(),
        pivot.len() == row.len(),
        0 <= hi <= row.len(),
        forall|j: int| 0 <= j < k ==> pivot[j] == T::spec_zero(),
    ensures
        T::spec_add(
            row_sum(reduced_row(pivot, row, k), x, 0, hi),
            T::spec_mul(multiplier(pivot, row, k), row_sum(pivot, x, 0, hi)),
        ) == row_sum(row, x, 0, hi),
    decreases hi,
{
    let m = multiplier(pivot, row, k);
    let rr = reduced_row(pivot, row, k);
    if hi == 0 {
        lemma_mul_zero(m);
        lemma_add_zero(T::spec_zero());
    } else {
        lemma_reduced_row_sum(pivot, row, x, k, hi - 1);
        let j = hi - 1;
        let a1 = row_sum(rr, x, 0, j);
        let t1 = T::spec_mul(rr[j], x[j]);
        let b = row_sum(pivot, x, 0, j);
        let p = T::spec_mul(pivot[j], x[j]);
        lemma_distrib(m, b, p);
        lemma_add_swap_middle(a1, t1, T::spec_mul(m, b), T::spec_mul(m, p));
        if j < k {
            lemma_mul_zero(x[j]);
            lemma_mul_zero(m);
            lemma_add_zero(t1);
        } else {
            lemma_term_split(row[j], m, pivot[j], x[j]);
        }
    }
}

/// A solution of the system after one elimination step solves the system
/// before it.
proof fn lemma_eliminated_sound<T: Scalar>(w1: Seq<Seq<T>>, r1: Seq<T>, k: int, n: int, x: Seq<T>)
    requires
        field_laws::<T>(),
        0 <= k < n,
        w1.len() == n,
        r1.len() == n,
        all_rows_len(w1, n),
        forall|j: int| 0 <= j < k ==> w1[k][j] == T::spec_zero(),
        satisfies(eliminated(w1, k), eliminated_rhs(w1, r1, k), x, n),
    ensures
        satisfies(w1, r1, x, n),
{
    let w2 = eliminated(w1, k);
    let r2 = eliminated_rhs(w1, r1, k);
    assert(row_sum(w2[k], x, 0, n) == r2[k]);
    assert forall|i: int| 0 <= i < n implies #[trigger] row_sum(w1[i], x, 0, n) == r1[i] by {
        assert(row_sum(w2[i], x, 0, n) == r2[i]);
        if i > k {
            lemma_reduced_row_sum(w1[k], w1[i], x, k, n);
            let m = multiplier(w1[k], w1[i], k);
            lemma_sub_add(r1[i], T::spec_mul(m, r1[k]));
        }
    }
}

/// Forward elimination from column `k` yields an upper-triangular system with
/// usable pivots, and each of its solutions solves the system it started
/// from.
proof fn lemma_forward_sound<T: Scalar>(w: Seq<Seq<T>>, rhs: Seq<T>, n: int, k: int, x: Seq<T>)
    requires
        field_laws::<T>(),
        0 <= k <= n,
        w.len() == n,
        rhs.len() == n,
        all_rows_len(w, n),
        below_cleared(w, k),
        settled(w, k),
        forward(w, rhs, n, k) is Some,
    ensures
        ({
            let (wf, rf) = forward(w, rhs, n, k)->Some_0;
            &&& wf.len() == n
            &&& rf.len() == n
            &&& all_rows_len(wf, n)
            &&& settled(wf, n)
            &&& x.len() == n && satisfies(wf, rf, x, n) ==> satisfies(w, rhs, x, n)
        }),
    decreases n - k,
{
    if k < n {
        let p = pivot_row(w, k, n);
        crate::gauss::lemma_pivot_in_range(w, k, n);
        let w1 = swap_rows(w, k, p);
        let r1 = swap_rows(rhs, k, p);
        let w2 = eliminated(w1, k);
        let r2 = eliminated_rhs(w1, r1, k);
        assert(all_rows_len(w1, n));
        assert(all_rows_len(w2, n));
        assert(below_cleared(w2, k + 1)) by {
            assert forall|i: int, j: int| k + 1 <= i < w2.len() && 0 <= j < k + 1 implies #[trigger] w2[i][j]
                == T::spec_zero() by {
                if j == k {
                    lemma_div_mul(w1[i][k], w1[k][k]);
                    lemma_sub_self(w1[i][k]);
                } else {
                    assert(w1[i][j] == T::spec_zero());
                }
            }
        }
        assert(settled(w2, k + 1)) by {
            assert forall|i: int, j: int| 0 <= j < i < k + 1 implies #[trigger] w2[i][j]
                == T::spec_zero() by {
                if i == k {
                    assert(w1[k][j] == T::spec_zero());
                }
            }
        }
        lemma_forward_sound(w2, r2, n, k + 1, x);
        if x.len() == n && satisfies(forward(w, rhs, n, k)->Some_0.0, forward(w, rhs, n, k)->Some_0.1, x, n) {
            assert forall|j: int| 0 <= j < k implies w1[k][j] == T::spec_zero() by {
                assert(w1[k][j] == T::spec_zero());
            }
            lemma_eliminated_sound(w1, r1, k, n, x);
            assert forall|i: int| 0 <= i < n implies #[trigger] row_sum(w[i], x, 0, n) == rhs[i] by {
                if i == k {
                    assert(row_sum(w1[p], x, 0, n) == r1[p]);
                } else if i == p {
                    assert(row_sum(w1[k], x, 0, n) == r1[k]);
                } else {
                    assert(row_sum(w1[i], x, 0, n) == r1[i]);
                }
            }
        }
    }
}

proof fn lemma_back_len<T: Scalar>(w: Seq<Seq<T>>, rhs: Seq<T>, i: int)
    ensures
        back_substituted(w, rhs, i).len() == w.len(),
    decreases w.len() - i,
{
    if 0 <= i < w.len() {
        lemma_back_len(w, rhs, i + 1);
    }
}

proof fn lemma_back_frame<T: Scalar>(w: Seq<Seq<T>>, rhs: Seq<T>, lo: int, i: int)
    requires
        0 <= lo <= i <= w.len(),
    ensures
        forall|j: int|
            i <= j < w.len() ==> back_substituted(w, rhs, lo)[j] == back_substituted(w, rhs, i)[j],
    decreases i - lo,
{
    if lo < i {
        lemma_back_frame(w, rhs, lo + 1, i);
        lemma_back_len(w, rhs, lo + 1);
    }
}

/// Back substitution solves an upper-triangular system with usable pivots.
proof fn lemma_back_substituted_solves<T: Scalar>(w: Seq<Seq<T>>, rhs: Seq<T>, n: int)
    requires
        field_laws::<T>(),
        w.len() == n,
        rhs.len() == n,
        all_rows_len(w, n),
        settled(w, n),
    ensures
        satisfies(w, rhs, back_substituted(w, rhs, 0), n),
{
    let x = back_substituted(w, rhs, 0);
    lemma_back_len(w, rhs, 0);
    assert forall|i: int| 0 <= i < n implies #[trigger] row_sum(w[i], x, 0, n) == rhs[i] by {
        let y = back_substituted(w, rhs, i + 1);
        lemma_back_len(w, rhs, i + 1);
        lemma_back_frame(w, rhs, 0, i + 1);
        lemma_back_frame(w, rhs, 0, i);
        lemma_row_sum_frame(w[i], x, y, i + 1, n);
        let wii = w[i][i];
        let s = row_sum(w[i], x, i + 1, n);
        let d = T::spec_sub(rhs[i], s);
        let xi = x[i];
        assert(xi == T::spec_div(d, wii));
        lemma_row_sum_split(w[i], x, 0, i + 1, n);
        assert forall|j: int| 0 <= j < i implies w[i][j] == T::spec_zero() by {
            assert(w[i][j] == T::spec_zero());
        }
        lemma_row_sum_zeros(w[i], x, 0, i);
        lemma_add_zero(T::spec_mul(wii, xi));
        lemma_mul_comm(wii, xi);
        lemma_div_mul(d, wii);
        lemma_sub_add(rhs[i], s);
    }
}

/// When solving succeeds over a field, the returned vector satisfies every
/// equation of the system: row `i` of `A` dotted with `x` is `b[i]`.
pub proof fn lemma_solution_solves<T: Scalar>(a: &Matrix<T>, b: &Matrix<T>)
    requires
        field_laws::<T>(),
        a.wf(),
        b.wf(),
        solution(a, b) is Ok,
    ensures
        solution(a, b)->Ok_0.len() == a.spec_rows(),
        satisfies(matrix_rows(a), b.col_seq(0), solution(a, b)->Ok_0, a.spec_rows() as int),
{
    let n = a.spec_rows() as int;
    let w = matrix_rows(a);
    let rhs = b.col_seq(0);
    let (wf, rf) = forward(w, rhs, n, 0)->Some_0;
    let x = back_substituted(wf, rf, 0);
    lemma_forward_sound(w, rhs, n, 0, x);
    lemma_back_substituted_solves(wf, rf, n);
    lemma_back_len(wf, rf, 0);
}

/// Round trip: when `x_star` is the only solution of `A x = b`, as for a
/// non-singular `A` with `b = A x_star`, a successful solve returns exactly
/// `x_star`.
pub proof fn lemma_round_trip<T: Scalar>(a: &Matrix<T>, b: &Matrix<T>, x_star: Seq<T>)
    requires
        field_laws::<T>(),
        a.wf(),
        b.wf(),
        dims_match(a, b),
        x_star.len() == a.spec_rows(),
        satisfies(matrix_rows(a), b.col_seq(0), x_star, a.spec_rows() as int),
        forall|y: Seq<T>|
            y.len() == a.spec_rows() && satisfies(matrix_rows(a), b.col_seq(0), y, a.spec_rows() as int)
                ==> y == x_star,
        solution(a, b) is Ok,
    ensures
        solution(a, b)->Ok_0 == x_star,
{
    lemma_solution_solves(a, b);
    let n = a.spec_rows() as int;
    let x = solution(a, b)->Ok_0;
    assert(satisfies(matrix_rows(a), b.col_seq(0), x, n));
}

} // verus!
