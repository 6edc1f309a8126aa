use scirust::gauss::{GaussElimination, SolverError};
use scirust::matrix::Matrix;
use scirust::scalar::{Fp, Scalar, MODULUS};

fn fp(values: &[u64]) -> Vec<Fp> {
    values.iter().map(|&x| Fp::new(x)).collect()
}

fn solution_of(x: &Matrix<Fp>) -> Vec<u64> {
    (0..x.rows()).map(|i| x.element_at(i, 0).to_u64()).collect()
}

#[test]
fn field_arithmetic() {
    let a = Fp::new(4);
    let b = Fp::new(5);
    assert_eq!(a.add(&b).to_u64(), 9);
    assert_eq!(a.sub(&b).to_u64(), MODULUS - 1);
    assert_eq!(a.mul(&b).to_u64(), 20);
    let q = a.div(&b);
    assert_ne!(q, a);
    assert_eq!(q.mul(&b), a);
    assert_eq!(Fp::new(MODULUS + 3).to_u64(), 3);
    assert!(Fp::zero().is_negligible());
    assert!(!b.is_negligible());
    assert!(b.outweighs(&Fp::zero()));
    assert!(!b.outweighs(&a));
}

#[test]
fn dependent_rows_are_singular() {
    // [[1, 2], [4, 8]] column by column
    let a = Matrix::from_col_major(2, 2, fp(&[1, 4, 2, 8])).unwrap();
    let b = Matrix::vector(fp(&[3, 6]));
    let r = GaussElimination::new(&a, &b).solve();
    assert!(matches!(r, Err(SolverError::SingularMatrix)));
}

#[test]
fn two_by_two_system() {
    // [[2, 1], [1, 3]] x = [3, 5] has x = [4/5, 7/5]
    let a = Matrix::from_col_major(2, 2, fp(&[2, 1, 1, 3])).unwrap();
    let b = Matrix::vector(fp(&[3, 5]));
    let x = GaussElimination::new(&a, &b).solve().ok().unwrap();
    let five = Fp::new(5);
    assert_eq!(x.element_at(0, 0).mul(&five), Fp::new(4));
    assert_eq!(x.element_at(1, 0).mul(&five), Fp::new(7));
}

#[test]
fn round_trip_recovers_known_solution() {
    // A = [[0, 2, 1], [3, 1, 4], [1, 5, 9]], x* = [1, 2, 3]
    let rows: [[u64; 3]; 3] = [[0, 2, 1], [3, 1, 4], [1, 5, 9]];
    let x_star = [1u64, 2, 3];
    let mut cols = Vec::new();
    for c in 0..3 {
        for row in rows.iter() {
            cols.push(row[c]);
        }
    }
    let b: Vec<u64> = rows
        .iter()
        .map(|row| row.iter().zip(x_star.iter()).map(|(a, x)| a * x).sum())
        .collect();
    let a = Matrix::from_col_major(3, 3, fp(&cols)).unwrap();
    let b = Matrix::vector(fp(&b));
    let x = GaussElimination::new(&a, &b).solve().ok().unwrap();
    assert_eq!(solution_of(&x), vec![1, 2, 3]);
}

#[test]
fn zero_row_is_singular() {
    // [[1, 2, 3], [0, 0, 0], [4, 5, 6]]
    let a = Matrix::from_col_major(3, 3, fp(&[1, 0, 4, 2, 0, 5, 3, 0, 6])).unwrap();
    let b = Matrix::vector(fp(&[1, 2, 3]));
    let r = GaussElimination::new(&a, &b).solve();
    assert!(matches!(r, Err(SolverError::SingularMatrix)));
}

#[test]
fn non_square_matrix_is_a_dimension_mismatch() {
    let a = Matrix::from_col_major(2, 3, fp(&[1, 2, 3, 4, 5, 6])).unwrap();
    let b = Matrix::vector(fp(&[1, 2]));
    let r = GaussElimination::new(&a, &b).solve();
    assert!(matches!(r, Err(SolverError::DimensionMismatch)));
}

#[test]
fn short_rhs_is_a_dimension_mismatch() {
    let a = Matrix::from_col_major(3, 3, fp(&[1, 0, 0, 0, 1, 0, 0, 0, 1])).unwrap();
    let b = Matrix::vector(fp(&[1, 2]));
    let r = GaussElimination::new(&a, &b).solve();
    assert!(matches!(r, Err(SolverError::DimensionMismatch)));
}

#[test]
fn rhs_with_two_columns_is_a_dimension_mismatch() {
    let a = Matrix::from_col_major(2, 2, fp(&[1, 0, 0, 1])).unwrap();
    let b = Matrix::from_col_major(2, 2, fp(&[1, 2, 3, 4])).unwrap();
    let r = GaussElimination::new(&a, &b).solve();
    assert!(matches!(r, Err(SolverError::DimensionMismatch)));
}

#[test]
fn zero_pivot_needs_a_row_swap() {
    // [[0, 1], [1, 0]] x = [2, 3] has x = [3, 2]
    let a = Matrix::from_col_major(2, 2, fp(&[0, 1, 1, 0])).unwrap();
    let b = Matrix::vector(fp(&[2, 3]));
    let x = GaussElimination::new(&a, &b).solve().ok().unwrap();
    assert_eq!(solution_of(&x), vec![3, 2]);
}

#[test]
fn solving_twice_gives_the_same_answer() {
    let a = Matrix::from_col_major(2, 2, fp(&[2, 1, 1, 3])).unwrap();
    let b = Matrix::vector(fp(&[3, 5]));
    let g = GaussElimination::new(&a, &b);
    let x1 = g.solve().ok().unwrap();
    let x2 = g.solve().ok().unwrap();
    assert_eq!(solution_of(&x1), solution_of(&x2));
    // the inputs are left as they were
    assert_eq!(a.element_at(0, 0), Fp::new(2));
    assert_eq!(b.element_at(1, 0), Fp::new(5));
}

#[test]
fn empty_system_has_empty_solution() {
    let a = Matrix::from_col_major(0, 0, Vec::<Fp>::new()).unwrap();
    let b = Matrix::vector(Vec::<Fp>::new());
    let x = GaussElimination::new(&a, &b).solve().ok().unwrap();
    assert_eq!(x.rows(), 0);
}
