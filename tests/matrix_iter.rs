use scirust::iter::{CellIterator, ColIterator, DiagIterator, RowIterator};
use scirust::matrix::Matrix;

fn sample() -> Matrix<u32> {
    // [[1, 2, 3],
    //  [4, 5, 6]] stored column by column
    Matrix::from_col_major(2, 3, vec![1, 4, 2, 5, 3, 6]).unwrap()
}

fn drain_row(mut it: RowIterator<'_, u32>) -> Vec<u32> {
    let mut out = Vec::new();
    while let Some(x) = it.next() {
        out.push(x);
    }
    out
}

fn drain_col(mut it: ColIterator<'_, u32>) -> Vec<u32> {
    let mut out = Vec::new();
    while let Some(x) = it.next() {
        out.push(x);
    }
    out
}

fn drain_cells(mut it: CellIterator<'_, u32>) -> Vec<u32> {
    let mut out = Vec::new();
    while let Some(x) = it.next() {
        out.push(x);
    }
    out
}

fn drain_diag(mut it: DiagIterator<'_, u32>) -> Vec<u32> {
    let mut out = Vec::new();
    while let Some(x) = it.next() {
        out.push(x);
    }
    out
}

#[test]
fn shape_accessors() {
    let m = sample();
    assert_eq!(m.rows(), 2);
    assert_eq!(m.cols(), 3);
    assert_eq!(m.stride(), 2);
    assert_eq!(m.element_at(0, 0), 1);
    assert_eq!(m.element_at(1, 0), 4);
    assert_eq!(m.element_at(0, 2), 3);
    assert_eq!(m.element_at(1, 2), 6);
}

#[test]
fn constructors_reject_bad_lengths() {
    assert!(Matrix::from_col_major(2, 3, vec![1u32, 2, 3]).is_none());
    assert!(Matrix::from_col_major(2, 2, Vec::<u32>::new()).is_none());
    assert!(Matrix::with_stride(3, 2, 2, vec![0u32; 10]).is_none());
    assert!(Matrix::with_stride(2, 3, 4, vec![0u32; 9]).is_none());
    assert!(Matrix::with_stride(2, 3, 4, vec![0u32; 10]).is_some());
    assert!(Matrix::from_col_major(0, 0, Vec::<u32>::new()).is_some());
}

#[test]
fn cell_iter_is_column_major() {
    let m = sample();
    assert_eq!(drain_cells(m.cell_iter()), vec![1, 4, 2, 5, 3, 6]);
}

#[test]
fn cell_iter_skips_column_slack() {
    // stride 3 over 2 rows: the third slot of each column is unused
    let m = Matrix::with_stride(2, 3, 3, vec![1u32, 4, 99, 2, 5, 99, 3, 6]).unwrap();
    assert_eq!(drain_cells(m.cell_iter()), vec![1, 4, 2, 5, 3, 6]);
    assert_eq!(drain_row(m.row_iter(1)), vec![4, 5, 6]);
    assert_eq!(drain_diag(m.diag_iter()), vec![1, 5]);
}

#[test]
fn cell_iter_without_rows_yields_nothing() {
    let m = Matrix::from_col_major(0, 3, Vec::<u32>::new()).unwrap();
    assert_eq!(drain_cells(m.cell_iter()), Vec::<u32>::new());
    let m = Matrix::from_col_major(3, 0, Vec::<u32>::new()).unwrap();
    assert_eq!(drain_cells(m.cell_iter()), Vec::<u32>::new());
    assert_eq!(drain_diag(m.diag_iter()), Vec::<u32>::new());
}

#[test]
fn row_iter_walks_one_row() {
    let m = sample();
    assert_eq!(drain_row(m.row_iter(0)), vec![1, 2, 3]);
    assert_eq!(drain_row(RowIterator::new(&m, 1)), vec![4, 5, 6]);
}

#[test]
fn col_iter_walks_one_column() {
    let m = sample();
    assert_eq!(drain_col(m.col_iter(0)), vec![1, 4]);
    assert_eq!(drain_col(ColIterator::new(&m, 2)), vec![3, 6]);
}

#[test]
fn diag_iter_stops_at_shorter_side() {
    let m = sample();
    assert_eq!(drain_diag(m.diag_iter()), vec![1, 5]);
    let tall = Matrix::from_col_major(3, 2, vec![1u32, 2, 3, 4, 5, 6]).unwrap();
    assert_eq!(drain_diag(DiagIterator::new(&tall)), vec![1, 5]);
}

#[test]
fn exhausted_cursor_stays_exhausted() {
    let m = sample();
    let mut it = CellIterator::new(&m);
    for _ in 0..6 {
        assert!(it.next().is_some());
    }
    assert_eq!(it.next(), None);
    assert_eq!(it.next(), None);
}

#[test]
fn vector_is_one_column() {
    let v = Matrix::vector(vec![7u32, 8, 9]);
    assert_eq!(v.rows(), 3);
    assert_eq!(v.cols(), 1);
    assert_eq!(drain_col(v.col_iter(0)), vec![7, 8, 9]);
}
