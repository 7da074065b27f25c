use ffsvm::sparse::{SparseMatrix, SparseVector};

#[test]
fn sparse_vector_lookup() {
    let mut v = SparseVector::new();
    v.push(1, 2.5f32);
    v.push(4, -1.0);
    assert_eq!(v.get(1), Some(2.5));
    assert_eq!(v.get(4), Some(-1.0));
    assert_eq!(v.get(0), None);
    assert_eq!(v.get(2), None);
    assert_eq!(v.get(9), None);
    assert_eq!(v.entries, vec![(1, 2.5), (4, -1.0)]);
}

#[test]
fn sparse_matrix_rows_are_independent() {
    let mut m = SparseMatrix::with_dimension(3);
    m.push(1, 0, 7u32);
    m.push(1, 5, 8);
    m.push(2, 3, 9);
    assert_eq!(m.get(0, 0), None);
    assert_eq!(m.get(1, 0), Some(7));
    assert_eq!(m.get(1, 5), Some(8));
    assert_eq!(m.get(2, 3), Some(9));
    assert_eq!(m.get(2, 5), None);
    assert_eq!(m.rows[1].entries.len(), 2);
}
