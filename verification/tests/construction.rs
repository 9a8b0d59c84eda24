use matrix::{Dimensions, ErrorKind, Matrix};

#[test]
fn test_constant_fills_every_entry() {
    let dims = Dimensions::Rectangle { rows: 2, columns: 3 };
    let matrix = Matrix::constant(dims, 7);

    assert_eq!(matrix.dimensions.count(), dims.count());
    for i in 0..2 {
        for j in 0..3 {
            assert_eq!(matrix.get(i, j), Some(7));
        }
    }
}

#[test]
fn test_diagonal_places_values() {
    let matrix = Matrix::diagonal(vec![4, 5, 6]);

    assert_eq!(matrix.get(0, 0), Some(4));
    assert_eq!(matrix.get(1, 1), Some(5));
    assert_eq!(matrix.get(2, 2), Some(6));
    assert_eq!(matrix.get(0, 1), Some(0));
    assert_eq!(matrix.get(2, 0), Some(0));
}

#[test]
fn test_diagonal_of_nothing_is_degenerate() {
    let matrix = Matrix::diagonal(vec![]);

    assert_eq!(matrix.dimensions.rows(), 0);
    assert_eq!(matrix.dimensions.columns(), 0);
    assert!(matrix.is_square());
    assert_eq!(matrix.determinant_unoptimized(), Some(0));
}

#[test]
fn test_try_from_rows_rejects_empty_input() {
    let result = Matrix::try_from_rows(vec![]);

    assert!(matches!(result, Err(ErrorKind::DimensionsIncorrct(_))));
}

#[test]
fn test_try_from_rows_rejects_ragged_rows() {
    let result = Matrix::try_from_rows(vec![vec![1, 2], vec![3]]);

    assert!(matches!(result, Err(ErrorKind::DimensionsIncorrct(_))));
}

#[test]
fn test_from_buffer_checks_length() {
    let ok = Matrix::from_buffer(vec![1, 2, 3, 4], Dimensions::Square(2));
    assert!(ok.is_ok());

    let bad = Matrix::from_buffer(vec![1, 2, 3], Dimensions::Square(2));
    assert!(matches!(bad, Err(ErrorKind::DimensionsIncorrct(_))));
}

#[test]
fn test_get_out_of_bounds_is_absent() {
    let matrix = Matrix::identity(2);

    assert_eq!(matrix.get(2, 0), None);
    assert_eq!(matrix.get(0, 2), None);
}

#[test]
fn test_set_writes_in_bounds() {
    let mut matrix = Matrix::zero(Dimensions::Square(2));

    assert!(matrix.set(0, 1, 9));
    assert_eq!(matrix.get(0, 1), Some(9));
    assert_eq!(matrix.get(0, 0), Some(0));
}

#[test]
fn test_set_out_of_bounds_leaves_matrix_unchanged() {
    let mut matrix = Matrix::identity(2);
    let before = matrix.clone();

    assert!(!matrix.set(2, 0, 9));
    assert_eq!(matrix, before);
}

#[test]
fn test_main_and_secondary_diagonals() {
    let matrix = Matrix::try_from_rows(vec![
        vec![1, 3, 5],
        vec![2, 4, 6],
        vec![3, 7, 11],
    ])
    .unwrap();

    assert_eq!(matrix.main_diagonal().unwrap(), vec![1, 4, 11]);
    assert_eq!(matrix.secondary_diagonal().unwrap(), vec![5, 4, 3]);
}

#[test]
fn test_diagonals_absent_for_non_square() {
    let matrix = Matrix::constant(Dimensions::Rectangle { rows: 2, columns: 3 }, 1);

    assert!(matrix.main_diagonal().is_none());
    assert!(matrix.secondary_diagonal().is_none());
}

#[test]
fn test_transpose_round_trip() {
    let matrix = Matrix::try_from_rows(vec![vec![1, 2, 3], vec![4, 5, 6]]).unwrap();

    assert_eq!(matrix.transposed().transposed(), matrix);
}

#[test]
fn test_transpose_swaps_entries_and_shape() {
    let matrix = Matrix::try_from_rows(vec![vec![1, 2, 3], vec![4, 5, 6]]).unwrap();
    let transposed = matrix.transposed();

    assert_eq!(transposed.dimensions.rows(), 3);
    assert_eq!(transposed.dimensions.columns(), 2);
    let expected = Matrix::try_from_rows(vec![vec![1, 4], vec![2, 5], vec![3, 6]]).unwrap();
    assert_eq!(transposed, expected);
}

#[test]
fn test_transpose_in_place() {
    let mut matrix = Matrix::try_from_rows(vec![vec![1, 2], vec![3, 4]]).unwrap();
    matrix.transpose();

    let expected = Matrix::try_from_rows(vec![vec![1, 3], vec![2, 4]]).unwrap();
    assert_eq!(matrix, expected);
}

#[test]
fn test_rows_and_columns_decompositions() {
    let matrix = Matrix::try_from_rows(vec![vec![1, 2, 3], vec![4, 5, 6]]).unwrap();

    assert_eq!(matrix.rows(), vec![vec![1, 2, 3], vec![4, 5, 6]]);
    assert_eq!(matrix.columns(), vec![vec![1, 4], vec![2, 5], vec![3, 6]]);
}

#[test]
fn test_row_and_column_out_of_range_are_absent() {
    let matrix = Matrix::identity(2);

    assert!(matrix.row(2).is_none());
    assert!(matrix.column(2).is_none());
}

#[test]
fn test_dimensions_equality_is_semantic() {
    assert_eq!(Dimensions::Square(3), Dimensions::Rectangle { rows: 3, columns: 3 });
    assert_ne!(Dimensions::Square(3), Dimensions::Rectangle { rows: 3, columns: 4 });
}

#[test]
fn test_dimensions_queries() {
    let dims = Dimensions::Rectangle { rows: 2, columns: 5 };

    assert_eq!(dims.rows(), 2);
    assert_eq!(dims.columns(), 5);
    assert_eq!(dims.count(), 10);
    assert_eq!(dims.transposed(), Dimensions::Rectangle { rows: 5, columns: 2 });
    assert_eq!(Dimensions::Square(4).transposed(), Dimensions::Square(4));
}

#[test]
fn test_dimensions_from_pair_collapses_and_checks() {
    assert_eq!(Dimensions::from((3, 3)), Dimensions::Square(3));
    assert_eq!(
        Dimensions::from_pair(2, 4).unwrap(),
        Dimensions::Rectangle { rows: 2, columns: 4 }
    );
    assert!(matches!(
        Dimensions::from_pair(0, 4),
        Err(ErrorKind::DimensionsIncorrct(_))
    ));
    assert!(matches!(
        Dimensions::from_pair(4, 0),
        Err(ErrorKind::DimensionsIncorrct(_))
    ));
}

#[test]
fn test_matrix_equality_requires_same_shape() {
    let row = Matrix::try_from_rows(vec![vec![1, 2, 3, 4]]).unwrap();
    let square = Matrix::try_from_rows(vec![vec![1, 2], vec![3, 4]]).unwrap();

    assert!(row != square);
    assert!(row.is_same_size(&row));
    assert!(!row.is_same_size(&square));
}
