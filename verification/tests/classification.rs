use matrix::{Dimensions, Matrix};

fn base_matrix() -> Matrix {
    let base_collection = vec![vec![1, 3, 5], vec![2, 4, 6], vec![3, 7, 11]];
    Matrix::try_from_rows(base_collection).unwrap()
}

#[test]
fn test_properties_set_value_is_column() {
    let matrix: Matrix = base_matrix();

    assert!(!matrix.is_column());
}

#[test]
fn test_properties_set_value_is_row() {
    let matrix: Matrix = base_matrix();

    assert!(!matrix.is_row());
}

#[test]
fn test_properties_set_value_is_diagonal() {
    let matrix: Matrix = base_matrix();

    assert!(!matrix.is_diagonal());
}

#[test]
fn test_properties_set_value_is_identity() {
    let matrix: Matrix = base_matrix();

    assert!(!matrix.is_identity());
}

#[test]
fn test_properties_set_value_is_x_triangular() {
    let matrix: Matrix = base_matrix();

    assert!(!matrix.is_lower_triangular());
    assert!(!matrix.is_upper_triangular());
}

#[test]
fn test_properties_set_value_is_scalar() {
    let matrix: Matrix = base_matrix();

    assert!(!matrix.is_scalar());
}

#[test]
fn test_properties_set_value_is_square() {
    let matrix: Matrix = base_matrix();

    assert!(matrix.is_square());
}

#[test]
fn test_properties_identity_is_column() {
    let matrix: Matrix = Matrix::identity(5);

    assert!(!matrix.is_column());
}

#[test]
fn test_properties_identity_is_row() {
    let matrix: Matrix = Matrix::identity(5);

    assert!(!matrix.is_row());
}

#[test]
fn test_properties_identity_is_diagonal() {
    let matrix: Matrix = Matrix::identity(5);

    assert!(matrix.is_diagonal());
}

#[test]
fn test_properties_identity_is_identity() {
    let matrix: Matrix = Matrix::identity(5);

    assert!(matrix.is_identity());
}

#[test]
fn test_properties_identity_is_x_triangular() {
    let matrix: Matrix = Matrix::identity(5);

    assert!(matrix.is_lower_triangular());
    assert!(matrix.is_upper_triangular());
}

#[test]
fn test_properties_identity_is_scalar() {
    let matrix: Matrix = Matrix::identity(5);

    assert!(matrix.is_scalar());
}

#[test]
fn test_properties_identity_is_square() {
    let matrix: Matrix = Matrix::identity(5);

    assert!(matrix.is_square());
}

#[test]
fn test_properties_column_is_column() {
    let base_collection = vec![vec![1], vec![2], vec![3]];
    let matrix: Matrix = Matrix::try_from_rows(base_collection).unwrap();

    assert!(matrix.is_column());
}

#[test]
fn test_properties_column_is_square() {
    let base_collection = vec![vec![1], vec![2], vec![3]];
    let matrix: Matrix = Matrix::try_from_rows(base_collection).unwrap();

    assert!(!matrix.is_square());
}

#[test]
fn test_properties_row_is_row() {
    let base_collection = vec![vec![1, 3, 5]];
    let matrix: Matrix = Matrix::try_from_rows(base_collection).unwrap();

    assert!(matrix.is_row());
}

#[test]
fn test_distinct_off_diagonal_matrix_has_no_structure() {
    let matrix = Matrix::try_from_rows(vec![
        vec![1, 2, 3],
        vec![4, 5, 6],
        vec![7, 8, 9],
    ])
    .unwrap();

    assert!(!matrix.is_diagonal());
    assert!(!matrix.is_scalar());
    assert!(!matrix.is_identity());
    assert!(!matrix.is_upper_triangular());
    assert!(!matrix.is_lower_triangular());
}

#[test]
fn test_identity_has_every_square_structure() {
    let matrix = Matrix::identity(5);

    assert!(matrix.is_diagonal());
    assert!(matrix.is_scalar());
    assert!(matrix.is_identity());
    assert!(matrix.is_upper_triangular());
    assert!(matrix.is_lower_triangular());
}

#[test]
fn test_scalar_matrix_is_scalar_but_not_identity() {
    let matrix = Matrix::scalar(4, 3);

    assert!(matrix.is_diagonal());
    assert!(matrix.is_scalar());
    assert!(!matrix.is_identity());
}

#[test]
fn test_triangular_examples() {
    let upper = Matrix::try_from_rows(vec![vec![1, 2], vec![0, 3]]).unwrap();
    let lower = Matrix::try_from_rows(vec![vec![1, 0], vec![2, 3]]).unwrap();

    assert!(upper.is_upper_triangular());
    assert!(!upper.is_lower_triangular());
    assert!(lower.is_lower_triangular());
    assert!(!lower.is_upper_triangular());
}

#[test]
fn test_predicates_on_non_square_are_false() {
    let matrix = Matrix::constant(Dimensions::Rectangle { rows: 2, columns: 3 }, 0);

    assert!(!matrix.is_diagonal());
    assert!(!matrix.is_scalar());
    assert!(!matrix.is_identity());
    assert!(!matrix.is_upper_triangular());
    assert!(!matrix.is_lower_triangular());
}
