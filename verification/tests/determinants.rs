use matrix::{Dimensions, Matrix};

#[test]
fn test_determinant_of_identity_sizes() {
    assert_eq!(Matrix::identity(0).determinant_unoptimized(), Some(0));
    assert_eq!(Matrix::identity(1).determinant_unoptimized(), Some(1));
    assert_eq!(Matrix::identity(2).determinant_unoptimized(), Some(1));
    assert_eq!(Matrix::identity(3).determinant_unoptimized(), Some(1));
    assert_eq!(Matrix::identity(4).determinant_unoptimized(), Some(1));
    assert_eq!(Matrix::identity(5).determinant_unoptimized(), Some(1));
}

#[test]
fn test_determinant_of_single_entry() {
    let matrix = Matrix::try_from_rows(vec![vec![-9]]).unwrap();

    assert_eq!(matrix.determinant_unoptimized(), Some(-9));
}

#[test]
fn test_determinant_two_by_two_formula() {
    let matrix = Matrix::try_from_rows(vec![vec![3, -2], vec![5, 4]]).unwrap();
    assert_eq!(matrix.determinant_unoptimized(), Some(3 * 4 - (-2) * 5));

    let with_zero = Matrix::try_from_rows(vec![vec![0, 7], vec![-3, 0]]).unwrap();
    assert_eq!(with_zero.determinant_unoptimized(), Some(0 * 0 - 7 * (-3)));
}

#[test]
fn test_determinant_three_by_three() {
    let singular = Matrix::try_from_rows(vec![
        vec![1, 3, 5],
        vec![2, 4, 6],
        vec![3, 7, 11],
    ])
    .unwrap();
    assert_eq!(singular.determinant_unoptimized(), Some(0));

    let regular = Matrix::try_from_rows(vec![
        vec![2, 0, 1],
        vec![1, 3, -1],
        vec![0, 5, 2],
    ])
    .unwrap();
    assert_eq!(regular.determinant_unoptimized(), Some(27));
}

#[test]
fn test_determinant_four_by_four() {
    let matrix = Matrix::try_from_rows(vec![
        vec![1, 0, 0, 0],
        vec![0, 2, 0, 0],
        vec![0, 0, 3, 0],
        vec![0, 0, 0, 4],
    ])
    .unwrap();

    assert_eq!(matrix.determinant_unoptimized(), Some(24));
}

#[test]
fn test_determinant_absent_for_non_square() {
    let matrix = Matrix::constant(Dimensions::Rectangle { rows: 2, columns: 3 }, 1);

    assert_eq!(matrix.determinant_unoptimized(), None);
}
