use matrix::{Dimensions, ErrorKind, Matrix};

#[test]
fn test_row_works() {
    let base_collection = vec![vec![1, 3, 5], vec![2, 4, 6], vec![3, 7, 11]];
    let matrix: Matrix = Matrix::try_from_rows(base_collection.clone()).unwrap();

    for (i, row) in base_collection.iter().enumerate() {
        assert_eq!(matrix.row(i).unwrap(), *row);
    }
}

#[test]
fn test_column_works() {
    let base_collection = vec![vec![1, 3, 5], vec![2, 4, 6], vec![3, 7, 11]];
    let matrix: Matrix = Matrix::try_from_rows(base_collection.clone()).unwrap();

    for i in 0..base_collection.len() {
        let expected: Vec<i64> = base_collection.iter().map(|row| row[i]).collect();
        assert_eq!(matrix.column(i).unwrap(), expected);
    }
}

#[test]
fn test_addition_set_value_custom_values() {
    let matrix1: Matrix = Matrix::constant(Dimensions::Square(3), 5);

    let base_collection = vec![vec![1, 3, 5], vec![2, 4, 6], vec![3, 7, 11]];
    let matrix2: Matrix = Matrix::try_from_rows(base_collection).unwrap();

    let expected_collection = vec![vec![6, 8, 10], vec![7, 9, 11], vec![8, 12, 16]];
    let expected_result = Matrix::try_from_rows(expected_collection).unwrap();

    assert_eq!(matrix1.add(&matrix2).unwrap(), expected_result)
}

#[test]
fn test_addition_identity_set_value() {
    let matrix1: Matrix = Matrix::constant(Dimensions::Square(3), 5);

    let matrix2: Matrix = Matrix::identity(3);

    let expected_collection = vec![vec![6, 5, 5], vec![5, 6, 5], vec![5, 5, 6]];
    let expected_result = Matrix::try_from_rows(expected_collection).unwrap();

    assert_eq!(matrix1.add(&matrix2).unwrap(), expected_result)
}

#[test]
fn test_multiplication_controlled_matrices() {
    let matrix1_collection = vec![vec![2, 1], vec![0, 3], vec![-1, 2]];
    let matrix1 = Matrix::try_from_rows(matrix1_collection).unwrap();

    let matrix2_collection = vec![vec![-1, 0, 1], vec![2, 3, -1]];
    let matrix2 = Matrix::try_from_rows(matrix2_collection).unwrap();

    let expected_collection = vec![vec![0, 3, 1], vec![6, 9, -3], vec![5, 6, -3]];
    let expected_result = Matrix::try_from_rows(expected_collection).unwrap();

    assert_eq!(matrix1.mul(&matrix2).unwrap(), expected_result)
}

#[test]
fn test_addition_commutes_on_values() {
    let a = Matrix::try_from_rows(vec![vec![1, -2], vec![3, 4]]).unwrap();
    let b = Matrix::try_from_rows(vec![vec![10, 20], vec![-30, 0]]).unwrap();

    assert_eq!(a.add(&b).unwrap(), b.add(&a).unwrap());
}

#[test]
fn test_addition_associates_on_values() {
    let a = Matrix::try_from_rows(vec![vec![1, -2], vec![3, 4]]).unwrap();
    let b = Matrix::try_from_rows(vec![vec![10, 20], vec![-30, 0]]).unwrap();
    let c = Matrix::try_from_rows(vec![vec![-7, 5], vec![2, 2]]).unwrap();

    let left = a.add(&b).unwrap().add(&c).unwrap();
    let right = a.add(&b.add(&c).unwrap()).unwrap();
    assert_eq!(left, right);
}

#[test]
fn test_addition_zero_is_identity() {
    let a = Matrix::try_from_rows(vec![vec![1, -2, 9], vec![3, 4, -5]]).unwrap();
    let z = Matrix::zero(Dimensions::Rectangle { rows: 2, columns: 3 });

    assert_eq!(a.add(&z).unwrap(), a);
}

#[test]
fn test_multiplication_by_identity_round_trip() {
    let a = Matrix::try_from_rows(vec![vec![2, -1, 7], vec![0, 5, -3]]).unwrap();
    let product = a.mul(&Matrix::identity(3)).unwrap();

    assert_eq!(product, a);
}

#[test]
fn test_addition_shape_mismatch_reports_error() {
    let a = Matrix::constant(Dimensions::Square(2), 1);
    let b = Matrix::constant(Dimensions::Rectangle { rows: 2, columns: 3 }, 1);

    assert!(matches!(
        a.add(&b),
        Err(ErrorKind::DimensionsIncorrct(_))
    ));
}

#[test]
fn test_multiplication_shape_mismatch_is_absent() {
    let a = Matrix::constant(Dimensions::Rectangle { rows: 2, columns: 3 }, 1);
    let b = Matrix::constant(Dimensions::Rectangle { rows: 2, columns: 3 }, 1);

    assert!(a.mul(&b).is_none());
}

#[test]
fn test_subtraction_values() {
    let a = Matrix::try_from_rows(vec![vec![5, 3], vec![1, -2]]).unwrap();
    let b = Matrix::try_from_rows(vec![vec![2, 4], vec![-1, -2]]).unwrap();
    let expected = Matrix::try_from_rows(vec![vec![3, -1], vec![2, 0]]).unwrap();

    assert_eq!(a.sub(&b).unwrap(), expected);
}

#[test]
fn test_negation_values() {
    let a = Matrix::try_from_rows(vec![vec![5, -3], vec![0, 2]]).unwrap();
    let expected = Matrix::try_from_rows(vec![vec![-5, 3], vec![0, -2]]).unwrap();

    assert_eq!(a.neg(), expected);
}

#[test]
fn test_scalar_multiplication_values() {
    let a = Matrix::try_from_rows(vec![vec![1, -2], vec![3, 0]]).unwrap();
    let expected = Matrix::try_from_rows(vec![vec![4, -8], vec![12, 0]]).unwrap();

    assert_eq!(a.mul_scalar(4), expected);
}

#[test]
fn test_scalar_division_values() {
    let a = Matrix::try_from_rows(vec![vec![4, 6], vec![8, 10]]).unwrap();
    let expected = Matrix::try_from_rows(vec![vec![2, 3], vec![4, 5]]).unwrap();

    assert_eq!(a.div(2).unwrap(), expected);
}

#[test]
fn test_scalar_division_truncates_toward_zero() {
    let a = Matrix::try_from_rows(vec![vec![7, -7, 1, -1]]).unwrap();
    let expected = Matrix::try_from_rows(vec![vec![3, -3, 0, 0]]).unwrap();

    assert_eq!(a.div(2).unwrap(), expected);
}

#[test]
fn test_scalar_division_by_zero_reports_error() {
    let a = Matrix::constant(Dimensions::Square(2), 9);

    assert!(matches!(a.div(0), Err(ErrorKind::DividedByZero)));
}
