use matrix_multiplication::matrix::{assemble, Matrix, MatrixError, Part};
use matrix_multiplication::partition::partition;

#[test]
fn test_matrix_creation() -> Result<(), MatrixError> {
    let matrix = Matrix::new(vec![vec![1, 2], vec![3, 4]])?;
    assert_eq!(matrix.rows(), 2);
    assert_eq!(matrix.cols(), 2);
    assert_eq!(matrix.get(0, 0), Some(1));
    assert_eq!(matrix.get(1, 1), Some(4));
    Ok(())
}

#[test]
fn test_empty_matrix() {
    let result = Matrix::new(vec![]);
    assert!(matches!(result, Err(MatrixError::InvalidDimensions(_))));
}

#[test]
fn test_invalid_dimensions() {
    let result = Matrix::new(vec![vec![1, 2], vec![3]]);
    assert!(matches!(result, Err(MatrixError::InvalidDimensions(_))));
}

#[test]
fn test_basic_multiplication() -> Result<(), MatrixError> {
    let a = Matrix::new(vec![vec![1, 2], vec![3, 4]])?;

    let b = Matrix::new(vec![vec![5, 6], vec![7, 8]])?;

    let result = a.multiply(&b)?;

    assert_eq!(result.get(0, 0), Some(19)); // 1*5 + 2*7
    assert_eq!(result.get(0, 1), Some(22)); // 1*6 + 2*8
    assert_eq!(result.get(1, 0), Some(43)); // 3*5 + 4*7
    assert_eq!(result.get(1, 1), Some(50)); // 3*6 + 4*8
    Ok(())
}

#[test]
fn test_dimension_mismatch() -> Result<(), MatrixError> {
    let a = Matrix::new(vec![vec![1, 2, 3], vec![4, 5, 6]])?;

    let b = Matrix::new(vec![vec![7, 8], vec![9, 10]])?;

    let result = a.multiply(&b);
    assert!(matches!(result, Err(MatrixError::DimensionMismatch(_))));
    Ok(())
}

fn mod_ten_grid(size: usize) -> Vec<Vec<i32>> {
    (0..size)
        .map(|i| (0..size).map(|j| ((i + j) % 10) as i32).collect())
        .collect()
}

#[test]
fn test_large_matrix_multiplication() -> Result<(), MatrixError> {
    let size: usize = 50;
    let a = Matrix::new(mod_ten_grid(size))?;

    let b = Matrix::new(mod_ten_grid(size))?;

    let result = a.multiply(&b)?;
    assert_eq!(result.rows(), size);
    assert_eq!(result.cols(), size);

    let first_element = result.get(0, 0).unwrap();
    assert!(first_element >= 0);
    assert!(first_element < size as i32 * 10 * 10);

    Ok(())
}

#[test]
fn test_multiply_identity() -> Result<(), MatrixError> {
    let a = Matrix::new(vec![vec![1, 2], vec![3, 4]])?;

    let identity = Matrix::new(vec![vec![1, 0], vec![0, 1]])?;

    let result = a.multiply(&identity)?;
    assert_eq!(result.data(), a.data());
    Ok(())
}

#[test]
fn large_product_first_cell_is_exact() {
    let a = Matrix::new(mod_ten_grid(50)).unwrap();
    let result = a.multiply(&a).unwrap();
    // row 0 and column 0 are both (k mod 10): five times 0^2 + 1^2 + ... + 9^2
    assert_eq!(result.get(0, 0), Some(5 * 285));
}

#[test]
fn rectangular_product_has_outer_shape() {
    let a = Matrix::new(vec![vec![1, 2, 3], vec![4, 5, 6]]).unwrap();
    let b = Matrix::new(vec![vec![7, 8], vec![9, 10], vec![11, 12]]).unwrap();
    let c = a.multiply(&b).unwrap();
    assert_eq!(c.rows(), 2);
    assert_eq!(c.cols(), 2);
    assert_eq!(c.data(), &vec![vec![58, 64], vec![139, 154]]);
}

#[test]
fn mismatch_message_names_both_shapes() {
    let a = Matrix::new(vec![vec![1, 2, 3], vec![4, 5, 6]]).unwrap();
    let b = Matrix::new(vec![vec![7, 8], vec![9, 10]]).unwrap();
    match a.multiply(&b) {
        Err(MatrixError::DimensionMismatch(msg)) => {
            assert_eq!(msg, "Cannot multiply 2x3 matrix with 2x2 matrix");
        }
        other => panic!("unexpected outcome: {:?}", other),
    }
}

#[test]
fn single_empty_row_is_a_matrix() {
    let m = Matrix::new(vec![vec![]]).unwrap();
    assert_eq!(m.rows(), 1);
    assert_eq!(m.cols(), 0);
    assert_eq!(m.get(0, 0), None);
}

#[test]
fn get_out_of_range_is_none() {
    let m = Matrix::new(vec![vec![1, 2], vec![3, 4]]).unwrap();
    assert_eq!(m.get(2, 0), None);
    assert_eq!(m.get(0, 2), None);
    assert_eq!(m.get(1, 0), Some(3));
}

#[test]
fn product_overflowing_i32_fails() {
    let a = Matrix::new(vec![vec![i32::MAX]]).unwrap();
    let b = Matrix::new(vec![vec![2]]).unwrap();
    assert!(matches!(a.multiply(&b), Err(MatrixError::Overflow)));
}

#[test]
fn running_sum_leaving_i64_fails() {
    let a = Matrix::new(vec![vec![i32::MIN, i32::MIN]]).unwrap();
    let b = Matrix::new(vec![vec![i32::MIN], vec![i32::MIN]]).unwrap();
    assert!(matches!(a.multiply(&b), Err(MatrixError::Overflow)));
}

#[test]
fn running_sum_beyond_i32_that_comes_back_succeeds() {
    let big = 1 << 30;
    let a = Matrix::new(vec![vec![big, big, -big]]).unwrap();
    let b = Matrix::new(vec![vec![1], vec![1], vec![1]]).unwrap();
    let c = a.multiply(&b).unwrap();
    assert_eq!(c.get(0, 0), Some(big));
}

#[test]
fn extreme_values_that_fit_succeed() {
    let a = Matrix::new(vec![vec![i32::MAX, i32::MIN]]).unwrap();
    let b = Matrix::new(vec![vec![1], vec![1]]).unwrap();
    assert_eq!(a.multiply(&b).unwrap().get(0, 0), Some(-1));
}

#[test]
fn worker_count_does_not_change_result() {
    let a = Matrix::new(mod_ten_grid(13)).unwrap();
    let one = a.multiply_with_workers(&a, 1).unwrap();
    let eight = a.multiply_with_workers(&a, 8).unwrap();
    let many = a.multiply_with_workers(&a, 100).unwrap();
    assert_eq!(one, eight);
    assert_eq!(one, many);
    assert_eq!(one, a.multiply(&a).unwrap());
}

#[test]
fn overflow_is_reported_for_any_worker_count() {
    let a = Matrix::new(vec![vec![1], vec![2], vec![i32::MAX], vec![3]]).unwrap();
    let b = Matrix::new(vec![vec![2]]).unwrap();
    for w in 1..6 {
        assert!(matches!(a.multiply_with_workers(&b, w), Err(MatrixError::Overflow)));
    }
}

#[test]
fn partition_into_ceiling_chunks() {
    assert_eq!(partition(10, 4), vec![(0, 3), (3, 6), (6, 9), (9, 10)]);
    assert_eq!(partition(8, 4), vec![(0, 2), (2, 4), (4, 6), (6, 8)]);
    assert_eq!(partition(3, 8), vec![(0, 1), (1, 2), (2, 3)]);
    assert_eq!(partition(5, 1), vec![(0, 5)]);
    assert_eq!(partition(0, 3), vec![]);
}

#[test]
fn compute_rows_gives_one_chunk() {
    let a = Matrix::new(vec![vec![1, 2], vec![3, 4], vec![5, 6]]).unwrap();
    let b = Matrix::new(vec![vec![1, 1], vec![0, 1]]).unwrap();
    assert_eq!(a.compute_rows(&b, 1, 3).unwrap(), vec![vec![3, 7], vec![5, 11]]);
    assert_eq!(a.compute_rows(&b, 2, 2).unwrap(), Vec::<Vec<i32>>::new());
}

#[test]
fn assemble_joins_parts_in_order() {
    let parts: Vec<Part> = vec![Ok(vec![vec![1, 2]]), Ok(vec![vec![3, 4], vec![5, 6]])];
    let m = assemble(parts).unwrap();
    assert_eq!(m.data(), &vec![vec![1, 2], vec![3, 4], vec![5, 6]]);
}

#[test]
fn assemble_returns_first_error() {
    let parts: Vec<Part> = vec![
        Ok(vec![vec![1]]),
        Err(MatrixError::ThreadError("Thread panicked".to_string())),
        Err(MatrixError::Overflow),
    ];
    assert!(matches!(assemble(parts), Err(MatrixError::ThreadError(_))));
    let parts: Vec<Part> = vec![
        Err(MatrixError::Overflow),
        Err(MatrixError::ThreadError("Thread panicked".to_string())),
    ];
    assert!(matches!(assemble(parts), Err(MatrixError::Overflow)));
}

#[test]
fn assemble_rejects_empty_or_ragged_rows() {
    assert!(matches!(assemble(vec![]), Err(MatrixError::InvalidDimensions(_))));
    let parts: Vec<Part> = vec![Ok(vec![vec![1, 2]]), Ok(vec![vec![3]])];
    assert!(matches!(assemble(parts), Err(MatrixError::InvalidDimensions(_))));
}

#[test]
fn render_writes_one_line_per_row() {
    let m = Matrix::new(vec![vec![1, 2], vec![3, 4]]).unwrap();
    assert_eq!(m.render(), "[1, 2]\n[3, 4]\n");
    let n = Matrix::new(vec![vec![-5]]).unwrap();
    assert_eq!(n.render(), "[-5]\n");
}
