use matrix_pool::matrix::{
    assign_worker, collect_results, dot_product, make_jobs, worker_step, Matrix, MatrixError,
    MsgInput, MsgOutput,
};

#[test]
fn test_matrix() {
    let matrix = Matrix::new(vec![1, 2, 3, 4, 5, 6], 2, 3);

    assert_eq!(matrix.rows(), vec![vec![1, 2, 3], vec![4, 5, 6]]);
    assert_eq!(matrix.cols(), vec![vec![1, 4], vec![2, 5], vec![3, 6]]);
}

#[test]
fn test_dot_product() {
    let matrix1 = Matrix::new(vec![1, 2, 3, 4, 5, 6], 2, 3);
    let matrix2 = Matrix::new(vec![10, 11, 20, 21, 30, 31], 3, 2);

    assert_eq!(dot_product(&matrix1.rows()[0], &matrix2.cols()[0]).unwrap(), 140);
    assert_eq!(dot_product(&matrix1.rows()[0], &matrix2.cols()[1]).unwrap(), 146);
    assert_eq!(dot_product(&matrix1.rows()[1], &matrix2.cols()[0]).unwrap(), 320);
    assert_eq!(dot_product(&matrix1.rows()[1], &matrix2.cols()[1]).unwrap(), 335);
}

#[test]
fn test_matrix_display() {
    let matrix = Matrix::new(vec![1, 2, 3, 4, 5, 6], 2, 3);

    assert_eq!(matrix.render(), "Matrix<[1 2 3, 4 5 6]>");
}

#[test]
fn test_matrix_mul() {
    let matrix1 = Matrix::new(vec![1, 2, 3, 4, 5, 6], 2, 3);
    let matrix2 = Matrix::new(vec![10, 11, 20, 21, 30, 31], 3, 2);

    let result = matrix1.multiply(matrix2);

    assert_eq!(result.rows(), vec![vec![140, 146], vec![320, 335]]);
    assert_eq!(result.cols(), vec![vec![140, 320], vec![146, 335]]);
    assert_eq!(result.row, 2);
    assert_eq!(result.col, 2);
}

#[test]
fn test_dot_product_length_mismatch() {
    let a: Vec<i64> = vec![1, 2];
    let b: Vec<i64> = vec![1, 2, 3];

    assert_eq!(dot_product(&a, &b), Err(MatrixError::LengthMismatch));
}

#[test]
fn test_render_negative_and_zero() {
    let matrix = Matrix::new(vec![-1, 0, 12], 1, 3);

    assert_eq!(matrix.render(), "Matrix<[-1 0 12]>");
}

#[test]
fn test_render_extreme_values() {
    let matrix = Matrix::new(vec![i64::MIN, i64::MAX], 2, 1);

    assert_eq!(
        matrix.render(),
        "Matrix<[-9223372036854775808, 9223372036854775807]>"
    );
}

#[test]
fn test_render_empty() {
    let matrix = Matrix::new(vec![], 0, 0);

    assert_eq!(matrix.render(), "Matrix<[]>");
}

#[test]
fn test_bounded_workload_completes() {
    // Four output cells: no more jobs than the demo pool has workers.
    let a = Matrix::new(vec![1, 2, 3, 4], 2, 2);
    let b = Matrix::new(vec![5, 6, 7, 8], 2, 2);

    let result = a.multiply(b);

    assert_eq!(result.rows(), vec![vec![19, 22], vec![43, 50]]);
}

#[test]
fn test_assign_worker() {
    assert_eq!(assign_worker(0, 4), 0);
    assert_eq!(assign_worker(5, 4), 1);
    assert_eq!(assign_worker(7, 4), 3);
}

#[test]
fn test_worker_step() {
    let input = MsgInput::new(3, vec![1, 2], vec![3, 4]);

    let output = worker_step(&input).unwrap();

    assert_eq!(output.idx, 3);
    assert_eq!(output.value, 11);
}

#[test]
fn test_worker_step_length_mismatch() {
    let input = MsgInput::new(0, vec![1], vec![]);

    assert_eq!(
        worker_step(&input).err(),
        Some(MatrixError::LengthMismatch)
    );
}

#[test]
fn test_make_jobs_covers_all_cells() {
    let a = Matrix::new(vec![1, 2, 3, 4, 5, 6], 2, 3);
    let b = Matrix::new(vec![10, 11, 20, 21, 30, 31], 3, 2);

    let jobs = make_jobs(&a, &b);

    assert_eq!(jobs.len(), 4);
    assert_eq!(jobs[0].idx, 0);
    assert_eq!(jobs[0].rows, vec![1, 2, 3]);
    assert_eq!(jobs[0].cols, vec![10, 20, 30]);
    assert_eq!(jobs[3].idx, 3);
    assert_eq!(jobs[3].rows, vec![4, 5, 6]);
    assert_eq!(jobs[3].cols, vec![11, 21, 31]);
}

#[test]
fn test_collect_results_out_of_order() {
    // Replies land at their own cell index whatever the drain order.
    let outputs = vec![MsgOutput::new(2, 9), MsgOutput::new(0, 7)];

    let m = collect_results(&outputs, 1, 3);

    assert_eq!(m.rows(), vec![vec![7, 0, 9]]);
}
