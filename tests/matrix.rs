use linear_algebra::{Matrix, MatrixError};

#[test]
fn test_mul_mat_i32() {
    let our_mat = Matrix::new(3, 3, vec![1, 2, 3, 4, 5, 6, 7, 8, 9]);
    let ref_mat = Matrix::new(3, 3, vec![3, 6, 9, 12, 15, 18, 21, 24, 27]);

    let new_mat_1 = our_mat.clone() * 3;
    let new_mat_2 = 3 * our_mat;
    assert_eq!(ref_mat, new_mat_1);
    assert_eq!(ref_mat, new_mat_2);
}

#[test]
fn test_row_and_col_iter_small() {
    let our_mat = Matrix::new(3, 2, vec![1, 2, 3, 4, 5, 6]);

    let mut rows: Vec<Vec<i32>> = Vec::new();
    let mut cols: Vec<Vec<i32>> = Vec::new();
    for row in 0..our_mat.rows() {
        rows.push(our_mat.row_iter(row));
    }
    for col in 0..our_mat.cols() {
        cols.push(our_mat.col_iter(col));
    }

    assert_eq!(rows[0], vec![1, 2, 3]);
    assert_eq!(rows[1], vec![4, 5, 6]);

    assert_eq!(cols[0], vec![1, 4]);
    assert_eq!(cols[1], vec![2, 5]);
    assert_eq!(cols[2], vec![3, 6]);
}

#[test]
fn test_index() {
    let our_mat = Matrix::new(3, 3, vec![1, 2, 3, 4, 5, 6, 7, 8, 9]);
    assert_eq!(our_mat[[0, 0]], 1);
    assert_eq!(our_mat[[0, 1]], 2);
    assert_eq!(our_mat[[0, 2]], 3);
    assert_eq!(our_mat[[1, 0]], 4);
    assert_eq!(our_mat[[1, 1]], 5);
    assert_eq!(our_mat[[1, 2]], 6);
    assert_eq!(our_mat[[2, 0]], 7);
    assert_eq!(our_mat[[2, 1]], 8);
    assert_eq!(our_mat[[2, 2]], 9);
}

#[test]
fn test_index_mut() {
    let mut our_mat = Matrix::new(1, 1, vec![1]);
    assert_eq!(our_mat.set(0, 0, 2), Ok(()));
    assert_eq!(our_mat[[0, 0]], 2);
}

#[test]
fn test_matrix_multiply() {
    let our_mat1 = Matrix::new(3, 2, vec![1, 2, 3, 4, 5, 6]);
    let our_mat2 = Matrix::new(2, 3, vec![1, 2, 3, 4, 5, 6]);
    let result_mat = Matrix::new(2, 2, vec![22, 28, 49, 64]);
    let new_mat = our_mat1.mul_mat(&our_mat2);
    assert_eq!(new_mat, result_mat);
}

#[test]
fn test_matrix_addition() {
    let our_mat1 = Matrix::new(3, 2, vec![1, 2, 3, 4, 5, 6]);
    let our_mat2 = Matrix::new(3, 2, vec![1, 2, 3, 4, 5, 6]);
    let result_mat = Matrix::new(3, 2, vec![2, 4, 6, 8, 10, 12]);
    let new_mat = our_mat1.add_mat(&our_mat2);
    assert_eq!(new_mat, result_mat);
}

#[test]
fn test_matrix_subtraction() {
    let our_mat1 = Matrix::new(3, 2, vec![1, 2, 3, 4, 5, 6]);
    let our_mat2 = Matrix::new(3, 2, vec![1, 2, 3, 4, 5, 6]);
    let result_mat = Matrix::new(3, 2, vec![0, 0, 0, 0, 0, 0]);
    let new_mat = our_mat1.sub_mat(&our_mat2);
    assert_eq!(new_mat, result_mat);
}

#[test]
fn new_keeps_shape_and_cells() {
    let m = Matrix::new(3, 2, vec![1, 2, 3, 4, 5, 6]);
    assert_eq!(m.cols(), 3);
    assert_eq!(m.rows(), 2);
    for r in 0..2 {
        for c in 0..3 {
            assert_eq!(m.get(r, c), Ok((r * 3 + c + 1) as i32));
        }
    }
}

#[test]
fn try_new_accepts_matching_length() {
    let m = Matrix::try_new(2, 2, vec![1, 2, 3, 4]).unwrap();
    assert_eq!(m, Matrix::new(2, 2, vec![1, 2, 3, 4]));
}

#[test]
fn try_new_refuses_short_and_long_buffers() {
    assert_eq!(Matrix::try_new(2, 2, vec![1, 2, 3]), Err(MatrixError::LengthMismatch));
    assert_eq!(Matrix::try_new(2, 2, vec![1, 2, 3, 4, 5]), Err(MatrixError::LengthMismatch));
    assert_eq!(Matrix::try_new(0, 3, vec![1]), Err(MatrixError::LengthMismatch));
    assert_eq!(
        Matrix::try_new(usize::MAX, 2, vec![]),
        Err(MatrixError::LengthMismatch)
    );
}

#[test]
fn empty_matrices_are_valid() {
    let m = Matrix::try_new(0, 0, vec![]).unwrap();
    assert_eq!(m.rows(), 0);
    assert_eq!(m.to_text(), "");
    let wide = Matrix::new(4, 0, vec![]);
    let tall = Matrix::new(0, 4, vec![]);
    let p = tall.mul_mat(&wide);
    assert_eq!(p, Matrix::new(4, 4, vec![0; 16]));
}

#[test]
fn get_refuses_row_equal_to_rows() {
    let m = Matrix::new(3, 2, vec![1, 2, 3, 4, 5, 6]);
    assert_eq!(m.get(2, 0), Err(MatrixError::RowOutOfBounds));
    assert_eq!(m.get(2, 7), Err(MatrixError::RowOutOfBounds));
}

#[test]
fn get_refuses_col_equal_to_cols() {
    let m = Matrix::new(3, 2, vec![1, 2, 3, 4, 5, 6]);
    assert_eq!(m.get(1, 3), Err(MatrixError::ColOutOfBounds));
    assert_eq!(m.get(1, 2), Ok(6));
}

#[test]
fn set_out_of_bounds_changes_nothing() {
    let mut m = Matrix::new(2, 2, vec![1, 2, 3, 4]);
    assert_eq!(m.set(2, 0, 9), Err(MatrixError::RowOutOfBounds));
    assert_eq!(m.set(0, 2, 9), Err(MatrixError::ColOutOfBounds));
    assert_eq!(m, Matrix::new(2, 2, vec![1, 2, 3, 4]));
    assert_eq!(m.set(1, 0, 9), Ok(()));
    assert_eq!(m, Matrix::new(2, 2, vec![1, 2, 9, 4]));
}

#[test]
fn equality_is_structural() {
    let a = Matrix::new(2, 3, vec![1, 2, 3, 4, 5, 6]);
    let b = Matrix::try_new(2, 3, vec![1, 2, 3, 4, 5, 6]).unwrap();
    let mut c = Matrix::new(2, 3, vec![0, 2, 3, 4, 5, 6]);
    c.set(0, 0, 1).unwrap();
    assert_eq!(a, b);
    assert_eq!(a, c);
    assert_ne!(a, Matrix::new(3, 2, vec![1, 2, 3, 4, 5, 6]));
    assert_ne!(a, Matrix::new(2, 3, vec![1, 2, 3, 4, 5, 7]));
}

#[test]
fn add_then_subtract_gives_back_the_left_operand() {
    let a = Matrix::new(2, 2, vec![i32::MAX, -7, 0, i32::MIN]);
    let b = Matrix::new(2, 2, vec![5, 3, -1, -1]);
    let sum = a.add_mat(&b);
    assert_eq!(sum, Matrix::new(2, 2, vec![i32::MIN + 4, -4, -1, i32::MAX]));
    assert_eq!(sum.sub_mat(&b), a);
}

#[test]
fn scalar_multiply_commutes() {
    let a = Matrix::new(2, 2, vec![1, -2, 1 << 30, 7]);
    let left = -3 * a.clone();
    let right = a * -3;
    assert_eq!(left, right);
    assert_eq!(left, Matrix::new(2, 2, vec![-3, 6, (1i32 << 30).wrapping_mul(-3), -21]));
}

#[test]
fn multiply_wraps_on_overflow() {
    let a = Matrix::new(2, 1, vec![i32::MAX, 2]);
    let b = Matrix::new(1, 2, vec![2, 1]);
    let p = a.mul_mat(&b);
    assert_eq!(p, Matrix::new(1, 1, vec![i32::MAX.wrapping_mul(2).wrapping_add(2)]));
}

#[test]
fn multiply_many_rows_matches_cell_formula() {
    let rows = 37;
    let inner = 5;
    let cols = 4;
    let a_data: Vec<i32> = (0..rows * inner).map(|i| (i as i32 % 11) - 5).collect();
    let b_data: Vec<i32> = (0..inner * cols).map(|i| (i as i32 % 7) - 3).collect();
    let a = Matrix::new(inner, rows, a_data.clone());
    let b = Matrix::new(cols, inner, b_data.clone());
    let p = a.mul_mat(&b);
    assert_eq!(p.rows(), rows);
    assert_eq!(p.cols(), cols);
    for r in 0..rows {
        for c in 0..cols {
            let mut expected = 0i32;
            for k in 0..inner {
                expected += a_data[r * inner + k] * b_data[k * cols + c];
            }
            assert_eq!(p[[r, c]], expected);
        }
    }
}

#[test]
fn multiply_by_identity_keeps_matrix() {
    let a = Matrix::new(3, 2, vec![1, 2, 3, 4, 5, 6]);
    let id = Matrix::new(3, 3, vec![1, 0, 0, 0, 1, 0, 0, 0, 1]);
    assert_eq!(a.mul_mat(&id), a);
}

#[test]
fn text_right_aligns_cells() {
    let m = Matrix::new(3, 2, vec![1, -20, 300, 4, 123456, -1234567]);
    assert_eq!(
        m.to_text(),
        "     1    -20    300 \n     4 123456 -1234567 \n"
    );
}

#[test]
fn multiply_is_associative() {
    let a = Matrix::new(3, 2, vec![1, -2, 3, 4, 5, i32::MAX]);
    let b = Matrix::new(2, 3, vec![7, 8, -9, 10, 11, 12]);
    let c = Matrix::new(4, 2, vec![1, 0, -1, 2, 3, 1 << 20, 5, -6]);
    let left = a.mul_mat(&b).mul_mat(&c);
    let right = a.mul_mat(&b.mul_mat(&c));
    assert_eq!(left, right);
    assert_eq!(left.rows(), 2);
    assert_eq!(left.cols(), 4);
}

#[test]
fn data_is_row_major() {
    let mut m = Matrix::new(2, 3, vec![0; 6]);
    m.set(2, 1, 5).unwrap();
    m.set(0, 1, 3).unwrap();
    assert_eq!(m.data(), &[0, 3, 0, 0, 0, 5]);
}
