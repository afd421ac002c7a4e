use raytracer_challenge::matrix::{cofactor_sign, Matrix2x2, Matrix3x3, Matrix4x4};

const IDENTITY: [[f32; 4]; 4] = [
    [1.0, 0.0, 0.0, 0.0],
    [0.0, 1.0, 0.0, 0.0],
    [0.0, 0.0, 1.0, 0.0],
    [0.0, 0.0, 0.0, 1.0],
];

fn close(a: f32, b: f32) -> bool {
    (a - b).abs() < 0.00001
}

#[test]
fn construct_matrix2x2() {
    let matrix: Matrix2x2<f32> = [[-3.0, 5.0], [1.0, -2.0]].into();

    assert!(close(matrix.get(0, 0), -3.0));
    assert!(close(matrix.get(0, 1), 5.0));
    assert!(close(matrix.get(1, 0), 1.0));
    assert!(close(matrix.get(1, 1), -2.0));
}

#[test]
fn construct_matrix3x3() {
    let matrix: Matrix3x3<f32> = [[-3.0, 5.0, 0.0], [1.0, -2.0, -7.0], [0.0, 1.0, 1.0]].into();

    assert!(close(matrix.get(0, 0), -3.0));
    assert!(close(matrix.get(1, 1), -2.0));
    assert!(close(matrix.get(2, 2), 1.0));
}

#[test]
fn construct_matrix4x4() {
    let matrix: Matrix4x4<f32> = [
        [1.0, 2.0, 3.0, 4.0],
        [5.5, 6.5, 7.5, 8.5],
        [9.0, 10.0, 11.0, 12.0],
        [13.5, 14.5, 15.5, 16.5],
    ]
    .into();

    assert!(close(matrix.get(0, 0), 1.0));
    assert!(close(matrix.get(0, 3), 4.0));
    assert!(close(matrix.get(1, 0), 5.5));
    assert!(close(matrix.get(1, 2), 7.5));
    assert!(close(matrix.get(2, 2), 11.0));
    assert!(close(matrix.get(3, 0), 13.5));
    assert!(close(matrix.get(3, 2), 15.5));

    let matrix: &Matrix4x4<f32> = &[
        [1.0, 2.0, 3.0, 4.0],
        [5.5, 6.5, 7.5, 8.5],
        [9.0, 10.0, 11.0, 12.0],
        [13.5, 14.5, 15.5, 16.5],
    ]
    .into();

    assert!(close(matrix.get(0, 0), 1.0));
    assert!(close(matrix.get(0, 3), 4.0));
    assert!(close(matrix.get(1, 0), 5.5));
    assert!(close(matrix.get(1, 2), 7.5));
    assert!(close(matrix.get(2, 2), 11.0));
    assert!(close(matrix.get(3, 0), 13.5));
    assert!(close(matrix.get(3, 2), 15.5));
}

#[test]
fn modify_matrix4x4() {
    let mut matrix: Matrix4x4<f32> = [[0.0; 4]; 4].into();
    matrix.set(1, 3, 3.14);
    let expected: Matrix4x4<f32> = [[0.0; 4], [0.0, 0.0, 0.0, 3.14], [0.0; 4], [0.0; 4]].into();

    assert!(close(matrix.get(1, 3), 3.14));
    assert_eq!(matrix, expected);
}

#[test]
fn transpose_matrix4x4() {
    let matrix: Matrix4x4<f32> = [
        [0.0, 9.0, 3.0, 0.0],
        [9.0, 8.0, 0.0, 8.0],
        [1.0, 8.0, 5.0, 3.0],
        [0.0, 0.0, 5.0, 8.0],
    ]
    .into();
    let result = matrix.transpose();
    let expected: Matrix4x4<f32> = [
        [0.0, 9.0, 1.0, 0.0],
        [9.0, 8.0, 8.0, 0.0],
        [3.0, 0.0, 5.0, 5.0],
        [0.0, 8.0, 3.0, 8.0],
    ]
    .into();
    assert_eq!(result, expected);
}

#[test]
fn transpose_identity4x4() {
    let result = Matrix4x4::from(IDENTITY).transpose();
    let expected = Matrix4x4::from(IDENTITY);
    assert_eq!(result, expected);
}

#[test]
fn submatrix_matrix3x3() {
    let matrix: Matrix3x3<f32> = [[1.0, 5.0, 0.0], [-3.0, 2.0, 7.0], [0.0, 6.0, -3.0]].into();
    let result = matrix.submatrix(0, 2);
    let expected: Matrix2x2<f32> = [[-3.0, 2.0], [0.0, 6.0]].into();
    assert_eq!(expected, result);
}

#[test]
fn submatrix_matrix4x4() {
    let matrix: Matrix4x4<f32> = [
        [-6.0, 1.0, 1.0, 6.0],
        [-8.0, 5.0, 8.0, 6.0],
        [-1.0, 0.0, 8.0, 2.0],
        [-7.0, 1.0, -1.0, 1.0],
    ]
    .into();
    let result = matrix.submatrix(2, 1);
    let expected: Matrix3x3<f32> = [[-6.0, 1.0, 6.0], [-8.0, 8.0, 6.0], [-7.0, -1.0, 1.0]].into();
    assert_eq!(expected, result);
}

#[test]
fn submatrix_removes_first_and_last_lines() {
    let matrix: Matrix4x4<i32> =
        [[1, 2, 3, 4], [5, 6, 7, 8], [9, 10, 11, 12], [13, 14, 15, 16]].into();
    assert_eq!(matrix.submatrix(0, 0), Matrix3x3::from([[6, 7, 8], [10, 11, 12], [14, 15, 16]]));
    assert_eq!(matrix.submatrix(3, 3), Matrix3x3::from([[1, 2, 3], [5, 6, 7], [9, 10, 11]]));
}

#[test]
fn transpose_twice_is_identity_map() {
    let matrix: Matrix3x3<i32> = [[1, 2, 3], [4, 5, 6], [7, 8, 9]].into();
    assert_eq!(matrix.transpose(), Matrix3x3::from([[1, 4, 7], [2, 5, 8], [3, 6, 9]]));
    assert_eq!(matrix.transpose().transpose(), matrix);
    let small: Matrix2x2<i32> = [[1, 2], [3, 4]].into();
    assert_eq!(small.transpose(), Matrix2x2::from([[1, 3], [2, 4]]));
}

#[test]
fn cofactor_signs_alternate() {
    assert_eq!(cofactor_sign(0, 0), 1);
    assert_eq!(cofactor_sign(0, 1), -1);
    assert_eq!(cofactor_sign(1, 0), -1);
    assert_eq!(cofactor_sign(2, 3), -1);
    assert_eq!(cofactor_sign(3, 3), 1);
    assert_eq!(cofactor_sign(usize::MAX, 1), 1);
}
