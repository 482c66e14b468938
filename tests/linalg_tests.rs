use linalg::LinalgError;
use linalg::Matrix;
use linalg::Vector;
use std::f64::consts::SQRT_2;

fn plus(a: f64, b: f64) -> f64 {
    a + b
}

fn times(a: f64, b: f64) -> f64 {
    a * b
}

fn divide(a: f64, b: f64) -> f64 {
    a / b
}

fn neg(a: f64) -> f64 {
    -a
}

fn abs(a: f64) -> f64 {
    a.abs()
}

fn sqrt(a: f64) -> f64 {
    a.sqrt()
}

fn is_zero(a: f64) -> bool {
    a == 0.0
}

fn greater(a: f64, b: f64) -> bool {
    a > b
}

fn matrix(rows: usize, cols: usize, data: Vec<f64>) -> Matrix<f64> {
    Matrix::from_shape_vec(rows, cols, data).unwrap()
}

fn vector(data: Vec<f64>) -> Vector<f64> {
    Vector::from_vec(data).unwrap()
}

fn assert_matrix_eq(a: &Matrix<f64>, b: &Matrix<f64>, tol: f64) {
    assert_eq!(a.nrows(), b.nrows());
    assert_eq!(a.ncols(), b.ncols());
    assert!(a
        .flatten()
        .iter()
        .zip(b.flatten().iter())
        .all(|(&x, &y)| (x - y).abs() < tol));
}

fn assert_vector_eq(a: &Vector<f64>, b: &Vector<f64>, tol: f64) {
    assert_eq!(a.len(), b.len());
    assert!(a
        .to_vec()
        .iter()
        .zip(b.to_vec().iter())
        .all(|(&x, &y)| (x - y).abs() < tol));
}

fn inverse(a: &Matrix<f64>) -> Result<Matrix<f64>, LinalgError> {
    a.inverse(0.0, 1.0, &plus, &times, &neg, &divide, &is_zero)
}

fn eigenvector(a: &Matrix<f64>, max_iters: usize, tolerance: f64) -> Result<Vector<f64>, LinalgError> {
    let close = move |x: f64, y: f64| (x - y).abs() < tolerance;
    a.eigenvector(max_iters, 0.0, 1.0, &plus, &times, &sqrt, &divide, &is_zero, &close)
}

#[test]
fn test_matrix_addition() {
    let a = matrix(2, 2, vec![1.0, 2.0, 3.0, 4.0]);
    let b = matrix(2, 2, vec![4.0, 3.0, 2.0, 1.0]);
    let result = a.add(&b, &plus).unwrap();
    assert_eq!(result.nrows(), 2);
    assert_eq!(result.ncols(), 2);
    assert_eq!(result.flatten(), vec![5.0, 5.0, 5.0, 5.0]);
}

#[test]
fn test_matrix_multiplication() {
    let a = matrix(2, 2, vec![1.0, 2.0, 3.0, 4.0]);
    let b = matrix(2, 2, vec![2.0, 0.0, 1.0, 2.0]);
    let result = a.multiply(&b, 0.0, &plus, &times).unwrap();
    assert_eq!(result.nrows(), 2);
    assert_eq!(result.ncols(), 2);
    assert_eq!(result.flatten(), vec![4.0, 4.0, 10.0, 8.0]);
}

#[test]
fn test_vector_addition() {
    let a = vector(vec![1.0, 2.0, 3.0]);
    let b = vector(vec![4.0, 5.0, 6.0]);
    let result = a.add(&b, &plus).unwrap();
    assert_eq!(result.to_vec(), vec![5.0, 7.0, 9.0]);
}

#[test]
fn test_vector_dot_product() {
    let a = vector(vec![1.0, 2.0, 3.0]);
    let b = vector(vec![4.0, 5.0, 6.0]);
    let result = a.dot(&b, 0.0, &plus, &times).unwrap();
    assert_eq!(result, 32.0);
}

#[test]
fn test_vector_magnitude_zero() {
    let v = vector(vec![0.0, 0.0, 0.0]);
    assert_eq!(v.magnitude(0.0, &plus, &times, &sqrt), 0.0);
}

#[test]
fn test_vector_magnitude_basic() {
    let v = vector(vec![3.0, 4.0]);
    assert_eq!(v.magnitude(0.0, &plus, &times, &sqrt), 5.0);
}

#[test]
fn test_vector_magnitude_negative_values() {
    let v = vector(vec![-3.0, -4.0]);
    assert_eq!(v.magnitude(0.0, &plus, &times, &sqrt), 5.0);
}

#[test]
fn test_vector_magnitude_fractional() {
    let v = vector(vec![1.0 / SQRT_2, 1.0 / SQRT_2]);
    let mag = v.magnitude(0.0, &plus, &times, &sqrt);
    assert!((mag - 1.0).abs() < 1e-10);
}

#[test]
fn test_vector_normalization() {
    let v = vector(vec![3.0, 4.0]);
    let normalized = v.normalize(0.0, &plus, &times, &sqrt, &divide, &is_zero);
    assert_eq!(normalized.to_vec(), vec![0.6, 0.8]);
}

#[test]
fn test_matrix_transpose() {
    let a = matrix(2, 3, vec![1.0, 2.0, 3.0, 4.0, 5.0, 6.0]);
    let transposed = a.transpose();
    assert_eq!(transposed.nrows(), 3);
    assert_eq!(transposed.ncols(), 2);
    assert_eq!(transposed.flatten(), vec![1.0, 4.0, 2.0, 5.0, 3.0, 6.0]);
}

#[test]
fn test_matrix_determinant() {
    let a = matrix(2, 2, vec![1.0, 2.0, 3.0, 4.0]);
    let determinant = a.determinant(0.0, &plus, &times, &neg).unwrap();
    assert_eq!(determinant, -2.0);
}

#[test]
fn test_matrix_determinant_non_square() {
    let a = matrix(2, 3, vec![1.0, 2.0, 3.0, 4.0, 5.0, 6.0]);
    assert_eq!(a.determinant(0.0, &plus, &times, &neg), None);
}

#[test]
fn test_matrix_inverse() {
    let a = matrix(2, 2, vec![4.0, 7.0, 2.0, 6.0]);
    let result = inverse(&a).unwrap();
    let expected = matrix(2, 2, vec![0.6, -0.7, -0.2, 0.4]);
    assert_matrix_eq(&result, &expected, 1e-10);
}

#[test]
fn test_matrix_inverse_non_invertible() {
    let a = matrix(2, 2, vec![1.0, 2.0, 2.0, 4.0]);
    assert_eq!(inverse(&a).err(), Some(LinalgError::Singular));
}

#[test]
fn test_matrix_l1_norm() {
    let a = matrix(2, 2, vec![1.0, -2.0, 3.0, -4.0]);
    assert_eq!(a.l1_norm(0.0, &plus, &abs), 10.0);
}

#[test]
fn test_matrix_l2_norm() {
    let a = matrix(2, 2, vec![1.0, 2.0, 3.0, 4.0]);
    assert_eq!(a.l2_norm(0.0, &plus, &times, &sqrt), 5.477225575051661);
}

#[test]
fn test_matrix_infinity_norm() {
    let a = matrix(2, 2, vec![1.0, -2.0, -3.0, 4.0]);
    assert_eq!(a.infinity_norm(0.0, &plus, &abs, &greater), 7.0);
}

#[test]
fn test_matrix_trace() {
    let a = matrix(2, 2, vec![1.0, 2.0, 3.0, 4.0]);
    assert_eq!(a.trace(0.0, &plus), 5.0);
}

#[test]
fn test_vector_l1_norm() {
    let v = vector(vec![1.0, -2.0, 3.0, -4.0]);
    assert_eq!(v.l1_norm(0.0, &plus, &abs), 10.0);
}

#[test]
fn test_vector_l2_norm() {
    let v = vector(vec![1.0, 2.0, 3.0, 4.0]);
    let norm = v.l2_norm(0.0, &plus, &times, &sqrt);
    assert!((norm - 5.477225575051661).abs() < 1e-10);
}

#[test]
fn test_power_iteration_eigenvector() {
    let a = matrix(2, 2, vec![2.0, 1.0, 1.0, 2.0]);
    let result = eigenvector(&a, 1000, 1e-10).unwrap();
    let expected = vector(vec![1.0 / SQRT_2, 1.0 / SQRT_2]);
    assert_vector_eq(&result, &expected, 1e-10);
}

#[test]
fn test_rayleigh_quotient_eigenvalue() {
    let a = matrix(2, 2, vec![2.0, 1.0, 1.0, 2.0]);
    let v = vector(vec![1.0 / SQRT_2, 1.0 / SQRT_2]);
    let eigenvalue = a.eigenvalue(&v, 0.0, &plus, &times, &divide, &is_zero).unwrap();
    assert!((eigenvalue - 3.0).abs() < 1e-10);
}
