use linalg::LinalgError;
use linalg::Matrix;
use linalg::Vector;

fn plus(a: f64, b: f64) -> f64 {
    a + b
}

fn minus(a: f64, b: f64) -> f64 {
    a - b
}

fn times(a: f64, b: f64) -> f64 {
    a * b
}

fn divide(a: f64, b: f64) -> f64 {
    a / b
}

fn neg(a: f64) -> f64 {
    -a
}

fn sqrt(a: f64) -> f64 {
    a.sqrt()
}

fn is_zero(a: f64) -> bool {
    a == 0.0
}

fn matrix(rows: usize, cols: usize, data: Vec<f64>) -> Matrix<f64> {
    Matrix::from_shape_vec(rows, cols, data).unwrap()
}

fn vector(data: Vec<f64>) -> Vector<f64> {
    Vector::from_vec(data).unwrap()
}

#[test]
fn add_is_commutative() {
    let a = matrix(2, 2, vec![1.0, 2.0, 3.0, 4.0]);
    let b = matrix(2, 2, vec![4.0, 3.0, 2.0, 1.0]);
    let ab = a.add(&b, &plus).unwrap();
    let ba = b.add(&a, &plus).unwrap();
    assert_eq!(ab.flatten(), ba.flatten());
    assert_eq!(ab.flatten(), vec![5.0, 5.0, 5.0, 5.0]);
}

#[test]
fn add_rejects_shape_mismatch() {
    let a = matrix(2, 2, vec![1.0, 2.0, 3.0, 4.0]);
    let b = matrix(3, 2, vec![1.0, 2.0, 3.0, 4.0, 5.0, 6.0]);
    assert_eq!(a.add(&b, &plus).err(), Some(LinalgError::DimensionMismatch));
    assert_eq!(b.add(&a, &plus).err(), Some(LinalgError::DimensionMismatch));
}

#[test]
fn multiply_rejects_inner_mismatch() {
    let a = matrix(2, 3, vec![1.0, 2.0, 3.0, 4.0, 5.0, 6.0]);
    let b = matrix(2, 2, vec![1.0, 2.0, 3.0, 4.0]);
    assert_eq!(
        a.multiply(&b, 0.0, &plus, &times).err(),
        Some(LinalgError::DimensionMismatch)
    );
}

#[test]
fn multiply_rectangular() {
    let a = matrix(2, 3, vec![1.0, 2.0, 3.0, 4.0, 5.0, 6.0]);
    let b = matrix(3, 1, vec![1.0, 0.0, -1.0]);
    let r = a.multiply(&b, 0.0, &plus, &times).unwrap();
    assert_eq!((r.nrows(), r.ncols()), (2, 1));
    assert_eq!(r.flatten(), vec![-2.0, -2.0]);
}

#[test]
fn transpose_twice_is_identity() {
    let a = matrix(2, 3, vec![1.0, 2.0, 3.0, 4.0, 5.0, 6.0]);
    let back = a.transpose().transpose();
    assert_eq!((back.nrows(), back.ncols()), (2, 3));
    assert_eq!(back.flatten(), a.flatten());
}

#[test]
fn determinant_three_by_three() {
    let a = matrix(3, 3, vec![1.0, 2.0, 3.0, 0.0, 1.0, 4.0, 5.0, 6.0, 0.0]);
    assert_eq!(a.determinant(0.0, &plus, &times, &neg), Some(1.0));
    let singular = matrix(3, 3, vec![1.0, 2.0, 3.0, 4.0, 5.0, 6.0, 7.0, 8.0, 9.0]);
    assert_eq!(singular.determinant(0.0, &plus, &times, &neg), Some(0.0));
}

#[test]
fn determinant_one_by_one() {
    let a = matrix(1, 1, vec![7.5]);
    assert_eq!(a.determinant(0.0, &plus, &times, &neg), Some(7.5));
}

#[test]
fn minor_drops_row_and_column() {
    let a = matrix(3, 3, vec![1.0, 2.0, 3.0, 4.0, 5.0, 6.0, 7.0, 8.0, 9.0]);
    let m = a.minor(1, 2);
    assert_eq!((m.nrows(), m.ncols()), (2, 2));
    assert_eq!(m.flatten(), vec![1.0, 2.0, 7.0, 8.0]);
}

#[test]
fn inverse_rejects_non_square() {
    let a = matrix(2, 3, vec![1.0, 2.0, 3.0, 4.0, 5.0, 6.0]);
    assert_eq!(
        a.inverse(0.0, 1.0, &plus, &times, &neg, &divide, &is_zero).err(),
        Some(LinalgError::NotSquare)
    );
}

#[test]
fn inverse_three_by_three() {
    let a = matrix(3, 3, vec![1.0, 2.0, 3.0, 0.0, 1.0, 4.0, 5.0, 6.0, 0.0]);
    let inv = a.inverse(0.0, 1.0, &plus, &times, &neg, &divide, &is_zero).unwrap();
    let product = a.multiply(&inv, 0.0, &plus, &times).unwrap();
    let id = Matrix::identity(3, 0.0, 1.0);
    for (x, y) in product.flatten().iter().zip(id.flatten().iter()) {
        assert!((x - y).abs() < 1e-10);
    }
    assert_eq!(
        inv.flatten(),
        vec![-24.0, 18.0, 5.0, 20.0, -15.0, -4.0, -5.0, 4.0, 1.0]
    );
}

#[test]
fn lu_factors_reconstruct_the_matrix() {
    let a = matrix(3, 3, vec![1.0, 2.0, 3.0, 4.0, 5.0, 6.0, 7.0, 8.0, 9.0]);
    let (l, u) = a.lu_decomposition(0.0, 1.0, &plus, &minus, &times, &divide).unwrap();
    let lu = l.multiply(&u, 0.0, &plus, &times).unwrap();
    for (x, y) in lu.flatten().iter().zip(a.flatten().iter()) {
        assert!((x - y).abs() < 1e-10);
    }
    for r in 0..3 {
        assert_eq!(l.get(r, r), 1.0);
        for c in 0..3 {
            if c > r {
                assert_eq!(l.get(r, c), 0.0);
            }
            if c < r {
                assert_eq!(u.get(r, c), 0.0);
            }
        }
    }
    assert_eq!(u.flatten(), vec![1.0, 2.0, 3.0, 0.0, -3.0, -6.0, 0.0, 0.0, 0.0]);
}

#[test]
fn lu_rejects_non_square() {
    let a = matrix(2, 3, vec![1.0, 2.0, 3.0, 4.0, 5.0, 6.0]);
    assert_eq!(
        a.lu_decomposition(0.0, 1.0, &plus, &minus, &times, &divide).err(),
        Some(LinalgError::NotSquare)
    );
}

#[test]
fn lu_zero_pivot_gives_non_finite_entries() {
    let a = matrix(2, 2, vec![0.0, 1.0, 1.0, 0.0]);
    let (l, _) = a.lu_decomposition(0.0, 1.0, &plus, &minus, &times, &divide).unwrap();
    assert!(!l.get(1, 0).is_finite());
}

#[test]
fn dot_rejects_length_mismatch() {
    let a = vector(vec![1.0, 2.0, 3.0]);
    let b = vector(vec![1.0, 2.0]);
    assert_eq!(a.dot(&b, 0.0, &plus, &times).err(), Some(LinalgError::DimensionMismatch));
}

#[test]
fn vector_add_rejects_length_mismatch() {
    let a = vector(vec![1.0, 2.0, 3.0]);
    let b = vector(vec![1.0, 2.0]);
    assert_eq!(a.add(&b, &plus).err(), Some(LinalgError::DimensionMismatch));
}

#[test]
fn normalize_zero_vector_is_unchanged() {
    let v = vector(vec![0.0, 0.0, 0.0]);
    let n = v.normalize(0.0, &plus, &times, &sqrt, &divide, &is_zero);
    assert_eq!(n.to_vec(), vec![0.0, 0.0, 0.0]);
}

#[test]
fn eigenvalue_of_power_iteration_result() {
    let a = matrix(2, 2, vec![2.0, 1.0, 1.0, 2.0]);
    let close = |x: f64, y: f64| (x - y).abs() < 1e-10;
    let v = a
        .eigenvector(1000, 0.0, 1.0, &plus, &times, &sqrt, &divide, &is_zero, &close)
        .unwrap();
    let inv_sqrt2 = 1.0 / 2f64.sqrt();
    assert!((v.get(0).abs() - inv_sqrt2).abs() < 1e-10);
    assert!((v.get(1).abs() - inv_sqrt2).abs() < 1e-10);
    let lambda = a.eigenvalue(&v, 0.0, &plus, &times, &divide, &is_zero).unwrap();
    assert!((lambda - 3.0).abs() < 1e-10);
}

#[test]
fn eigenvector_without_iterations_does_not_converge() {
    let a = matrix(2, 2, vec![2.0, 1.0, 1.0, 2.0]);
    let close = |x: f64, y: f64| (x - y).abs() < 1e-10;
    assert_eq!(
        a.eigenvector(0, 0.0, 1.0, &plus, &times, &sqrt, &divide, &is_zero, &close).err(),
        Some(LinalgError::NonConvergence)
    );
    let rotation = matrix(2, 2, vec![0.0, -1.0, 1.0, 0.0]);
    assert_eq!(
        rotation
            .eigenvector(50, 0.0, 1.0, &plus, &times, &sqrt, &divide, &is_zero, &close)
            .err(),
        Some(LinalgError::NonConvergence)
    );
}

#[test]
fn eigenvector_rejects_non_square() {
    let a = matrix(2, 3, vec![1.0, 2.0, 3.0, 4.0, 5.0, 6.0]);
    let close = |x: f64, y: f64| (x - y).abs() < 1e-10;
    assert_eq!(
        a.eigenvector(10, 0.0, 1.0, &plus, &times, &sqrt, &divide, &is_zero, &close).err(),
        Some(LinalgError::DimensionMismatch)
    );
}

#[test]
fn eigenvalue_failures() {
    let a = matrix(2, 2, vec![2.0, 1.0, 1.0, 2.0]);
    let zero = vector(vec![0.0, 0.0]);
    assert_eq!(
        a.eigenvalue(&zero, 0.0, &plus, &times, &divide, &is_zero).err(),
        Some(LinalgError::DegenerateQuotient)
    );
    let short = vector(vec![1.0]);
    assert_eq!(
        a.eigenvalue(&short, 0.0, &plus, &times, &divide, &is_zero).err(),
        Some(LinalgError::DimensionMismatch)
    );
}

#[test]
fn kronecker_of_two_by_two() {
    let a = matrix(2, 2, vec![1.0, 2.0, 3.0, 4.0]);
    let b = matrix(2, 2, vec![0.0, 5.0, 6.0, 7.0]);
    let k = a.kronecker_product(&b, &times);
    assert_eq!((k.nrows(), k.ncols()), (4, 4));
    assert_eq!(k.get(0, 0), a.get(0, 0) * b.get(0, 0));
    assert_eq!(
        k.flatten(),
        vec![
            0.0, 5.0, 0.0, 10.0, 6.0, 7.0, 12.0, 14.0, 0.0, 15.0, 0.0, 20.0, 18.0, 21.0, 24.0,
            28.0,
        ]
    );
}

#[test]
fn kronecker_rectangular_shape() {
    let a = matrix(1, 2, vec![1.0, 2.0]);
    let b = matrix(3, 1, vec![1.0, 2.0, 3.0]);
    let k = a.kronecker_product(&b, &times);
    assert_eq!((k.nrows(), k.ncols()), (3, 2));
    assert_eq!(k.flatten(), vec![1.0, 2.0, 2.0, 4.0, 3.0, 6.0]);
}

#[test]
fn construction_rejects_bad_shapes() {
    assert_eq!(
        Matrix::from_shape_vec(2, 2, vec![1.0, 2.0, 3.0]).err(),
        Some(LinalgError::DimensionMismatch)
    );
    assert_eq!(
        Matrix::<f64>::from_shape_vec(0, 2, vec![]).err(),
        Some(LinalgError::DimensionMismatch)
    );
    assert_eq!(Vector::<f64>::from_vec(vec![]).err(), Some(LinalgError::DimensionMismatch));
}

#[test]
fn identity_and_zero_builders() {
    let id = Matrix::identity(3, 0.0, 1.0);
    assert_eq!(id.flatten(), vec![1.0, 0.0, 0.0, 0.0, 1.0, 0.0, 0.0, 0.0, 1.0]);
    let z = Matrix::zero(2, 3, 0.0);
    assert_eq!((z.nrows(), z.ncols()), (2, 3));
    assert_eq!(z.flatten(), vec![0.0; 6]);
}

#[test]
fn trace_of_rectangular_uses_shorter_side() {
    let a = matrix(2, 3, vec![1.0, 2.0, 3.0, 4.0, 5.0, 6.0]);
    assert_eq!(a.trace(0.0, &plus), 6.0);
}

#[test]
fn multiply_vector_product() {
    let a = matrix(2, 3, vec![1.0, 2.0, 3.0, 4.0, 5.0, 6.0]);
    let v = vector(vec![1.0, 1.0, 1.0]);
    assert_eq!(a.multiply_vector(&v, 0.0, &plus, &times).unwrap().to_vec(), vec![6.0, 15.0]);
    assert_eq!(
        a.multiply_vector(&vector(vec![1.0]), 0.0, &plus, &times).err(),
        Some(LinalgError::DimensionMismatch)
    );
}

#[test]
fn inverse_one_by_one() {
    let a = matrix(1, 1, vec![2.0]);
    let inv = a.inverse(0.0, 1.0, &plus, &times, &neg, &divide, &is_zero).unwrap();
    assert_eq!((inv.nrows(), inv.ncols()), (1, 1));
    assert_eq!(inv.flatten(), vec![0.5]);
}
