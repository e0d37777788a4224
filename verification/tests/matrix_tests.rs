use feedforward::matrix::Matrix;
use feedforward::scalar::Scalar;

/// Double-precision floats as the engine's scalar.
#[derive(Clone, Copy, Debug, PartialEq)]
struct Real(f64);

impl Scalar for Real {
    fn zero_spec() -> Self {
        Real(0.0)
    }

    fn one_spec() -> Self {
        Real(1.0)
    }

    fn add_spec(self, rhs: Self) -> Self {
        Real(self.0 + rhs.0)
    }

    fn sub_spec(self, rhs: Self) -> Self {
        Real(self.0 - rhs.0)
    }

    fn mul_spec(self, rhs: Self) -> Self {
        Real(self.0 * rhs.0)
    }

    fn is_positive_spec(self) -> bool {
        self.0 > 0.0
    }

    fn reciprocal_spec(count: usize) -> Self {
        Real(1.0 / count as f64)
    }

    fn unit_spec(word: u32) -> Self {
        Real(word as f64 / 4294967296.0)
    }

    fn in_unit_interval(self) -> bool {
        0.0 <= self.0 && self.0 < 1.0
    }

    fn zero() -> Self {
        Real(0.0)
    }

    fn one() -> Self {
        Real(1.0)
    }

    fn add(self, rhs: Self) -> Self {
        Real(self.0 + rhs.0)
    }

    fn sub(self, rhs: Self) -> Self {
        Real(self.0 - rhs.0)
    }

    fn mul(self, rhs: Self) -> Self {
        Real(self.0 * rhs.0)
    }

    fn is_positive(self) -> bool {
        self.0 > 0.0
    }

    fn reciprocal(count: usize) -> Self {
        Real(1.0 / count as f64)
    }

    fn unit(word: u32) -> Self {
        Real(word as f64 / 4294967296.0)
    }
}

fn reals(values: &[f64]) -> Vec<Real> {
    values.iter().map(|&v| Real(v)).collect()
}

fn matrix(rows: usize, cols: usize, values: &[f64]) -> Matrix<Real> {
    Matrix { rows, cols, data: reals(values) }
}

#[test]
fn test_random() {
    let matrix: Matrix<Real> = Matrix::random(3, 4);
    assert_eq!(matrix.rows, 3);
    assert_eq!(matrix.cols, 4);
    assert_eq!(matrix.data.len(), 12);

    for &value in &matrix.data {
        assert!(value.0 >= 0.0 && value.0 < 1.0);
    }
}

#[test]
fn test_add_same_dimensions() {
    let m1 = matrix(2, 2, &[1.0, 2.0, 3.0, 4.0]);
    let m2 = matrix(2, 2, &[5.0, 6.0, 7.0, 8.0]);

    let result = m1.add(&m2);
    assert_eq!(result.rows, 2);
    assert_eq!(result.cols, 2);
    assert_eq!(result.data, reals(&[6.0, 8.0, 10.0, 12.0]));
}

#[test]
fn test_subtract_same_dimensions() {
    let m1 = matrix(2, 2, &[5.0, 6.0, 7.0, 8.0]);
    let m2 = matrix(2, 2, &[1.0, 2.0, 3.0, 4.0]);

    let result = m1.subtract(&m2);
    assert_eq!(result.rows, 2);
    assert_eq!(result.cols, 2);
    assert_eq!(result.data, reals(&[4.0, 4.0, 4.0, 4.0]));
}

#[test]
fn test_dot_product() {
    let m1 = matrix(2, 3, &[1.0, 2.0, 3.0, 4.0, 5.0, 6.0]);
    let m2 = matrix(3, 2, &[7.0, 8.0, 9.0, 10.0, 11.0, 12.0]);

    let result = m1.dot_multiply(&m2);
    assert_eq!(result.rows, 2);
    assert_eq!(result.cols, 2);
    assert_eq!(result.data, reals(&[58.0, 64.0, 139.0, 154.0]));
}

#[test]
fn new_is_zero_filled_and_well_formed() {
    let m: Matrix<Real> = Matrix::new(2, 3);
    assert_eq!(m.rows, 2);
    assert_eq!(m.cols, 3);
    assert_eq!(m.data, reals(&[0.0; 6]));
    assert!(m.is_well_formed());
    assert!(m.has_shape(2, 3));
    assert!(!m.has_shape(3, 2));
}

#[test]
fn new_with_no_rows_is_empty() {
    let m: Matrix<Real> = Matrix::new(0, 5);
    assert_eq!(m.data.len(), 0);
    assert!(m.is_well_formed());
}

#[test]
fn well_formedness_is_a_matter_of_length() {
    let short = matrix(2, 2, &[1.0, 2.0, 3.0]);
    assert!(!short.is_well_formed());
    let exact = matrix(2, 2, &[1.0, 2.0, 3.0, 4.0]);
    assert!(exact.is_well_formed());
    let huge: Matrix<Real> = Matrix { rows: usize::MAX, cols: 2, data: Vec::new() };
    assert!(!huge.is_well_formed());
}

#[test]
fn zeros_overwrites_every_entry() {
    let mut m = matrix(2, 2, &[1.0, -2.0, 3.5, 4.0]);
    m.zeros();
    assert_eq!(m.rows, 2);
    assert_eq!(m.cols, 2);
    assert_eq!(m.data, reals(&[0.0, 0.0, 0.0, 0.0]));
}

#[test]
fn copy_from_slice_overwrites_verbatim() {
    let mut m: Matrix<Real> = Matrix::new(3, 1);
    m.copy_from_slice(&reals(&[7.0, -8.0, 9.5]));
    assert_eq!(m.rows, 3);
    assert_eq!(m.cols, 1);
    assert_eq!(m.data, reals(&[7.0, -8.0, 9.5]));
}

#[test]
fn dot_overwrites_a_stale_target() {
    let m1 = matrix(2, 3, &[1.0, 2.0, 3.0, 4.0, 5.0, 6.0]);
    let m2 = matrix(3, 2, &[7.0, 8.0, 9.0, 10.0, 11.0, 12.0]);
    let mut target = matrix(2, 2, &[9.0, 9.0, 9.0, 9.0]);
    m1.dot(&m2, &mut target);
    assert_eq!(target.rows, 2);
    assert_eq!(target.cols, 2);
    assert_eq!(target.data, reals(&[58.0, 64.0, 139.0, 154.0]));
    m1.dot(&m2, &mut target);
    assert_eq!(target.data, reals(&[58.0, 64.0, 139.0, 154.0]));
}

#[test]
fn dot_with_a_column_vector() {
    let m = matrix(2, 3, &[1.0, 0.0, -1.0, 2.0, 2.0, 2.0]);
    let v = matrix(3, 1, &[3.0, 4.0, 5.0]);
    let mut target: Matrix<Real> = Matrix::new(2, 1);
    m.dot(&v, &mut target);
    assert_eq!(target.data, reals(&[-2.0, 24.0]));
}

#[test]
fn dot_with_an_empty_inner_dimension_is_zero() {
    let m: Matrix<Real> = Matrix::new(2, 0);
    let v: Matrix<Real> = Matrix::new(0, 2);
    let mut target = matrix(2, 2, &[1.0, 1.0, 1.0, 1.0]);
    m.dot(&v, &mut target);
    assert_eq!(target.data, reals(&[0.0, 0.0, 0.0, 0.0]));
}

#[test]
fn outer_product_of_two_columns() {
    let u = matrix(3, 1, &[1.0, 2.0, 3.0]);
    let v = matrix(2, 1, &[4.0, 5.0]);
    let mut target: Matrix<Real> = Matrix::new(3, 2);
    u.outer_product(&v, &mut target);
    assert_eq!(target.rows, 3);
    assert_eq!(target.cols, 2);
    assert_eq!(target.data, reals(&[4.0, 5.0, 8.0, 10.0, 12.0, 15.0]));
}

#[test]
fn dot_transpose_self_matches_the_explicit_transpose() {
    let w = matrix(2, 3, &[1.0, 2.0, 3.0, 4.0, 5.0, 6.0]);
    let e = matrix(2, 1, &[1.0, -1.0]);
    let mut target = matrix(3, 1, &[9.0, 9.0, 9.0]);
    w.dot_transpose_self(&e, &mut target);
    assert_eq!(target.rows, 3);
    assert_eq!(target.cols, 1);
    assert_eq!(target.data, reals(&[-3.0, -3.0, -3.0]));
    let explicit = w.transpose().dot_multiply(&e);
    assert_eq!(explicit.data, target.data);
}

#[test]
fn transpose_swaps_rows_and_columns() {
    let m = matrix(2, 3, &[1.0, 2.0, 3.0, 4.0, 5.0, 6.0]);
    let t = m.transpose();
    assert_eq!(t.rows, 3);
    assert_eq!(t.cols, 2);
    assert_eq!(t.data, reals(&[1.0, 4.0, 2.0, 5.0, 3.0, 6.0]));
    assert_eq!(t.transpose().data, m.data);
}

#[test]
fn multiply_elementwise_pairs_entries() {
    let m1 = matrix(2, 2, &[1.0, 2.0, 3.0, 4.0]);
    let m2 = matrix(2, 2, &[5.0, 6.0, 7.0, 8.0]);
    let result = m1.multiply_elementwise(&m2);
    assert_eq!(result.rows, 2);
    assert_eq!(result.cols, 2);
    assert_eq!(result.data, reals(&[5.0, 12.0, 21.0, 32.0]));
}

#[test]
fn multiply_scalar_scales_entries() {
    let m = matrix(2, 2, &[1.0, 2.0, 3.0, 4.0]);
    let result = m.multiply_scalar(Real(2.5));
    assert_eq!(result.rows, 2);
    assert_eq!(result.cols, 2);
    assert_eq!(result.data, reals(&[2.5, 5.0, 7.5, 10.0]));
}

#[test]
fn map_applies_the_function_to_each_entry() {
    let m = matrix(1, 3, &[1.0, -2.0, 3.0]);
    let result = m.map(|x: Real| Real(x.0 * x.0 + 1.0));
    assert_eq!(result.rows, 1);
    assert_eq!(result.cols, 3);
    assert_eq!(result.data, reals(&[2.0, 5.0, 10.0]));
}

#[test]
fn from_flattens_rows() {
    let m = Matrix::from(vec![reals(&[1.0, 2.0, 3.0]), reals(&[4.0, 5.0, 6.0])]);
    assert_eq!(m.rows, 2);
    assert_eq!(m.cols, 3);
    assert_eq!(m.data, reals(&[1.0, 2.0, 3.0, 4.0, 5.0, 6.0]));
    let column = Matrix::from(vec![reals(&[1.0, 0.0])]).transpose();
    assert_eq!(column.rows, 2);
    assert_eq!(column.cols, 1);
    assert_eq!(column.data, reals(&[1.0, 0.0]));
}

#[test]
fn in_place_updates() {
    let mut m = matrix(1, 2, &[1.0, 2.0]);
    m.accumulate(&matrix(1, 2, &[10.0, 20.0]));
    assert_eq!(m.data, reals(&[11.0, 22.0]));
    m.scale(Real(0.5));
    assert_eq!(m.data, reals(&[5.5, 11.0]));
    m.add_scaled(&matrix(1, 2, &[1.0, -1.0]), Real(4.0));
    assert_eq!(m.data, reals(&[9.5, 7.0]));
    assert_eq!(m.rows, 1);
    assert_eq!(m.cols, 2);
}

#[test]
fn duplicate_is_a_deep_copy() {
    let m = matrix(2, 1, &[1.0, 2.0]);
    let mut copy = m.duplicate();
    assert_eq!(copy.rows, 2);
    assert_eq!(copy.cols, 1);
    assert_eq!(copy.data, m.data);
    copy.zeros();
    assert_eq!(m.data, reals(&[1.0, 2.0]));
}

#[test]
fn from_unit_words_maps_each_word() {
    let m: Matrix<Real> = Matrix::from_unit_words(1, 3, &[0, 0x8000_0000, 0xffff_ffff]);
    assert_eq!(m.rows, 1);
    assert_eq!(m.cols, 3);
    assert_eq!(m.data, reals(&[0.0, 0.5, 4294967295.0 / 4294967296.0]));
}

#[test]
fn random_draws_differ() {
    let a: Matrix<Real> = Matrix::random(8, 8);
    let b: Matrix<Real> = Matrix::random(8, 8);
    assert_ne!(a.data, b.data);
    let first = a.data[0];
    assert!(a.data.iter().any(|&v| v != first));
}

#[test]
fn mismatched_shapes_are_told_apart() {
    let a = matrix(2, 2, &[1.0, 2.0, 3.0, 4.0]);
    let b = matrix(3, 3, &[1.0, 2.0, 3.0, 4.0, 5.0, 6.0, 7.0, 8.0, 9.0]);
    let c = matrix(3, 2, &[1.0, 2.0, 3.0, 4.0, 5.0, 6.0]);
    let ragged = matrix(2, 2, &[1.0, 2.0, 3.0]);
    assert!(a.same_shape(&a));
    assert!(!a.same_shape(&b));
    assert!(!a.same_shape(&c));
    assert!(!a.same_shape(&ragged));
    assert!(!ragged.same_shape(&ragged));
}

#[test]
fn products_are_checked_for_their_dimensions() {
    let a = matrix(2, 3, &[1.0, 2.0, 3.0, 4.0, 5.0, 6.0]);
    let b = matrix(3, 2, &[7.0, 8.0, 9.0, 10.0, 11.0, 12.0]);
    let square: Matrix<Real> = Matrix::new(2, 2);
    let wide: Matrix<Real> = Matrix::new(2, 3);
    assert!(a.can_dot(&b, &square));
    // inner dimensions differ: 3 columns against 2 rows
    assert!(!a.can_dot(&a, &square));
    assert!(!square.can_dot(&b, &square));
    // the target has the wrong shape
    assert!(!a.can_dot(&b, &wide));
    assert!(!a.can_dot(&b, &matrix(2, 2, &[0.0])));
}
