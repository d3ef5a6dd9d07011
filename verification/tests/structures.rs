use gsignal::matrix::Matrix;
use gsignal::scalar::Scalar;
use gsignal::statistics::{
    average, geometric_mean, harmonic_mean, mode, square_mean, standard_deviation, unique,
    variance,
};
use gsignal::filter::{average_moving_window_filter, median_moving_window_filter};
use gsignal::vector::Vector;

/// A double-precision scalar for exercising the numeric structures.
#[derive(Clone, Copy, Debug, PartialEq)]
struct S(f64);

impl Scalar for S {
    fn spec_add(self, rhs: Self) -> Self {
        S(self.0 + rhs.0)
    }
    fn spec_sub(self, rhs: Self) -> Self {
        S(self.0 - rhs.0)
    }
    fn spec_mul(self, rhs: Self) -> Self {
        S(self.0 * rhs.0)
    }
    fn spec_div(self, rhs: Self) -> Self {
        S(self.0 / rhs.0)
    }
    fn spec_neg(self) -> Self {
        S(-self.0)
    }
    fn spec_zero() -> Self {
        S(0.0)
    }
    fn spec_one() -> Self {
        S(1.0)
    }
    fn spec_is_zero(self) -> bool {
        self.0 == 0.0
    }
    fn spec_sqrt(self) -> Self {
        S(self.0.sqrt())
    }
    fn spec_sin(self) -> Self {
        S(self.0.sin())
    }
    fn spec_cos(self) -> Self {
        S(self.0.cos())
    }
    fn spec_atan2(self, x: Self) -> Self {
        S(self.0.atan2(x.0))
    }
    fn spec_sinh(self) -> Self {
        S(self.0.sinh())
    }
    fn spec_cosh(self) -> Self {
        S(self.0.cosh())
    }
    fn spec_exp(self) -> Self {
        S(self.0.exp())
    }
    fn spec_ln(self) -> Self {
        S(self.0.ln())
    }
    fn spec_log(self, base: Self) -> Self {
        S(self.0.log(base.0))
    }
    fn spec_powi(self, e: i32) -> Self {
        S(self.0.powi(e))
    }
    fn spec_powf(self, e: Self) -> Self {
        S(self.0.powf(e.0))
    }
    fn spec_from_i32(v: i32) -> Self {
        S(v as f64)
    }
    fn spec_from_usize(v: usize) -> Self {
        S(v as f64)
    }
    fn spec_two_pi() -> Self {
        S(2.0 * std::f64::consts::PI)
    }
    fn add(self, rhs: Self) -> Self {
        S(self.0 + rhs.0)
    }
    fn sub(self, rhs: Self) -> Self {
        S(self.0 - rhs.0)
    }
    fn mul(self, rhs: Self) -> Self {
        S(self.0 * rhs.0)
    }
    fn div(self, rhs: Self) -> Self {
        S(self.0 / rhs.0)
    }
    fn neg(self) -> Self {
        S(-self.0)
    }
    fn zero() -> Self {
        S(0.0)
    }
    fn one() -> Self {
        S(1.0)
    }
    fn is_zero(self) -> bool {
        self.0 == 0.0
    }
    fn sqrt(self) -> Self {
        S(self.0.sqrt())
    }
    fn sin(self) -> Self {
        S(self.0.sin())
    }
    fn cos(self) -> Self {
        S(self.0.cos())
    }
    fn atan2(self, x: Self) -> Self {
        S(self.0.atan2(x.0))
    }
    fn sinh(self) -> Self {
        S(self.0.sinh())
    }
    fn cosh(self) -> Self {
        S(self.0.cosh())
    }
    fn exp(self) -> Self {
        S(self.0.exp())
    }
    fn ln(self) -> Self {
        S(self.0.ln())
    }
    fn log(self, base: Self) -> Self {
        S(self.0.log(base.0))
    }
    fn powi(self, e: i32) -> Self {
        S(self.0.powi(e))
    }
    fn powf(self, e: Self) -> Self {
        S(self.0.powf(e.0))
    }
    fn from_i32(v: i32) -> Self {
        S(v as f64)
    }
    fn from_usize(v: usize) -> Self {
        S(v as f64)
    }
    fn two_pi() -> Self {
        S(2.0 * std::f64::consts::PI)
    }
    fn lemma_neg_involution(self) {}
}

#[test]
fn matrix_shape_and_squareness() {
    let m: Matrix<i32> = Matrix::new(vec![vec![1, 2], vec![3, 4]]);
    assert_eq!(m.size(), (2, 2));
    assert!(m.is_square());
    let n: Matrix<i32> = Matrix::new(vec![vec![1, 2, 3]]);
    assert_eq!(n.size(), (1, 3));
    assert!(!n.is_square());
    let e: Matrix<i32> = Matrix::new(Vec::new());
    assert_eq!(e.size(), (0, 0));
    assert!(!e.is_square());
}

#[test]
fn matrix_from_slice_and_to_vec() {
    let rows = vec![vec![1, 2], vec![3, 4]];
    let m: Matrix<i32> = Matrix::from_slice(&rows);
    assert_eq!(m.to_vec(), rows);
}

#[test]
fn matrix_transpose_swaps_entries() {
    let mut m: Matrix<i32> = Matrix::new(vec![vec![1, 2, 3], vec![4, 5, 6]]);
    let t = m.transpose();
    assert_eq!(t.to_vec(), vec![vec![1, 4], vec![2, 5], vec![3, 6]]);
    assert_eq!(t.size(), (3, 2));
    // the receiver is untouched
    assert_eq!(m.size(), (2, 3));
}

#[test]
fn matrix_constant_builders() {
    let z: Matrix<S> = Matrix::zeros(2, 3);
    assert_eq!(z.size(), (2, 3));
    for row in z.to_vec() {
        for v in row {
            assert_eq!(v.0, 0.0);
        }
    }
    let o: Matrix<S> = Matrix::ones(1, 2);
    for row in o.to_vec() {
        for v in row {
            assert_eq!(v.0, 1.0);
        }
    }
    let id: Matrix<S> = Matrix::identity(3);
    let rows = id.to_vec();
    for i in 0..3 {
        for j in 0..3 {
            assert_eq!(rows[i][j].0, if i == j { 1.0 } else { 0.0 });
        }
    }
}

#[test]
fn vector_accessors_and_arithmetic() {
    let v: Vector<S> = Vector::from_slice(&[S(1.0), S(2.0), S(3.0)]);
    assert_eq!(v.size(), 3);
    assert_eq!(v.to_vec(), vec![S(1.0), S(2.0), S(3.0)]);
    assert_eq!(v.to_slice()[1], S(2.0));
    let w: Vector<S> = Vector::new(vec![S(4.0), S(5.0), S(6.0)]);
    assert_eq!(v.dot(&w).0, 32.0);
    let s = Vector::from_slice(&[S(1.0), S(2.0)]).add(Vector::from_slice(&[S(3.0), S(4.0)]));
    assert_eq!(s.to_vec(), vec![S(4.0), S(6.0)]);
    let d = Vector::from_slice(&[S(3.0), S(4.0)]).sub(Vector::from_slice(&[S(1.0), S(2.0)]));
    assert_eq!(d.to_vec(), vec![S(2.0), S(2.0)]);
}

#[test]
fn statistics_means_and_variance() {
    let data = vec![S(1.0), S(2.0), S(3.0), S(4.0)];
    assert_eq!(average(&data).0, 2.5);
    assert_eq!(square_mean(&data).0, 7.5);
    assert_eq!(variance(&data).0, 1.25);
    assert_eq!(standard_deviation(&data).0, 1.25f64.sqrt());
    let h = harmonic_mean(&vec![S(1.0), S(2.0), S(4.0)]);
    assert!((h.0 - 12.0 / 7.0).abs() < 1e-12);
    let empty: Vec<S> = Vec::new();
    assert_eq!(average(&empty).0, 0.0);
    assert_eq!(variance(&empty).0, 0.0);
}

#[test]
fn vector_norm_is_the_euclidean_length() {
    let v: Vector<S> = Vector::from_slice(&[S(3.0), S(4.0)]);
    assert_eq!(v.norm().0, 5.0);
    let empty: Vector<S> = Vector::new(Vec::new());
    assert_eq!(empty.norm().0, 0.0);
}

#[test]
fn geometric_mean_takes_the_nth_root() {
    assert_eq!(geometric_mean(&vec![S(2.0), S(8.0)]).0, 4.0);
    assert_eq!(geometric_mean(&vec![S(5.0)]).0, 5.0);
    let empty: Vec<S> = Vec::new();
    assert_eq!(geometric_mean(&empty).0, 0.0);
}

#[test]
fn unique_keeps_first_occurrences() {
    let data = vec![3, 1, 3, 2, 1, 3];
    assert_eq!(unique(&data), vec![3, 1, 2]);
    let nothing: Vec<i32> = Vec::new();
    assert_eq!(unique(&nothing), Vec::<i32>::new());
}

#[test]
fn mode_finds_most_frequent_values() {
    let data = vec![3, 1, 3, 2, 1, 3];
    assert_eq!(mode(&data), vec![3]);
    let tied = vec![5, 7, 5, 7, 1];
    assert_eq!(mode(&tied), vec![5, 7]);
    let nothing: Vec<i32> = Vec::new();
    assert_eq!(mode(&nothing), Vec::<i32>::new());
}

#[test]
fn moving_window_filters_are_placeholders() {
    let filtered = average_moving_window_filter(Vector::new(vec![S(1.0), S(2.0)]), 2);
    assert_eq!(filtered.size(), 0);
    median_moving_window_filter();
}
