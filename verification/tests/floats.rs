use hyperoxide::{
    AlgebraError, Col, LinearAlgebra, Matrix, Norm, Real, Row, Scalar, Vector, FP,
};

/// Double-precision numbers as the entries of vectors and matrices.
#[derive(Debug, Clone, Copy, PartialEq)]
struct F(f64);

impl Scalar for F {
    fn zero() -> Self {
        F(0.0)
    }

    fn add(self, rhs: Self) -> Self {
        F(self.0 + rhs.0)
    }

    fn sub(self, rhs: Self) -> Self {
        F(self.0 - rhs.0)
    }

    fn mul(self, rhs: Self) -> Self {
        F(self.0 * rhs.0)
    }
}

impl Real for F {
    fn gt(self, rhs: Self) -> bool {
        self.0 > rhs.0
    }

    fn abs(self) -> Self {
        F(self.0.abs())
    }

    fn powi(self, n: i32) -> Self {
        F(self.0.powi(n))
    }

    fn powf(self, e: Self) -> Self {
        F(self.0.powf(e.0))
    }

    fn sqrt(self) -> Self {
        F(self.0.sqrt())
    }

    fn div(self, rhs: Self) -> Self {
        F(self.0 / rhs.0)
    }

    fn from_usize(n: usize) -> Self {
        F(n as f64)
    }
}

fn vector(data: &[f64]) -> Vector<F> {
    Vector::from_vec(data.iter().map(|x| F(*x)).collect())
}

fn rows(data: &[&[f64]]) -> Matrix<F> {
    Matrix::new(data.iter().map(|r| vector(r)).collect(), Row).unwrap()
}

fn columns(data: &[&[f64]]) -> Matrix<F> {
    Matrix::new(data.iter().map(|c| vector(c)).collect(), Col).unwrap()
}

fn entries(m: &Matrix<F>) -> Vec<Vec<f64>> {
    (0..m.row()).map(|i| (0..m.col()).map(|j| m.entry(i, j).0).collect()).collect()
}

fn close(a: f64, b: f64) -> bool {
    (a - b).abs() <= 1e-12 * (1.0 + a.abs().max(b.abs()))
}

#[test]
fn vector_sum_commutes() {
    let u = vector(&[1.5, -2.25, 1e10]);
    let v = vector(&[0.1, 0.2, 0.3]);
    assert_eq!(u.add(&v).unwrap().data, v.add(&u).unwrap().data);
}

#[test]
fn difference_recovers_the_summand_within_tolerance() {
    let u = vector(&[1.5, -2.25, 1e10]);
    let v = vector(&[0.1, 0.2, 0.3]);
    let back = u.add(&v).unwrap().sub(&v).unwrap();
    for k in 0..3 {
        assert!(close(back.index(k).0, u.index(k).0));
    }
}

#[test]
fn difference_need_not_recover_the_summand_exactly() {
    let u = vector(&[0.1]);
    let v = vector(&[1e16]);
    let back = u.add(&v).unwrap().sub(&v).unwrap();
    assert_eq!(back.index(0).0, 0.0);
}

#[test]
fn dot_product_commutes() {
    let u = vector(&[1.5, -2.25, 1e10]);
    let v = vector(&[0.1, 0.2, 0.3]);
    assert_eq!(u.mul(&v), v.mul(&u));
    assert_eq!(vector(&[1.0, 2.0]).mul(&vector(&[3.0, 4.0])), Ok(F(11.0)));
    assert_eq!(vector(&[]).mul(&vector(&[])), Ok(F(0.0)));
}

#[test]
fn end_to_end_products() {
    let v = vector(&[1.0, 2.0]);
    let w = vector(&[3.0, 4.0]);
    let v2 = vector(&[1.0, 3.0]);
    let w2 = vector(&[2.0, 4.0]);
    let m1 = Matrix::new(vec![v, w], Row).unwrap();
    let m2 = Matrix::new(vec![v2, w2], Col).unwrap();
    let m = m1.change_shape().mul(&m2).unwrap();
    assert_eq!(entries(&m), vec![vec![7.0, 10.0], vec![15.0, 22.0]]);
    let n = m1.transpose().mul(&m2).unwrap();
    assert_eq!(entries(&n), vec![vec![10.0, 14.0], vec![14.0, 20.0]]);
    let p = m1.mul(&m1.transpose()).unwrap();
    assert_eq!(entries(&p), vec![vec![5.0, 11.0], vec![11.0, 25.0]]);
}

#[test]
fn dimension_mismatch_is_an_error_value() {
    let a = rows(&[&[1.0, 2.0, 3.0], &[4.0, 5.0, 6.0]]);
    let b = columns(&[&[1.0, 2.0], &[3.0, 4.0]]);
    assert!(matches!(a.mul(&b), Err(AlgebraError::DimensionMismatch)));
}

#[test]
fn frobenius_norm() {
    let a = rows(&[&[1.0, 2.0], &[3.0, 4.0]]);
    assert_eq!(a.norm(Norm::Frobenius), F(30f64.sqrt()));
    assert_eq!(a.change_shape().norm(Norm::Frobenius), F(30f64.sqrt()));
    let b = columns(&[&[1.0, 2.0], &[3.0, 4.0]]);
    assert_eq!(b.norm(Norm::Frobenius), F(30f64.sqrt()));
    let c = rows(&[&[3.0, -4.0]]);
    assert_eq!(c.norm(Norm::Frobenius), F(5.0));
}

/// In floating point the order of a sum matters: the same matrix held as
/// rows and held as columns can differ in the last digit of its norm.
#[test]
fn frobenius_norm_goes_through_the_entries_as_held() {
    let a = rows(&[&[1.0, 1.0], &[1e8, 1.0]]);
    let held_as_rows = a.norm(Norm::Frobenius).0;
    let held_as_columns = a.change_shape().norm(Norm::Frobenius).0;
    assert_eq!(held_as_rows, (((1.0f64 + 1.0) + 1e16) + 1.0).sqrt());
    assert_eq!(held_as_columns, (((1.0f64 + 1e16) + 1.0) + 1.0).sqrt());
    assert_eq!(held_as_rows, 100000000.00000001);
    assert_eq!(held_as_columns, 100000000.0);
    assert!(close(held_as_rows, held_as_columns));
}

#[test]
fn one_norm_is_the_greatest_column_sum() {
    let a = rows(&[&[1.0, 2.0], &[3.0, 4.0]]);
    assert_eq!(a.norm(Norm::One), F(6.0));
    assert_eq!(a.change_shape().norm(Norm::One), F(6.0));
}

#[test]
fn infinity_norm_is_the_greatest_row_sum() {
    let a = rows(&[&[1.0, 2.0], &[3.0, 4.0]]);
    assert_eq!(a.norm(Norm::Infinity), F(7.0));
    assert_eq!(a.change_shape().norm(Norm::Infinity), F(7.0));
}

/// The sums are of magnitudes: sums of the signed entries would give 4 and
/// -1 here.
#[test]
fn one_and_infinity_norms_sum_magnitudes() {
    let a = rows(&[&[1.0, -2.0], &[3.0, -4.0]]);
    assert_eq!(a.norm(Norm::One), F(6.0));
    assert_eq!(a.norm(Norm::Infinity), F(7.0));
    assert_eq!(a.change_shape().norm(Norm::One), F(6.0));
    assert_eq!(a.change_shape().norm(Norm::Infinity), F(7.0));
    let b = rows(&[&[1.0, -2.0], &[-3.0, 4.0]]);
    assert_eq!(b.norm(Norm::One), F(6.0));
    assert_eq!(b.norm(Norm::Infinity), F(7.0));
    assert_eq!(rows(&[&[-1.0]]).norm(Norm::Infinity), F(1.0));
    assert_eq!(rows(&[&[-1.0]]).norm(Norm::One), F(1.0));
}

#[test]
fn infinity_norm_is_the_one_norm_of_the_transpose() {
    let a = rows(&[&[1.0, -2.0, 0.5], &[3.0, -4.0, 8.0]]);
    assert_eq!(a.norm(Norm::Infinity), F(15.0));
    assert_eq!(a.transpose().norm(Norm::One), F(15.0));
    assert_eq!(a.norm(Norm::One), F(8.5));
    assert_eq!(a.transpose().norm(Norm::Infinity), F(8.5));
}

#[test]
fn norms_are_not_negative() {
    let a = rows(&[&[-1.0, -2.0], &[-3.0, -4.0]]);
    for kind in [Norm::Frobenius, Norm::PQ(1, 1), Norm::PQ(2, 3), Norm::One, Norm::Infinity] {
        assert!(a.norm(kind).0 >= 0.0);
    }
    let zeros = rows(&[&[0.0, 0.0], &[0.0, 0.0]]);
    for kind in [Norm::Frobenius, Norm::PQ(1, 1), Norm::One, Norm::Infinity] {
        assert_eq!(zeros.norm(kind), F(0.0));
    }
}

#[test]
fn greatest_sum_of_a_matrix_without_columns_is_zero() {
    let a = rows(&[&[], &[]]);
    assert_eq!(a.norm(Norm::One), F(0.0));
    assert_eq!(a.norm(Norm::Infinity), F(0.0));
    assert_eq!(a.change_shape().norm(Norm::One), F(0.0));
    assert_eq!(a.change_shape().norm(Norm::Infinity), F(0.0));
}

#[test]
fn pq_norm() {
    let a = rows(&[&[1.0, -2.0], &[3.0, -4.0]]);
    assert_eq!(a.norm(Norm::PQ(1, 1)), F(10.0));
    assert_eq!(a.change_shape().norm(Norm::PQ(1, 1)), F(10.0));
    assert!(close(a.norm(Norm::PQ(2, 2)).0, 30f64.sqrt()));
    let expected = (10f64.powf(0.5) + 20f64.powf(0.5)).powf(1.0);
    assert_eq!(a.norm(Norm::PQ(2, 1)), F(expected));
    let wide = rows(&[&[1.0, 2.0, 3.0], &[4.0, 5.0, 6.0]]);
    assert_eq!(wide.norm(Norm::PQ(1, 1)), F(21.0));
    assert_eq!(wide.change_shape().norm(Norm::PQ(1, 1)), F(21.0));
}

/// An exponent too great for a whole power is taken as a real power: the
/// huge power of 0.5 is 0, and the norm is what the column of 1 gives.
#[test]
fn pq_norm_with_a_huge_inner_exponent() {
    let a = rows(&[&[1.0, 0.5]]);
    assert_eq!(a.norm(Norm::PQ(usize::MAX, 1)), F(1.0));
    assert_eq!(a.change_shape().norm(Norm::PQ(usize::MAX, 1)), F(1.0));
    let b = rows(&[&[1.0, 0.5], &[0.25, -1.0]]);
    let e = 1.0 / (usize::MAX as f64);
    let expected = (1f64.powf(e) + 1f64.powf(e)).powf(1.0);
    assert_eq!(b.norm(Norm::PQ(usize::MAX, 1)), F(expected));
    assert_eq!(b.norm(Norm::PQ(usize::MAX, 1)), F(2.0));
    assert_eq!(rows(&[&[2.0, -3.0]]).norm(Norm::PQ(2147483647, 2147483647)).0, f64::INFINITY);
}

#[test]
fn pq_norm_with_equal_exponents_is_the_frobenius_norm() {
    let a = rows(&[&[1.0, -2.0], &[3.0, -4.0]]);
    assert!(close(a.norm(Norm::PQ(2, 2)).0, a.norm(Norm::Frobenius).0));
}

#[test]
fn transpose_through_the_trait() {
    let a = rows(&[&[1.0, 2.0, 3.0], &[4.0, 5.0, 6.0]]);
    let t = LinearAlgebra::transpose(&a);
    assert_eq!(entries(&t), vec![vec![1.0, 4.0], vec![2.0, 5.0], vec![3.0, 6.0]]);
    assert_eq!(entries(&LinearAlgebra::t(&a)), entries(&t));
}

#[test]
fn decompositions_are_not_implemented() {
    let a = rows(&[&[1.0, 2.0], &[3.0, 4.0]]);
    assert_eq!(a.det(), Err(AlgebraError::NotImplemented));
    assert!(matches!(a.lu(), Err(AlgebraError::NotImplemented)));
    assert!(matches!(a.block(), Err(AlgebraError::NotImplemented)));
    assert!(matches!(a.inv(), Err(AlgebraError::NotImplemented)));
    assert!(matches!(a.pseudo_inv(), Err(AlgebraError::NotImplemented)));
}

#[test]
fn float_combinators() {
    let u = vector(&[1.0, 2.0, 3.0]);
    let halves = u.fmap(|x: &F| F(x.0 / 2.0)).unwrap();
    assert_eq!(halves.data, vec![F(0.5), F(1.0), F(1.5)]);
    let sum = u.reduce(|acc: F, x: &F| acc.add(*x), F(0.0));
    assert_eq!(sum, F(6.0));
}
