use hyperoxide::{AlgebraError, Scalar, Vector, FP};

#[test]
fn integer_vectors_add_entry_by_entry() {
    let u = Vector::from_vec(vec![1i64, 2, 3]);
    let v = Vector::from_vec(vec![10i64, 20, 30]);
    let w = u.add(&v).unwrap();
    assert_eq!(w.data, vec![11, 22, 33]);
}

#[test]
fn integer_vectors_subtract_entry_by_entry() {
    let u = Vector::from_vec(vec![1i64, 2, 3]);
    let v = Vector::from_vec(vec![10i64, 20, 30]);
    let w = u.sub(&v).unwrap();
    assert_eq!(w.data, vec![-9, -18, -27]);
}

#[test]
fn integer_dot_product() {
    let u = Vector::from_vec(vec![1i64, 2]);
    let v = Vector::from_vec(vec![3i64, 4]);
    assert_eq!(u.mul(&v), Ok(11));
}

#[test]
fn integer_arithmetic_wraps() {
    assert_eq!(Scalar::add(i64::MAX, 1), i64::MIN);
    assert_eq!(Scalar::sub(i64::MIN, 1), i64::MAX);
    assert_eq!(Scalar::mul(i64::MAX, 2), -2);
    assert_eq!(<i64 as Scalar>::zero(), 0);
}

#[test]
fn unequal_lengths_are_reported() {
    let u = Vector::from_vec(vec![1i64, 2]);
    let v = Vector::from_vec(vec![3i64]);
    assert!(matches!(u.add(&v), Err(AlgebraError::DimensionMismatch)));
    assert!(matches!(u.sub(&v), Err(AlgebraError::DimensionMismatch)));
    assert_eq!(u.mul(&v), Err(AlgebraError::DimensionMismatch));
    assert!(matches!(
        u.zip_with(|a: &i64, b: &i64| a + b, &v),
        Err(AlgebraError::DimensionMismatch)
    ));
}

#[test]
fn vector_combinators() {
    let u = Vector::from_vec(vec![1i64, 2, 3]);
    let v = Vector::from_vec(vec![4i64, 5, 6]);
    assert_eq!(u.len(), 3);
    assert_eq!(*u.index(1), 2);
    assert_eq!(u.fmap(|x: &i64| x * 10).unwrap().data, vec![10, 20, 30]);
    assert_eq!(u.zip_with(|a: &i64, b: &i64| a * b, &v).unwrap().data, vec![4, 10, 18]);
    assert_eq!(u.reduce(|acc: i64, x: &i64| acc * 10 + x, 0), 123);
    assert_eq!(u.clone().data, u.data);
}
