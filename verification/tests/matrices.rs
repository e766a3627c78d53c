use hyperoxide::{AlgebraError, Col, Matrix, Row, Shape, Vector, FP};

fn rows(data: Vec<Vec<i64>>) -> Matrix<i64> {
    Matrix::new(data.into_iter().map(Vector::from_vec).collect(), Row).unwrap()
}

fn columns(data: Vec<Vec<i64>>) -> Matrix<i64> {
    Matrix::new(data.into_iter().map(Vector::from_vec).collect(), Col).unwrap()
}

fn entries(m: &Matrix<i64>) -> Vec<Vec<i64>> {
    (0..m.row()).map(|i| (0..m.col()).map(|j| m.entry(i, j)).collect()).collect()
}

fn held(m: &Matrix<i64>) -> Vec<Vec<i64>> {
    let count = match m.orientation() {
        Shape::Row => m.row(),
        Shape::Col => m.col(),
    };
    (0..count).map(|k| m.index(k).data.clone()).collect()
}

#[test]
fn dimensions_are_read_off_the_vectors() {
    let a = rows(vec![vec![1, 2, 3], vec![4, 5, 6]]);
    assert_eq!((a.row(), a.col(), a.orientation()), (2, 3, Row));
    let b = columns(vec![vec![1, 2, 3], vec![4, 5, 6]]);
    assert_eq!((b.row(), b.col(), b.orientation()), (3, 2, Col));
    assert_eq!(b.entry(2, 1), 6);
    assert_eq!(b.entry(0, 1), 4);
    assert_eq!(a.entry(1, 0), 4);
    assert_eq!(a.index(1).data, vec![4, 5, 6]);
    assert_eq!(b.index(1).data, vec![4, 5, 6]);
}

#[test]
fn vectors_that_form_no_rectangle_are_refused() {
    let none: Vec<Vector<i64>> = Vec::new();
    assert!(matches!(Matrix::new(none, Row), Err(AlgebraError::DimensionMismatch)));
    let ragged = vec![Vector::from_vec(vec![1i64, 2]), Vector::from_vec(vec![3i64])];
    assert!(matches!(Matrix::new(ragged, Col), Err(AlgebraError::DimensionMismatch)));
}

#[test]
fn change_shape_keeps_the_matrix_and_flips_the_tag() {
    let a = rows(vec![vec![1, 2, 3], vec![4, 5, 6]]);
    let b = a.change_shape();
    assert_eq!((b.row(), b.col(), b.orientation()), (2, 3, Col));
    assert_eq!(held(&b), vec![vec![1, 4], vec![2, 5], vec![3, 6]]);
    assert_eq!(entries(&b), entries(&a));
}

#[test]
fn change_shape_round_trip() {
    let a = rows(vec![vec![1, 2, 3], vec![4, 5, 6]]);
    let back = a.change_shape().change_shape();
    assert_eq!((back.row(), back.col(), back.orientation()), (2, 3, Row));
    assert_eq!(held(&back), held(&a));
    let c = columns(vec![vec![1, 2, 3], vec![4, 5, 6]]);
    let back = c.change_shape().change_shape();
    assert_eq!((back.row(), back.col(), back.orientation()), (3, 2, Col));
    assert_eq!(held(&back), held(&c));
}

#[test]
fn transpose_swaps_rows_and_columns_and_keeps_the_tag() {
    let a = rows(vec![vec![1, 2, 3], vec![4, 5, 6]]);
    let t = a.transpose();
    assert_eq!((t.row(), t.col(), t.orientation()), (3, 2, Row));
    assert_eq!(entries(&t), vec![vec![1, 4], vec![2, 5], vec![3, 6]]);
    assert_eq!(entries(&a.t()), entries(&t));
    let c = columns(vec![vec![1, 2, 3], vec![4, 5, 6]]);
    let t = c.transpose();
    assert_eq!((t.row(), t.col(), t.orientation()), (2, 3, Col));
    assert_eq!(entries(&t), vec![vec![1, 2, 3], vec![4, 5, 6]]);
}

#[test]
fn transpose_round_trip() {
    let a = rows(vec![vec![1, 2, 3], vec![4, 5, 6]]);
    let back = a.transpose().transpose();
    assert_eq!((back.row(), back.col(), back.orientation()), (2, 3, Row));
    assert_eq!(held(&back), held(&a));
}

#[test]
fn product_of_rows_and_columns() {
    let a = rows(vec![vec![1, 2], vec![3, 4]]);
    let b = columns(vec![vec![1, 3], vec![2, 4]]);
    let m = a.mul(&b).unwrap();
    assert_eq!((m.row(), m.col(), m.orientation()), (2, 2, Row));
    assert_eq!(entries(&m), vec![vec![7, 10], vec![15, 22]]);
}

#[test]
fn product_with_its_transpose() {
    let u = Vector::from_vec(vec![1i64, 2]);
    let w = Vector::from_vec(vec![3i64, 4]);
    let m1 = Matrix::new(vec![u, w], Row).unwrap();
    let m = m1.mul(&m1.transpose()).unwrap();
    assert_eq!(entries(&m), vec![vec![5, 11], vec![11, 25]]);
}

#[test]
fn product_is_the_same_however_the_operands_are_held() {
    let a = rows(vec![vec![1, 2, 3], vec![4, 5, 6]]);
    let b = rows(vec![vec![1, 0], vec![2, 1], vec![0, 3]]);
    let expected = vec![vec![5, 11], vec![14, 23]];
    for left in [a.clone(), a.change_shape()] {
        for right in [b.clone(), b.change_shape()] {
            let m = left.mul(&right).unwrap();
            assert_eq!((m.row(), m.col(), m.orientation()), (2, 2, Row));
            assert_eq!(entries(&m), expected);
        }
    }
}

#[test]
fn product_of_unfitting_dimensions_is_reported() {
    let a = rows(vec![vec![1, 2, 3], vec![4, 5, 6]]);
    assert!(matches!(a.mul(&a), Err(AlgebraError::DimensionMismatch)));
    assert!(matches!(a.mul(&a.change_shape()), Err(AlgebraError::DimensionMismatch)));
    assert!(a.mul(&a.transpose()).is_ok());
}

#[test]
fn sums_and_differences() {
    let a = rows(vec![vec![1, 2], vec![3, 4]]);
    let b = rows(vec![vec![10, 20], vec![30, 40]]);
    assert_eq!(entries(&a.add(&b).unwrap()), vec![vec![11, 22], vec![33, 44]]);
    assert_eq!(entries(&b.sub(&a).unwrap()), vec![vec![9, 18], vec![27, 36]]);
    assert_eq!(entries(&a.add(&b).unwrap().sub(&b).unwrap()), entries(&a));
    let c = columns(vec![vec![1, 3], vec![2, 4]]);
    assert!(matches!(a.add(&c), Err(AlgebraError::DimensionMismatch)));
    let d = rows(vec![vec![1, 2, 3]]);
    assert!(matches!(a.sub(&d), Err(AlgebraError::DimensionMismatch)));
}

#[test]
fn matrix_combinators() {
    let a = rows(vec![vec![1, 2], vec![3, 4]]);
    let b = rows(vec![vec![10, 20], vec![30, 40]]);
    let doubled = a.fmap(|v: &Vector<i64>| v.add(v).unwrap()).unwrap();
    assert_eq!(entries(&doubled), vec![vec![2, 4], vec![6, 8]]);
    let zipped = a.zip_with(|x: &Vector<i64>, y: &Vector<i64>| y.sub(x).unwrap(), &b).unwrap();
    assert_eq!(entries(&zipped), vec![vec![9, 18], vec![27, 36]]);
    let total = a.reduce(
        |acc: Vector<i64>, v: &Vector<i64>| acc.add(v).unwrap(),
        Vector::from_vec(vec![0, 0]),
    );
    assert_eq!(total.data, vec![4, 6]);
}

#[test]
fn combinators_report_what_forms_no_matrix() {
    let a = rows(vec![vec![1, 2], vec![3, 4]]);
    let uneven = a.fmap(|v: &Vector<i64>| {
        if *v.index(0) == 1 {
            Vector::from_vec(vec![0])
        } else {
            v.clone()
        }
    });
    assert!(matches!(uneven, Err(AlgebraError::DimensionMismatch)));
    let wider = a.fmap(|v: &Vector<i64>| Vector::from_vec(vec![*v.index(0), *v.index(1), 0]));
    let wider = wider.unwrap();
    assert_eq!((wider.row(), wider.col()), (2, 3));
    let fewer = rows(vec![vec![1, 2]]);
    let unpaired = a.zip_with(|x: &Vector<i64>, _y: &Vector<i64>| x.clone(), &fewer);
    assert!(matches!(unpaired, Err(AlgebraError::DimensionMismatch)));
    let uneven = a.zip_with(
        |x: &Vector<i64>, y: &Vector<i64>| if *x.index(0) == 1 { x.clone() } else { y.clone() },
        &rows(vec![vec![1, 2, 3], vec![4, 5, 6]]),
    );
    assert!(matches!(uneven, Err(AlgebraError::DimensionMismatch)));
}

#[test]
fn zip_with_pairs_the_vectors_as_they_are_held() {
    let narrow = rows(vec![vec![1, 2, 3], vec![4, 5, 6]]);
    let wide = rows(vec![vec![10, 20, 30, 40], vec![50, 60, 70, 80]]);
    let ends = narrow
        .zip_with(
            |x: &Vector<i64>, y: &Vector<i64>| Vector::from_vec(vec![*x.index(0), *y.index(3)]),
            &wide,
        )
        .unwrap();
    assert_eq!((ends.row(), ends.col(), ends.orientation()), (2, 2, Row));
    assert_eq!(held(&ends), vec![vec![1, 40], vec![4, 80]]);
    let a = rows(vec![vec![1, 2], vec![3, 4]]);
    let c = a.change_shape();
    let mixed = a.zip_with(|x: &Vector<i64>, y: &Vector<i64>| x.add(y).unwrap(), &c).unwrap();
    assert_eq!((mixed.row(), mixed.col(), mixed.orientation()), (2, 2, Row));
    assert_eq!(held(&mixed), vec![vec![2, 5], vec![5, 8]]);
    let other_way = c.zip_with(|x: &Vector<i64>, y: &Vector<i64>| x.sub(y).unwrap(), &a).unwrap();
    assert_eq!((other_way.row(), other_way.col(), other_way.orientation()), (2, 2, Col));
    assert_eq!(held(&other_way), vec![vec![0, 1], vec![-1, 0]]);
}

#[test]
fn matrices_without_columns() {
    let a = rows(vec![vec![], vec![]]);
    assert_eq!((a.row(), a.col(), a.orientation()), (2, 0, Row));
    let c = a.change_shape();
    assert_eq!((c.row(), c.col(), c.orientation()), (2, 0, Col));
    assert_eq!(held(&c), Vec::<Vec<i64>>::new());
    assert_eq!(held(&c.change_shape()), held(&a));
    let t = a.transpose();
    assert_eq!((t.row(), t.col(), t.orientation()), (0, 2, Row));
    let p = a.mul(&t).unwrap();
    assert_eq!(entries(&p), vec![vec![0, 0], vec![0, 0]]);
    let q = t.mul(&a).unwrap();
    assert_eq!((q.row(), q.col()), (0, 0));
}

#[test]
fn combinators_on_a_matrix_that_holds_no_vector() {
    let c = rows(vec![vec![], vec![]]).change_shape();
    let mapped = c.fmap(|v: &Vector<i64>| v.clone()).unwrap();
    assert_eq!((mapped.row(), mapped.col(), mapped.orientation()), (2, 0, Col));
    let zipped = c.zip_with(|x: &Vector<i64>, _y: &Vector<i64>| x.clone(), &c).unwrap();
    assert_eq!((zipped.row(), zipped.col(), zipped.orientation()), (2, 0, Col));
    let sum = c.add(&c).unwrap();
    assert_eq!((sum.row(), sum.col(), sum.orientation()), (2, 0, Col));
    let kept = c.reduce(|acc: Vector<i64>, _v: &Vector<i64>| acc, Vector::from_vec(vec![7]));
    assert_eq!(kept.data, vec![7]);
}
