//! Matrices: lists of equally long vectors that are read as rows or as columns.
use crate::algebra::linear_algebra::{LinearAlgebra, Norm, Perms};
use crate::algebra::norm::{
    column_power_step, greatest_step, is_count_power, is_frobenius, is_greatest_total,
    is_magnitude_total, is_pq, magnitude_power_step, magnitude_step, square_step, squares_step,
};
use crate::error::AlgebraError;
use crate::fold::{folds_to, lemma_fold_take, lemma_fold_weaken};
use crate::operation::fp::{maps_to, reduce_step, reduces_to, zips_to, FP};
use crate::scalar::{
    is_count, is_difference, is_greater, is_magnitude, is_power, is_quotient, is_real_power,
    is_sum, is_zero, Real, Scalar,
};
use crate::structure::vector::{is_dot, is_vector_difference, is_vector_sum, Vector};
use vstd::prelude::*;

verus! {

/// What the vectors of a matrix are: its rows or its columns.
#[derive(Debug, Copy, Clone, PartialEq)]
pub enum Shape {
    Row,
    Col,
}

impl Shape {
    /// The other orientation.
    pub open spec fn opposite(self) -> Shape {
        match self {
            Shape::Row => Shape::Col,
            Shape::Col => Shape::Row,
        }
    }
}

/// Whether `items` can be the vectors of a matrix: there is at least one and
/// all are as long as the first.
pub open spec fn is_grid<T>(items: Seq<Vector<T>>) -> bool {
    &&& items.len() > 0
    &&& forall|i: int| 0 <= i < items.len() ==> (#[trigger] items[i])@.len() == items[0]@.len()
}

/// Whether the vectors of `items` are all equally long.
pub open spec fn equally_long<T>(items: Seq<Vector<T>>) -> bool {
    forall|i: int| 0 <= i < items.len() ==> (#[trigger] items[i])@.len() == items[0]@.len()
}

/// A matrix of `rows()` by `cols()` numbers.
///
/// The numbers are held as a list of vectors. With the tag `Row` the vector at
/// place `i` is row `i`, with `Col` it is column `i`. The view of a matrix is
/// the list of its rows, whatever the tag.
#[derive(Debug)]
pub struct Matrix<T> {
    data: Vec<Vector<T>>,
    row: usize,
    col: usize,
    shape: Shape,
}

impl<T> View for Matrix<T> {
    type V = Seq<Seq<T>>;

    /// The rows: `self@[i][j]` is the entry in row `i` and column `j`.
    open spec fn view(&self) -> Seq<Seq<T>> {
        Seq::new(self.rows(), |i: int| Seq::new(self.cols(), |j: int| self.at(i, j)))
    }
}

impl<T> Matrix<T> {
    /// The number of rows.
    pub closed spec fn rows(&self) -> nat {
        self.row as nat
    }

    /// The number of columns.
    pub closed spec fn cols(&self) -> nat {
        self.col as nat
    }

    /// The orientation tag.
    pub closed spec fn shape(&self) -> Shape {
        self.shape
    }

    /// The vectors that the matrix holds, in order.
    pub closed spec fn items(&self) -> Seq<Vector<T>> {
        self.data@
    }

    /// The entries as they are held: one sequence for each vector.
    pub open spec fn storage(&self) -> Seq<Seq<T>> {
        self.items().map_values(|v: Vector<T>| v@)
    }

    /// The entry in row `i` and column `j`.
    pub open spec fn at(&self, i: int, j: int) -> T {
        match self.shape() {
            Shape::Row => self.storage()[i][j],
            Shape::Col => self.storage()[j][i],
        }
    }

    /// Column `j`, from the first row to the last.
    pub open spec fn column(&self, j: int) -> Seq<T> {
        Seq::new(self.rows(), |i: int| self.at(i, j))
    }

    /// The columns, first column first.
    pub open spec fn columns(&self) -> Seq<Seq<T>> {
        Seq::new(self.cols(), |j: int| self.column(j))
    }

    /// The vectors agree with the recorded dimensions: with the tag `Row`
    /// there are `rows()` vectors of length `cols()`, with `Col` there are
    /// `cols()` vectors of length `rows()`.
    pub open spec fn wf(&self) -> bool {
        match self.shape() {
            Shape::Row => {
                &&& self.storage().len() == self.rows()
                &&& forall|i: int|
                    0 <= i < self.storage().len() ==> (#[trigger] self.storage()[i]).len()
                        == self.cols()
            },
            Shape::Col => {
                &&& self.storage().len() == self.cols()
                &&& forall|i: int|
                    0 <= i < self.storage().len() ==> (#[trigger] self.storage()[i]).len()
                        == self.rows()
            },
        }
    }

    #[verifier::type_invariant]
    spec fn dimensions_agree(&self) -> bool {
        self.wf()
    }
}

impl<T: Copy> Matrix<T> {
    /// The matrix whose rows (`Shape::Row`) or columns (`Shape::Col`) are the
    /// vectors of `data`. The dimensions are read off `data`: its length and
    /// the length of its first vector. Fails unless `data` holds at least one
    /// vector and all are equally long.
    pub fn new(data: Vec<Vector<T>>, shape: Shape) -> (r: Result<Self, AlgebraError>)
        ensures
            match r {
                Ok(m) => {
                    &&& is_grid(data@)
                    &&& m.wf()
                    &&& m.items() == data@
                    &&& m.shape() == shape
                    &&& m.rows() == (match shape {
                        Shape::Row => data@.len(),
                        Shape::Col => data@[0]@.len(),
                    })
                    &&& m.cols() == (match shape {
                        Shape::Row => data@[0]@.len(),
                        Shape::Col => data@.len(),
                    })
                },
                Err(e) => e == AlgebraError::DimensionMismatch && !is_grid(data@),
            },
    {
        let n: usize = data.len();
        if n == 0 {
            return Err(AlgebraError::DimensionMismatch);
        }
        let width: usize = data[0].len();
        let mut i: usize = 1;
        while i < n
            invariant
                1 <= i <= n,
                n == data@.len(),
                width == data@[0]@.len(),
                forall|k: int| 0 <= k < i ==> (#[trigger] data@[k])@.len() == width,
            decreases n - i,
        {
            if data[i].len() != width {
                return Err(AlgebraError::DimensionMismatch);
            }
            i += 1;
        }
        let m = match shape {
            Shape::Row => Matrix { data, row: n, col: width, shape },
            Shape::Col => Matrix { data, row: width, col: n, shape },
        };
        Ok(m)
    }

    /// The same matrix held the other way round: as columns where `self`
    /// holds rows, as rows where it holds columns. Vector `i` of the result
    /// has at place `j` what vector `j` of `self` has at place `i`.
    pub fn change_shape(&self) -> (r: Matrix<T>)
        ensures
            is_reshaped(*self, r),
    {
        proof {
            use_type_invariant(self);
        }
        let count: usize = self.data.len();
        let width: usize = match self.shape {
            Shape::Row => self.col,
            Shape::Col => self.row,
        };
        let mut data: Vec<Vector<T>> = Vec::new();
        let mut i: usize = 0;
        while i < width
            invariant
                i <= width,
                self.wf(),
                count == self.storage().len(),
                forall|k: int| 0 <= k < count ==> (#[trigger] self.storage()[k]).len() == width,
                data@.len() == i,
                forall|a: int| 0 <= a < i ==> (#[trigger] data@[a])@.len() == count,
                forall|a: int, b: int|
                    0 <= a < i && 0 <= b < count ==> (#[trigger] data@[a]@[b])
                        == self.storage()[b][a],
            decreases width - i,
        {
            let mut v: Vec<T> = Vec::new();
            let mut j: usize = 0;
            while j < count
                invariant
                    j <= count,
                    i < width,
                    count == self.storage().len(),
                    count == self.data@.len(),
                    forall|k: int|
                        0 <= k < count ==> (#[trigger] self.storage()[k]).len() == width,
                    v@.len() == j,
                    forall|b: int| 0 <= b < j ==> #[trigger] v@[b] == self.storage()[b][i as int],
                decreases count - j,
            {
                assert(self.storage()[j as int] == self.data@[j as int]@);
                v.push(*self.data[j].index(i));
                j += 1;
            }
            data.push(Vector::from_vec(v));
            i += 1;
        }
        let r = Matrix {
            data,
            row: self.row,
            col: self.col,
            shape: match self.shape {
                Shape::Row => Shape::Col,
                Shape::Col => Shape::Row,
            },
        };
        proof {
            assert(r@ =~~= self@);
        }
        r
    }

    /// The vector held at place `key`: row `key` with the tag `Row`, column
    /// `key` with `Col`.
    pub fn index(&self, key: usize) -> (r: &Vector<T>)
        requires
            key < self.storage().len(),
        ensures
            r@ == self.storage()[key as int],
            *r == self.items()[key as int],
    {
        &self.data[key]
    }

    /// The entry in row `i` and column `j`.
    pub fn entry(&self, i: usize, j: usize) -> (r: T)
        requires
            i < self.rows(),
            j < self.cols(),
        ensures
            r == self@[i as int][j as int],
    {
        proof {
            use_type_invariant(self);
        }
        match self.shape {
            Shape::Row => {
                assert(self.storage()[i as int] == self.data@[i as int]@);
                *self.data[i].index(j)
            },
            Shape::Col => {
                assert(self.storage()[j as int] == self.data@[j as int]@);
                *self.data[j].index(i)
            },
        }
    }

    /// The number of rows. Like the two functions below, it also tells that
    /// the matrix at hand is well formed, as every matrix is.
    pub fn row(&self) -> (n: usize)
        ensures
            n == self.rows(),
            self.wf(),
    {
        proof {
            use_type_invariant(self);
        }
        self.row
    }

    /// The number of columns.
    pub fn col(&self) -> (n: usize)
        ensures
            n == self.cols(),
            self.wf(),
    {
        proof {
            use_type_invariant(self);
        }
        self.col
    }

    /// The orientation tag.
    pub fn orientation(&self) -> (s: Shape)
        ensures
            s == self.shape(),
            self.wf(),
    {
        proof {
            use_type_invariant(self);
        }
        self.shape
    }
}

/// `r` is `m` held the other way round: the same rows and dimensions under
/// the opposite orientation tag, so that vector `i` of `r` has at place `j`
/// what vector `j` of `m` has at place `i`.
pub open spec fn is_reshaped<T>(m: Matrix<T>, r: Matrix<T>) -> bool {
    &&& r.wf()
    &&& r.shape() == m.shape().opposite()
    &&& r.rows() == m.rows()
    &&& r.cols() == m.cols()
    &&& r@ == m@
    &&& forall|i: int, j: int|
        0 <= i < r.storage().len() && 0 <= j < m.storage().len() ==> #[trigger] r.storage()[i][j]
            == m.storage()[j][i]
}

/// `t` is the transpose of `m`: rows and columns change places, the
/// orientation tag stays.
pub open spec fn is_transpose<T>(m: Matrix<T>, t: Matrix<T>) -> bool {
    &&& t.wf()
    &&& t.shape() == m.shape()
    &&& t.rows() == m.cols()
    &&& t.cols() == m.rows()
    &&& forall|i: int, j: int|
        0 <= i < t.rows() && 0 <= j < t.cols() ==> #[trigger] t@[i][j] == m@[j][i]
}

/// Whether two matrices agree in orientation and in both dimensions.
pub open spec fn same_frame<T>(a: Matrix<T>, b: Matrix<T>) -> bool {
    &&& a.shape() == b.shape()
    &&& a.rows() == b.rows()
    &&& a.cols() == b.cols()
}

/// `m` is a sum of `a` and `b`, entry by entry, held the way `a` is.
pub open spec fn is_matrix_sum<T: Scalar>(a: Matrix<T>, b: Matrix<T>, m: Matrix<T>) -> bool {
    &&& m.wf()
    &&& same_frame(a, m)
    &&& forall|i: int, j: int|
        0 <= i < a.rows() && 0 <= j < a.cols() ==> is_sum(a@[i][j], b@[i][j], #[trigger] m@[i][j])
}

/// `m` is a difference of `a` and `b`, entry by entry, held the way `a` is.
pub open spec fn is_matrix_difference<T: Scalar>(a: Matrix<T>, b: Matrix<T>, m: Matrix<T>) -> bool {
    &&& m.wf()
    &&& same_frame(a, m)
    &&& forall|i: int, j: int|
        0 <= i < a.rows() && 0 <= j < a.cols() ==> is_difference(
            a@[i][j],
            b@[i][j],
            #[trigger] m@[i][j],
        )
}

/// `m` is a product of `a` and `b`: it is held as rows, has the rows of `a`
/// and the columns of `b`, and its entry in row `i` and column `j` is a dot
/// product of row `i` of `a` and column `j` of `b`.
pub open spec fn is_matrix_product<T: Scalar>(a: Matrix<T>, b: Matrix<T>, m: Matrix<T>) -> bool {
    &&& m.wf()
    &&& m.shape() == Shape::Row
    &&& m.rows() == a.rows()
    &&& m.cols() == b.cols()
    &&& forall|i: int, j: int|
        0 <= i < a.rows() && 0 <= j < b.cols() ==> is_dot(a@[i], b.column(j), #[trigger] m@[i][j])
}

impl<T: Copy> Clone for Matrix<T> {
    fn clone(&self) -> (r: Self)
        ensures
            r.wf(),
            same_frame(*self, r),
            r.storage() == self.storage(),
            r@ == self@,
    {
        proof {
            use_type_invariant(self);
        }
        let n: usize = self.data.len();
        let mut data: Vec<Vector<T>> = Vec::new();
        let mut i: usize = 0;
        while i < n
            invariant
                i <= n,
                n == self.data@.len(),
                data@.len() == i,
                forall|k: int| 0 <= k < i ==> (#[trigger] data@[k])@ == self.storage()[k],
            decreases n - i,
        {
            data.push(self.data[i].clone());
            i += 1;
        }
        let r = Matrix { data, row: self.row, col: self.col, shape: self.shape };
        proof {
            assert(r@ =~~= self@);
        }
        r
    }
}

impl<T: Copy> Matrix<T> {
    /// The transpose: the entry in row `i` and column `j` of the result is the
    /// entry in row `j` and column `i` of `self`. The result is held the way
    /// `self` is.
    pub fn transpose(&self) -> (r: Matrix<T>)
        ensures
            is_transpose(*self, r),
    {
        let m = self.change_shape();
        Matrix { data: m.data, row: m.col, col: m.row, shape: self.shape }
    }

    /// Short for [`Matrix::transpose`].
    pub fn t(&self) -> (r: Matrix<T>)
        ensures
            is_transpose(*self, r),
    {
        self.transpose()
    }
}

impl<T: Scalar> Matrix<T> {
    /// The product of a matrix held as rows and one held as columns.
    fn mul_row_col(a: &Matrix<T>, b: &Matrix<T>) -> (r: Matrix<T>)
        requires
            a.wf(),
            b.wf(),
            a.shape() == Shape::Row,
            b.shape() == Shape::Col,
            a.cols() == b.rows(),
        ensures
            is_matrix_product(*a, *b, r),
    {
        let mut data: Vec<Vector<T>> = Vec::new();
        let mut i: usize = 0;
        while i < a.row
            invariant
                i <= a.row,
                a.wf(),
                b.wf(),
                a.shape() == Shape::Row,
                b.shape() == Shape::Col,
                a.cols() == b.rows(),
                data@.len() == i,
                forall|k: int| 0 <= k < i ==> (#[trigger] data@[k])@.len() == b.cols(),
                forall|k: int, j: int|
                    0 <= k < i && 0 <= j < b.cols() ==> is_dot(
                        a@[k],
                        b.column(j),
                        #[trigger] data@[k]@[j],
                    ),
            decreases a.row - i,
        {
            let v = &a.data[i];
            proof {
                assert(a.storage()[i as int] == v@);
            }
            let mut w: Vec<T> = Vec::new();
            let mut j: usize = 0;
            while j < b.col
                invariant
                    j <= b.col,
                    b.wf(),
                    b.shape() == Shape::Col,
                    v@.len() == b.rows(),
                    a@[i as int] == v@,
                    w@.len() == j,
                    forall|k: int|
                        0 <= k < j ==> is_dot(a@[i as int], b.column(k), #[trigger] w@[k]),
                decreases b.col - j,
            {
                proof {
                    assert(b.storage()[j as int] == b.data@[j as int]@);
                    assert(b.column(j as int) =~= b.data@[j as int]@);
                }
                match v.mul(&b.data[j]) {
                    Ok(x) => {
                        w.push(x);
                    },
                    Err(_) => {
                        assert(false);
                    },
                }
                j += 1;
            }
            data.push(Vector::from_vec(w));
            i += 1;
        }
        Matrix { data, row: a.row, col: b.col, shape: Shape::Row }
    }

    /// The matrix product. The operands may be held either way; the result
    /// is held as rows. Fails when `self` has not as many columns as `rhs` has
    /// rows.
    pub fn mul(&self, rhs: &Matrix<T>) -> (r: Result<Matrix<T>, AlgebraError>)
        ensures
            match r {
                Ok(m) => self.cols() == rhs.rows() && is_matrix_product(*self, *rhs, m),
                Err(e) => e == AlgebraError::DimensionMismatch && self.cols() != rhs.rows(),
            },
    {
        proof {
            use_type_invariant(self);
            use_type_invariant(rhs);
        }
        if self.col != rhs.row {
            return Err(AlgebraError::DimensionMismatch);
        }
        let m = match (self.shape, rhs.shape) {
            (Shape::Row, Shape::Col) => Self::mul_row_col(self, rhs),
            (Shape::Row, Shape::Row) => {
                let b = rhs.change_shape();
                proof {
                    lemma_columns_follow_view(*rhs, b);
                }
                Self::mul_row_col(self, &b)
            },
            (Shape::Col, Shape::Col) => {
                let a = self.change_shape();
                Self::mul_row_col(&a, rhs)
            },
            (Shape::Col, Shape::Row) => {
                let a = self.change_shape();
                let b = rhs.change_shape();
                proof {
                    lemma_columns_follow_view(*rhs, b);
                }
                Self::mul_row_col(&a, &b)
            },
        };
        Ok(m)
    }

    /// The sum, entry by entry. Fails unless the operands agree in
    /// orientation and in both dimensions.
    pub fn add(&self, rhs: &Matrix<T>) -> (r: Result<Matrix<T>, AlgebraError>)
        ensures
            match r {
                Ok(m) => same_frame(*self, *rhs) && is_matrix_sum(*self, *rhs, m),
                Err(e) => e == AlgebraError::DimensionMismatch && !same_frame(*self, *rhs),
            },
    {
        proof {
            use_type_invariant(self);
            use_type_invariant(rhs);
        }
        if !self.fits(rhs) {
            return Err(AlgebraError::DimensionMismatch);
        }
        let n: usize = self.data.len();
        let mut data: Vec<Vector<T>> = Vec::new();
        let mut i: usize = 0;
        while i < n
            invariant
                i <= n,
                self.wf(),
                rhs.wf(),
                same_frame(*self, *rhs),
                n == self.storage().len(),
                data@.len() == i,
                forall|k: int|
                    0 <= k < i ==> is_vector_sum(
                        self.storage()[k],
                        rhs.storage()[k],
                        (#[trigger] data@[k])@,
                    ),
            decreases n - i,
        {
            proof {
                assert(self.storage()[i as int] == self.data@[i as int]@);
                assert(rhs.storage()[i as int] == rhs.data@[i as int]@);
            }
            match self.data[i].add(&rhs.data[i]) {
                Ok(w) => {
                    data.push(w);
                },
                Err(_) => {
                    assert(false);
                },
            }
            i += 1;
        }
        let m = Matrix { data, row: self.row, col: self.col, shape: self.shape };
        proof {
            assert forall|a: int, b: int|
                0 <= a < self.rows() && 0 <= b < self.cols() implies is_sum(
                self@[a][b],
                rhs@[a][b],
                #[trigger] m@[a][b],
            ) by {
                match self.shape() {
                    Shape::Row => {
                    },
                    Shape::Col => {
                    },
                }
            }
        }
        Ok(m)
    }

    /// The difference, entry by entry. Fails unless the operands agree in
    /// orientation and in both dimensions.
    pub fn sub(&self, rhs: &Matrix<T>) -> (r: Result<Matrix<T>, AlgebraError>)
        ensures
            match r {
                Ok(m) => same_frame(*self, *rhs) && is_matrix_difference(*self, *rhs, m),
                Err(e) => e == AlgebraError::DimensionMismatch && !same_frame(*self, *rhs),
            },
    {
        proof {
            use_type_invariant(self);
            use_type_invariant(rhs);
        }
        if !self.fits(rhs) {
            return Err(AlgebraError::DimensionMismatch);
        }
        let n: usize = self.data.len();
        let mut data: Vec<Vector<T>> = Vec::new();
        let mut i: usize = 0;
        while i < n
            invariant
                i <= n,
                self.wf(),
                rhs.wf(),
                same_frame(*self, *rhs),
                n == self.storage().len(),
                data@.len() == i,
                forall|k: int|
                    0 <= k < i ==> is_vector_difference(
                        self.storage()[k],
                        rhs.storage()[k],
                        (#[trigger] data@[k])@,
                    ),
            decreases n - i,
        {
            proof {
                assert(self.storage()[i as int] == self.data@[i as int]@);
                assert(rhs.storage()[i as int] == rhs.data@[i as int]@);
            }
            match self.data[i].sub(&rhs.data[i]) {
                Ok(w) => {
                    data.push(w);
                },
                Err(_) => {
                    assert(false);
                },
            }
            i += 1;
        }
        let m = Matrix { data, row: self.row, col: self.col, shape: self.shape };
        proof {
            assert forall|a: int, b: int|
                0 <= a < self.rows() && 0 <= b < self.cols() implies is_difference(
                self@[a][b],
                rhs@[a][b],
                #[trigger] m@[a][b],
            ) by {
                match self.shape() {
                    Shape::Row => {
                    },
                    Shape::Col => {
                    },
                }
            }
        }
        Ok(m)
    }
}

impl<T> Matrix<T> {
    /// Whether `other` agrees with `self` in orientation and in both dimensions.
    fn fits(&self, other: &Matrix<T>) -> (b: bool)
        ensures
            b == same_frame(*self, *other),
    {
        let tags = match (self.shape, other.shape) {
            (Shape::Row, Shape::Row) => true,
            (Shape::Col, Shape::Col) => true,
            _ => false,
        };
        tags && self.row == other.row && self.col == other.col
    }
}

impl<T: Copy> FP for Matrix<T> {
    type Element = Vector<T>;

    /// The vectors that the matrix holds: its rows or its columns.
    open spec fn elements(&self) -> Seq<Vector<T>> {
        self.items()
    }

    /// Vectors make up a matrix when all are equally long.
    open spec fn admits(items: Seq<Vector<T>>) -> bool {
        equally_long(items)
    }

    /// Two matrices pair up vector by vector when they hold equally many
    /// vectors, whatever their orientations and the lengths of the vectors.
    open spec fn same_shape(&self, other: &Self) -> bool {
        self.items().len() == other.items().len()
    }

    /// Applies `f` to every vector held. The result is held the way `self`
    /// is; its dimensions are read off the vectors that `f` returned. Where
    /// `self` holds no vector, the result is `self` again.
    fn fmap<F>(&self, f: F) -> (r: Result<Self, AlgebraError>) where
        F: Fn(&Vector<T>) -> Vector<T>,

        ensures
            r matches Ok(m) ==> m.wf() && m.shape() == self.shape(),
            self.elements().len() == 0 ==> (r matches Ok(m) && same_frame(*self, m)),
    {
        proof {
            use_type_invariant(self);
        }
        let n: usize = self.data.len();
        let mut out: Vec<Vector<T>> = Vec::new();
        let mut i: usize = 0;
        while i < n
            invariant
                i <= n,
                n == self.elements().len(),
                out@.len() == i,
                forall|k: int|
                    0 <= k < n ==> call_requires(f, (&#[trigger] self.elements()[k],)),
                forall|k: int|
                    0 <= k < i ==> call_ensures(f, (&self.elements()[k],), #[trigger] out@[k]),
            decreases n - i,
        {
            out.push(f(&self.data[i]));
            i += 1;
        }
        let ghost outputs = out@;
        assert(maps_to(f, self.elements(), outputs));
        if n == 0 {
            Ok(Matrix { data: out, row: self.row, col: self.col, shape: self.shape })
        } else {
            Matrix::new(out, self.shape)
        }
    }

    /// Applies `g` to the vectors of `self` and `other` pair by pair, as
    /// they are held. Fails unless the two hold equally many vectors. The
    /// result is held the way `self` is; its dimensions are read off the
    /// vectors that `g` returned. Where the two hold no vector, the result is
    /// `self` again.
    fn zip_with<G>(&self, g: G, other: &Self) -> (r: Result<Self, AlgebraError>) where
        G: Fn(&Vector<T>, &Vector<T>) -> Vector<T>,

        ensures
            r matches Ok(m) ==> m.wf() && m.shape() == self.shape(),
            self.same_shape(other) && self.elements().len() == 0 ==> (r matches Ok(m)
                && same_frame(*self, m)),
    {
        proof {
            use_type_invariant(self);
        }
        let n: usize = self.data.len();
        if n != other.data.len() {
            return Err(AlgebraError::DimensionMismatch);
        }
        let mut out: Vec<Vector<T>> = Vec::new();
        let mut i: usize = 0;
        while i < n
            invariant
                i <= n,
                n == self.elements().len(),
                n == other.elements().len(),
                out@.len() == i,
                forall|k: int|
                    0 <= k < n ==> call_requires(
                        g,
                        (&#[trigger] self.elements()[k], &other.elements()[k]),
                    ),
                forall|k: int|
                    0 <= k < i ==> call_ensures(
                        g,
                        (&self.elements()[k], &other.elements()[k]),
                        #[trigger] out@[k],
                    ),
            decreases n - i,
        {
            out.push(g(&self.data[i], &other.data[i]));
            i += 1;
        }
        let ghost outputs = out@;
        assert(zips_to(g, self.elements(), other.elements(), outputs));
        if n == 0 {
            Ok(Matrix { data: out, row: self.row, col: self.col, shape: self.shape })
        } else {
            Matrix::new(out, self.shape)
        }
    }

    /// Folds the vectors held, first vector first.
    fn reduce<G>(&self, g: G, default: Vector<T>) -> (r: Vector<T>) where
        G: Fn(Vector<T>, &Vector<T>) -> Vector<T>,
     {
        let n: usize = self.data.len();
        let ghost init = default;
        let mut acc = default;
        let mut i: usize = 0;
        while i < n
            invariant
                i <= n,
                n == self.elements().len(),
                forall|k: int, before: Vector<T>|
                    0 <= k < n && #[trigger] reduces_to(
                        g,
                        self.elements().take(k),
                        init,
                        before,
                    ) ==> call_requires(g, (before, &self.elements()[k])),
                reduces_to(g, self.elements().take(i as int), init, acc),
            decreases n - i,
        {
            let ghost before = acc;
            let next = g(acc, &self.data[i]);
            proof {
                lemma_fold_take(reduce_step(g), self.elements(), i as int, init, before, next);
            }
            acc = next;
            i += 1;
        }
        assert(self.elements().take(n as int) =~= self.elements());
        acc
    }
}

impl<T: Real> Matrix<T> {
    /// The Frobenius norm: the vectors are gone through as they are held.
    fn frobenius(&self) -> (r: T)
        ensures
            is_frobenius(self.storage(), r),
    {
        let n: usize = self.data.len();
        let z = T::zero();
        let mut s = z;
        let mut i: usize = 0;
        while i < n
            invariant
                i <= n,
                n == self.storage().len(),
                n == self.data@.len(),
                is_zero(z),
                folds_to(squares_step::<T>(), self.storage().take(i as int), z, s),
            decreases n - i,
        {
            let v = &self.data[i];
            let m: usize = v.len();
            let ghost start = s;
            let mut j: usize = 0;
            while j < m
                invariant
                    j <= m,
                    m == v@.len(),
                    folds_to(square_step::<T>(), v@.take(j as int), start, s),
                decreases m - j,
            {
                let q = v.index(j).powi(2);
                let t = s.add(q);
                proof {
                    assert(is_power(v@[j as int], 2, q) && is_sum(s, q, t));
                    lemma_fold_take(square_step::<T>(), v@, j as int, start, s, t);
                }
                s = t;
                j += 1;
            }
            proof {
                assert(v@.take(m as int) =~= v@);
                lemma_fold_take(squares_step::<T>(), self.storage(), i as int, z, start, s);
            }
            i += 1;
        }
        assert(self.storage().take(n as int) =~= self.storage());
        s.sqrt()
    }

    /// The `p`-th power of `a`.
    fn count_power(a: T, p: usize) -> (w: T)
        ensures
            is_count_power(a, p, w),
    {
        if p <= 2147483647 {
            a.powi(p as i32)
        } else {
            let e = T::from_usize(p);
            let w = a.powf(e);
            assert(is_count(p, e) && is_real_power(a, e, w));
            w
        }
    }

    /// The `PQ` norm: the columns are gone through from the first to the
    /// last, each from its first row to its last.
    fn pq(&self, p: usize, q: usize) -> (r: T)
        ensures
            is_pq(self.columns(), p, q, r),
    {
        let z = T::zero();
        let mut s = z;
        let mut j: usize = 0;
        while j < self.col
            invariant
                j <= self.col,
                is_zero(z),
                folds_to(column_power_step::<T>(p, q), self.columns().take(j as int), z, s),
            decreases self.col - j,
        {
            let inner_zero = T::zero();
            let mut inner = inner_zero;
            let mut i: usize = 0;
            while i < self.row
                invariant
                    i <= self.row,
                    j < self.col,
                    folds_to(
                        magnitude_power_step::<T>(p),
                        self.column(j as int).take(i as int),
                        inner_zero,
                        inner,
                    ),
                decreases self.row - i,
            {
                let x = self.entry(i, j);
                let a = x.abs();
                let w = Self::count_power(a, p);
                let t = inner.add(w);
                proof {
                    let column = self.column(j as int);
                    assert(is_magnitude(x, a) && is_count_power(a, p, w) && is_sum(inner, w, t));
                    lemma_fold_take(
                        magnitude_power_step::<T>(p),
                        column,
                        i as int,
                        inner_zero,
                        inner,
                        t,
                    );
                }
                inner = t;
                i += 1;
            }
            let count_q = T::from_usize(q);
            let count_p = T::from_usize(p);
            let e = count_q.div(count_p);
            let t = inner.powf(e);
            let next = s.add(t);
            proof {
                let column = self.column(j as int);
                assert(column.take(self.row as int) =~= column);
                assert(is_quotient(count_q, count_p, e));
                assert(is_zero(inner_zero) && is_real_power(inner, e, t));
                lemma_fold_take(column_power_step::<T>(p, q), self.columns(), j as int, z, s, next);
            }
            s = next;
            j += 1;
        }
        let count_one = T::from_usize(1);
        let count_q = T::from_usize(q);
        let e = count_one.div(count_q);
        let r = s.powf(e);
        proof {
            assert(self.columns().take(self.col as int) =~= self.columns());
            assert(is_quotient(count_one, count_q, e));
            assert(is_zero(z) && is_real_power(s, e, r));
        }
        r
    }

    /// The greatest among the sums of the magnitudes of each vector held,
    /// and zero where no vector is held.
    fn greatest_total(&self) -> (r: T)
        ensures
            is_greatest_total(self.storage(), r),
    {
        let n: usize = self.data.len();
        let start = T::zero();
        let mut m = start;
        let mut c: usize = 0;
        while c < n
            invariant
                c <= n,
                n == self.storage().len(),
                n == self.data@.len(),
                is_zero(start),
                folds_to(greatest_step::<T>(), self.storage().take(c as int), start, m),
            decreases n - c,
        {
            let v = &self.data[c];
            let plus_magnitude = |x: T, y: &T| -> (sum: T)
                ensures
                    magnitude_step::<T>()(x, *y, sum),
                {
                    let a = y.abs();
                    let sum = x.add(a);
                    assert(is_magnitude(*y, a) && is_sum(x, a, sum));
                    sum
                };
            let z = T::zero();
            let s = v.reduce(plus_magnitude, z);
            let flag = s.gt(m);
            let next = if flag {
                s
            } else {
                m
            };
            proof {
                lemma_fold_weaken(reduce_step(plus_magnitude), magnitude_step::<T>(), v@, z, s);
                assert(is_zero(z));
                assert(is_greater(s, m, flag));
                lemma_fold_take(greatest_step::<T>(), self.storage(), c as int, start, m, next);
            }
            m = next;
            c += 1;
        }
        assert(self.storage().take(n as int) =~= self.storage());
        m
    }
}

impl<T: Real> LinearAlgebra for Matrix<T> {
    type Scalar = T;

    open spec fn transposes_to(&self, other: &Self) -> bool {
        is_transpose(*self, *other)
    }

    /// The Frobenius norm goes through the entries as they are held. The
    /// `PQ` norm and the norm `One` go through the columns, the norm
    /// `Infinity` through the rows, whichever way the matrix is held. `One`
    /// and `Infinity` sum the magnitudes of the entries.
    open spec fn has_norm(&self, norm: Norm, value: T) -> bool {
        match norm {
            Norm::Frobenius => is_frobenius(self.storage(), value),
            Norm::PQ(p, q) => is_pq(self.columns(), p, q, value),
            Norm::One => is_greatest_total(self.columns(), value),
            Norm::Infinity => is_greatest_total(self@, value),
        }
    }

    fn transpose(&self) -> (r: Self) {
        Matrix::transpose(self)
    }

    fn t(&self) -> (r: Self) {
        Matrix::transpose(self)
    }

    fn norm(&self, norm: Norm) -> (r: T) {
        proof {
            use_type_invariant(self);
        }
        match norm {
            Norm::Frobenius => self.frobenius(),
            Norm::PQ(p, q) => self.pq(p, q),
            Norm::One => {
                match self.shape {
                    Shape::Row => {
                        let a = self.change_shape();
                        proof {
                            lemma_columns_follow_view(*self, a);
                            assert(a.columns() =~= self.columns());
                            lemma_storage_is_columns(a);
                        }
                        a.greatest_total()
                    },
                    Shape::Col => {
                        proof {
                            lemma_storage_is_columns(*self);
                        }
                        self.greatest_total()
                    },
                }
            },
            Norm::Infinity => {
                match self.shape {
                    Shape::Row => {
                        proof {
                            lemma_storage_is_rows(*self);
                        }
                        self.greatest_total()
                    },
                    Shape::Col => {
                        let a = self.change_shape();
                        proof {
                            lemma_storage_is_rows(a);
                        }
                        a.greatest_total()
                    },
                }
            },
        }
    }

    /// No algorithm stands behind the determinant: the call always fails.
    fn det(&self) -> (r: Result<T, AlgebraError>)
        ensures
            r matches Err(e) && e == AlgebraError::NotImplemented,
    {
        Err(AlgebraError::NotImplemented)
    }

    /// No algorithm stands behind the LU decomposition: the call always fails.
    fn lu(&self) -> (r: Result<Option<(Perms, Perms, Self, Self)>, AlgebraError>)
        ensures
            r matches Err(e) && e == AlgebraError::NotImplemented,
    {
        Err(AlgebraError::NotImplemented)
    }

    /// No algorithm stands behind the block decomposition: the call always
    /// fails.
    fn block(&self) -> (r: Result<(Self, Self, Self, Self), AlgebraError>)
        ensures
            r matches Err(e) && e == AlgebraError::NotImplemented,
    {
        Err(AlgebraError::NotImplemented)
    }

    /// No algorithm stands behind the inverse: the call always fails.
    fn inv(&self) -> (r: Result<Option<Self>, AlgebraError>)
        ensures
            r matches Err(e) && e == AlgebraError::NotImplemented,
    {
        Err(AlgebraError::NotImplemented)
    }

    /// No algorithm stands behind the pseudo-inverse: the call always fails.
    fn pseudo_inv(&self) -> (r: Result<Option<Self>, AlgebraError>)
        ensures
            r matches Err(e) && e == AlgebraError::NotImplemented,
    {
        Err(AlgebraError::NotImplemented)
    }
}

/// A matrix held as rows holds its rows.
pub proof fn lemma_storage_is_rows<T>(m: Matrix<T>)
    requires
        m.wf(),
        m.shape() == Shape::Row,
    ensures
        m.storage() == m@,
{
    assert(m.storage() =~~= m@);
}

/// A matrix held as columns holds its columns.
pub proof fn lemma_storage_is_columns<T>(m: Matrix<T>)
    requires
        m.wf(),
        m.shape() == Shape::Col,
    ensures
        m.storage() == m.columns(),
{
    assert(m.storage() =~~= m.columns());
}

/// Two matrices with the same rows have the same columns.
pub proof fn lemma_columns_follow_view<T>(a: Matrix<T>, b: Matrix<T>)
    requires
        a@ == b@,
        a.rows() == b.rows(),
        a.cols() == b.cols(),
    ensures
        forall|j: int| 0 <= j < a.cols() ==> #[trigger] a.column(j) == b.column(j),
{
    assert forall|j: int| 0 <= j < a.cols() implies #[trigger] a.column(j) == b.column(j) by {
        assert forall|i: int| 0 <= i < a.rows() implies a.at(i, j) == b.at(i, j) by {
            assert(b@[i][j] == b.at(i, j));
        }
    }
}

} // verus!
