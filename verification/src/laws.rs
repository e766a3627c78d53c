//! Laws that relate the operations to each other.
//!
//! The operations on numbers are calls of the number type's own methods, so a
//! law about vectors rests on a law about numbers: each lemma names the ones
//! it needs. `lemma_integer_laws` shows them for the wrapping
//! integers.
use crate::algebra::linear_algebra::{LinearAlgebra, Norm};
use crate::algebra::norm::{
    column_power_step, greatest_step, is_count_power, is_frobenius, is_greatest_total,
    is_magnitude_total, is_pq, is_ratio, magnitude_power_step, magnitude_step, square_step,
    squares_step,
};
use crate::fold::{folds_to, lemma_fold_is_function, lemma_fold_keeps};
use crate::grid::{
    fold_each, lemma_fold_each_is_flat, lemma_turned_holds_the_same, turned,
};
use crate::scalar::{
    addition_commutes, addition_is_exact, is_count, is_greater, is_magnitude, is_power,
    is_product, is_real_power, is_root, is_sum, is_zero, models_addition, models_square,
    multiplication_commutes, root_is_exact, subtraction_undoes_addition, zero_is_exact, Real,
    Scalar,
};
use crate::structure::matrix::{
    is_reshaped, is_transpose, lemma_columns_follow_view, lemma_storage_is_columns,
    lemma_storage_is_rows, same_frame, Matrix, Shape,
};
use crate::structure::vector::{dot_step, is_dot, is_vector_difference, is_vector_sum, pairs};
use vstd::prelude::*;
use vstd::seq_lib::{commutative_foldl, lemma_fold_left_permutation};

verus! {

/// Vector addition commutes: where the addition of numbers does, `u + v` and
/// `v + u` are the same vector.
pub proof fn lemma_vector_sum_commutes<T: Scalar>(u: Seq<T>, v: Seq<T>, left: Seq<T>, right: Seq<T>)
    requires
        addition_commutes::<T>(),
        is_vector_sum(u, v, left),
        is_vector_sum(v, u, right),
    ensures
        left == right,
{
    assert(left =~= right);
}

/// Subtraction undoes addition: where that holds of numbers, `(u + v) - v`
/// is `u`.
pub proof fn lemma_vector_difference_undoes_sum<T: Scalar>(
    u: Seq<T>,
    v: Seq<T>,
    sum: Seq<T>,
    back: Seq<T>,
)
    requires
        subtraction_undoes_addition::<T>(),
        is_vector_sum(u, v, sum),
        is_vector_difference(sum, v, back),
    ensures
        back == u,
{
    assert(back =~= u);
}

/// Two dot-product folds over the same pairs in swapped order, from the same
/// start, end in the same value.
proof fn lemma_swapped_folds_agree<T: Scalar>(u: Seq<T>, v: Seq<T>, z: T, left: T, right: T)
    requires
        u.len() == v.len(),
        addition_is_exact::<T>(),
        multiplication_commutes::<T>(),
        folds_to(dot_step::<T>(), pairs(u, v), z, left),
        folds_to(dot_step::<T>(), pairs(v, u), z, right),
    ensures
        left == right,
    decreases u.len(),
{
    let forth = pairs(u, v);
    let back = pairs(v, u);
    if u.len() > 0 {
        let mid_l = choose|mid: T|
            folds_to(dot_step::<T>(), forth.drop_last(), z, mid) && #[trigger] dot_step::<T>()(
                mid,
                forth.last(),
                left,
            );
        let mid_r = choose|mid: T|
            folds_to(dot_step::<T>(), back.drop_last(), z, mid) && #[trigger] dot_step::<T>()(
                mid,
                back.last(),
                right,
            );
        assert(forth.drop_last() =~= pairs(u.drop_last(), v.drop_last()));
        assert(back.drop_last() =~= pairs(v.drop_last(), u.drop_last()));
        lemma_swapped_folds_agree(u.drop_last(), v.drop_last(), z, mid_l, mid_r);
        let a = u.last();
        let b = v.last();
        let p_l = choose|p: T| #[trigger] is_product(a, b, p) && is_sum(mid_l, p, left);
        let p_r = choose|p: T| #[trigger] is_product(b, a, p) && is_sum(mid_r, p, right);
        assert(p_l == p_r);
    }
}

/// The dot product commutes: where numbers are exact and their
/// multiplication commutes, `u . v` and `v . u` are the same number.
pub proof fn lemma_dot_commutes<T: Scalar>(u: Seq<T>, v: Seq<T>, left: T, right: T)
    requires
        u.len() == v.len(),
        zero_is_exact::<T>(),
        addition_is_exact::<T>(),
        multiplication_commutes::<T>(),
        is_dot(u, v, left),
        is_dot(v, u, right),
    ensures
        left == right,
{
    let z_l = choose|z: T| #[trigger] is_zero(z) && folds_to(dot_step::<T>(), pairs(u, v), z, left);
    let z_r = choose|z: T| #[trigger]
        is_zero(z) && folds_to(dot_step::<T>(), pairs(v, u), z, right);
    lemma_swapped_folds_agree(u, v, z_l, left, right);
}

/// Two well-formed matrices with the same rows, dimensions and orientation
/// hold the same entries in the same places.
pub proof fn lemma_view_fixes_storage<T>(a: Matrix<T>, b: Matrix<T>)
    requires
        a.wf(),
        b.wf(),
        same_frame(a, b),
        a@ == b@,
    ensures
        a.storage() == b.storage(),
{
    match a.shape() {
        Shape::Row => {
            lemma_storage_is_rows(a);
            lemma_storage_is_rows(b);
        },
        Shape::Col => {
            lemma_storage_is_columns(a);
            lemma_storage_is_columns(b);
            lemma_columns_follow_view(a, b);
        },
    }
}

/// Changing the shape twice gives the matrix back: the same entries, held in
/// the same places, with the same dimensions and orientation.
pub proof fn lemma_change_shape_round_trip<T>(m: Matrix<T>, once: Matrix<T>, twice: Matrix<T>)
    requires
        m.wf(),
        is_reshaped(m, once),
        is_reshaped(once, twice),
    ensures
        twice.wf(),
        same_frame(m, twice),
        twice@ == m@,
        twice.storage() == m.storage(),
{
    lemma_view_fixes_storage(m, twice);
}

/// Transposing twice gives the matrix back: the same entries, held in the
/// same places, with the same dimensions and orientation.
pub proof fn lemma_transpose_round_trip<T>(m: Matrix<T>, once: Matrix<T>, twice: Matrix<T>)
    requires
        m.wf(),
        is_transpose(m, once),
        is_transpose(once, twice),
    ensures
        twice.wf(),
        same_frame(m, twice),
        twice@ == m@,
        twice.storage() == m.storage(),
{
    assert forall|i: int, j: int| 0 <= i < m.rows() && 0 <= j < m.cols() implies twice@[i][j]
        == m@[i][j] by {
        assert(twice@[i][j] == once@[j][i]);
    }
    assert(twice@ =~~= m@);
    lemma_view_fixes_storage(m, twice);
}

/// Adding the square of an entry to a running sum, as `plus` and `square`
/// compute them.
pub open spec fn add_square<T>(plus: spec_fn(T, T) -> T, square: spec_fn(T) -> T) -> spec_fn(
    T,
    T,
) -> T {
    |acc: T, x: T| plus(acc, square(x))
}

/// Where `plus` and `square` are what the number type computes, a sum of
/// squares over `vectors` from `z` is the fold of all entries with them.
proof fn lemma_sum_of_squares_is_flat_fold<T: Real>(
    vectors: Seq<Seq<T>>,
    plus: spec_fn(T, T) -> T,
    square: spec_fn(T) -> T,
    z: T,
    s: T,
)
    requires
        models_addition(plus),
        models_square(square),
        folds_to(squares_step::<T>(), vectors, z, s),
    ensures
        s == vectors.flatten().fold_left(z, add_square(plus, square)),
{
    let f = add_square(plus, square);
    assert forall|before: T, k: int, after: T|
        0 <= k < vectors.len() && #[trigger] squares_step::<T>()(
            before,
            vectors[k],
            after,
        ) implies after == fold_each(f)(before, vectors[k]) by {
        let v = vectors[k];
        assert forall|b: T, j: int, a: T|
            0 <= j < v.len() && #[trigger] square_step::<T>()(b, v[j], a) implies a == f(
            b,
            v[j],
        ) by {
            let q = choose|q: T| #[trigger] is_power(v[j], 2, q) && is_sum(b, q, a);
            assert(q == square(v[j]));
        }
        lemma_fold_is_function(square_step::<T>(), f, v, before, after);
    }
    lemma_fold_is_function(squares_step::<T>(), fold_each(f), vectors, z, s);
    lemma_fold_each_is_flat(vectors, f, z);
}

/// The Frobenius norm does not depend on the way a matrix is held: where the
/// numbers are exact and their addition is associative and commutative, two
/// matrices with the same rows have the same norm, whether they are held as
/// rows or as columns.
///
/// `plus` and `square` stand for what the number type's addition and second
/// power compute.
pub proof fn lemma_frobenius_ignores_shape<T: Real>(
    m: Matrix<T>,
    other: Matrix<T>,
    plus: spec_fn(T, T) -> T,
    square: spec_fn(T) -> T,
    norm: T,
    other_norm: T,
)
    requires
        m.wf(),
        other.wf(),
        m.rows() == other.rows(),
        m.cols() == other.cols(),
        m@ == other@,
        zero_is_exact::<T>(),
        root_is_exact::<T>(),
        models_addition(plus),
        models_square(square),
        forall|a: T, b: T| #[trigger] plus(a, b) == plus(b, a),
        forall|a: T, b: T, c: T| #[trigger] plus(plus(a, b), c) == plus(a, plus(b, c)),
        is_frobenius(m.storage(), norm),
        is_frobenius(other.storage(), other_norm),
    ensures
        norm == other_norm,
{
    let f = add_square(plus, square);
    let held = m.storage();
    let over = other.storage();
    let (z, s) = choose|z: T, s: T|
        #![trigger folds_to(squares_step::<T>(), held, z, s)]
        is_zero(z) && folds_to(squares_step::<T>(), held, z, s) && is_root(s, norm);
    let (oz, os) = choose|z: T, s: T|
        #![trigger folds_to(squares_step::<T>(), over, z, s)]
        is_zero(z) && folds_to(squares_step::<T>(), over, z, s) && is_root(s, other_norm);
    assert(z == oz);
    lemma_sum_of_squares_is_flat_fold(held, plus, square, z, s);
    lemma_sum_of_squares_is_flat_fold(over, plus, square, z, os);
    if m.shape() == other.shape() {
        lemma_view_fixes_storage(m, other);
    } else {
        let outer = held.len();
        let inner = over.len();
        assert forall|i: int, j: int| 0 <= i < outer && 0 <= j < inner implies over[j][i]
            == held[i][j] by {
            match m.shape() {
                Shape::Row => {
                    assert(other@[i][j] == over[j][i]);
                },
                Shape::Col => {
                    assert(other@[j][i] == over[j][i]);
                },
            }
        }
        assert(over =~~= turned(held, outer, inner));
        lemma_turned_holds_the_same(held, outer, inner);
        assert(commutative_foldl(f)) by {
            assert forall|x: T, y: T, v: T| #[trigger] f(f(v, x), y) == f(f(v, y), x) by {
                let a = square(x);
                let b = square(y);
                assert(plus(plus(v, a), b) == plus(v, plus(a, b)));
                assert(plus(plus(v, b), a) == plus(v, plus(b, a)));
            }
        }
        lemma_fold_left_permutation(over.flatten(), held.flatten(), f, z);
    }
}

/// `holds` is a property that the operations behind the norms keep: zero,
/// every magnitude and every second power have it, and so has a sum, a
/// power or a square root of numbers that have it. Being not negative is such
/// a property of the usual numbers.
pub open spec fn kept_by_norm_operations<T: Real>(holds: spec_fn(T) -> bool) -> bool {
    &&& forall|z: T| #[trigger] is_zero(z) ==> holds(z)
    &&& forall|x: T, a: T| #[trigger] is_magnitude(x, a) ==> holds(a)
    &&& forall|x: T, q: T| #[trigger] is_power(x, 2, q) ==> holds(q)
    &&& forall|a: T, n: i32, w: T| holds(a) && #[trigger] is_power(a, n, w) ==> holds(w)
    &&& forall|a: T, b: T, r: T| holds(a) && holds(b) && #[trigger] is_sum(a, b, r) ==> holds(r)
    &&& forall|a: T, e: T, r: T| holds(a) && #[trigger] is_real_power(a, e, r) ==> holds(r)
    &&& forall|a: T, r: T| holds(a) && #[trigger] is_root(a, r) ==> holds(r)
}

/// A greatest sum of magnitudes has every property that the operations
/// behind the norms keep.
proof fn lemma_greatest_total_keeps<T: Real>(
    vectors: Seq<Seq<T>>,
    holds: spec_fn(T) -> bool,
    r: T,
)
    requires
        kept_by_norm_operations(holds),
        is_greatest_total(vectors, r),
    ensures
        holds(r),
{
    let start = choose|start: T|
        #[trigger] is_zero(start) && folds_to(greatest_step::<T>(), vectors, start, r);
    assert forall|before: T, k: int, after: T|
        0 <= k < vectors.len() && holds(before) && #[trigger] greatest_step::<T>()(
            before,
            vectors[k],
            after,
        ) implies holds(after) by {
        let v = vectors[k];
        let (s, flag) = choose|s: T, flag: bool|
            is_magnitude_total(v, s) && #[trigger] is_greater(s, before, flag) && after
                == (if flag {
                s
            } else {
                before
            });
        let z = choose|z: T| #[trigger] is_zero(z) && folds_to(magnitude_step::<T>(), v, z, s);
        assert forall|b: T, j: int, a: T|
            0 <= j < v.len() && holds(b) && #[trigger] magnitude_step::<T>()(
                b,
                v[j],
                a,
            ) implies holds(a) by {
            let w = choose|w: T| #[trigger] is_magnitude(v[j], w) && is_sum(b, w, a);
            assert(holds(w));
        }
        lemma_fold_keeps(magnitude_step::<T>(), holds, v, z, s);
    }
    lemma_fold_keeps(greatest_step::<T>(), holds, vectors, start, r);
}

/// A Frobenius norm has every property that the operations behind the norms
/// keep.
proof fn lemma_frobenius_keeps<T: Real>(vectors: Seq<Seq<T>>, holds: spec_fn(T) -> bool, r: T)
    requires
        kept_by_norm_operations(holds),
        is_frobenius(vectors, r),
    ensures
        holds(r),
{
    let (z, s) = choose|z: T, s: T|
        #![trigger folds_to(squares_step::<T>(), vectors, z, s)]
        is_zero(z) && folds_to(squares_step::<T>(), vectors, z, s) && is_root(s, r);
    assert forall|before: T, k: int, after: T|
        0 <= k < vectors.len() && holds(before) && #[trigger] squares_step::<T>()(
            before,
            vectors[k],
            after,
        ) implies holds(after) by {
        let v = vectors[k];
        assert forall|b: T, j: int, a: T|
            0 <= j < v.len() && holds(b) && #[trigger] square_step::<T>()(
                b,
                v[j],
                a,
            ) implies holds(a) by {
            let q = choose|q: T| #[trigger] is_power(v[j], 2, q) && is_sum(b, q, a);
            assert(holds(q));
        }
        lemma_fold_keeps(square_step::<T>(), holds, v, before, after);
    }
    lemma_fold_keeps(squares_step::<T>(), holds, vectors, z, s);
}

/// A `PQ` norm has every property that the operations behind the norms keep.
proof fn lemma_pq_keeps<T: Real>(
    columns: Seq<Seq<T>>,
    p: usize,
    q: usize,
    holds: spec_fn(T) -> bool,
    r: T,
)
    requires
        kept_by_norm_operations(holds),
        is_pq(columns, p, q, r),
    ensures
        holds(r),
{
    let (z, s, e) = choose|z: T, s: T, e: T|
        #![trigger is_zero(z), is_real_power(s, e, r)]
        is_zero(z) && folds_to(column_power_step::<T>(p, q), columns, z, s) && is_ratio(1, q, e)
            && is_real_power(s, e, r);
    assert forall|before: T, k: int, after: T|
        0 <= k < columns.len() && holds(before) && #[trigger] column_power_step::<T>(p, q)(
            before,
            columns[k],
            after,
        ) implies holds(after) by {
        let column = columns[k];
        let (iz, is, ie, it) = choose|iz: T, is: T, ie: T, it: T|
            #![trigger is_zero(iz), is_real_power(is, ie, it)]
            is_zero(iz) && folds_to(magnitude_power_step::<T>(p), column, iz, is) && is_ratio(
                q,
                p,
                ie,
            ) && is_real_power(is, ie, it) && is_sum(before, it, after);
        assert forall|b: T, j: int, a: T|
            0 <= j < column.len() && holds(b) && #[trigger] magnitude_power_step::<T>(p)(
                b,
                column[j],
                a,
            ) implies holds(a) by {
            let (m, w) = choose|m: T, w: T|
                is_magnitude(column[j], m) && #[trigger] is_count_power(m, p, w) && is_sum(
                    b,
                    w,
                    a,
                );
            assert(holds(m));
            if p > i32::MAX {
                let e = choose|e: T| is_count(p, e) && #[trigger] is_real_power(m, e, w);
                assert(is_real_power(m, e, w));
            }
            assert(holds(w));
        }
        lemma_fold_keeps(magnitude_power_step::<T>(p), holds, column, iz, is);
        assert(holds(it));
    }
    lemma_fold_keeps(column_power_step::<T>(p, q), holds, columns, z, s);
}

/// No norm is negative, where the number type's operations give no negative
/// number from numbers that are not negative: a norm of any kind has every
/// property `holds` that zero, magnitudes and second powers have and that
/// sums, powers and square roots keep.
pub proof fn lemma_norm_keeps<T: Real>(m: Matrix<T>, kind: Norm, holds: spec_fn(T) -> bool, r: T)
    requires
        kept_by_norm_operations(holds),
        m.has_norm(kind, r),
    ensures
        holds(r),
{
    match kind {
        Norm::Frobenius => lemma_frobenius_keeps(m.storage(), holds, r),
        Norm::PQ(p, q) => lemma_pq_keeps(m.columns(), p, q, holds, r),
        Norm::One => lemma_greatest_total_keeps(m.columns(), holds, r),
        Norm::Infinity => lemma_greatest_total_keeps(m@, holds, r),
    }
}

/// The norm `Infinity` of a matrix is the norm `One` of its transpose.
pub proof fn lemma_infinity_is_one_of_transpose<T: Real>(m: Matrix<T>, t: Matrix<T>, r: T)
    requires
        is_transpose(m, t),
    ensures
        m.has_norm(Norm::Infinity, r) == t.has_norm(Norm::One, r),
{
    assert forall|j: int| 0 <= j < t.cols() implies #[trigger] t.columns()[j] == m@[j] by {
        assert forall|i: int| 0 <= i < t.rows() implies t.column(j)[i] == m@[j][i] by {
            assert(t@[i][j] == m@[j][i]);
        }
        assert(t.column(j) =~= m@[j]);
    }
    assert(t.columns() =~= m@);
}

} // verus!
