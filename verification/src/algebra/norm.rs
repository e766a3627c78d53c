//! What the matrix norms compute, stated over sequences of sequences.
//!
//! Each norm is a chain of calls of the number type's operations. The
//! relations below fix which calls are made, on which entries and in which
//! order; what each call returns is the number type's own matter.
use crate::fold::folds_to;
use crate::scalar::{
    is_count, is_greater, is_magnitude, is_power, is_quotient, is_real_power, is_root, is_sum,
    is_zero, Real,
};
use vstd::prelude::*;

verus! {

/// One step of a sum of magnitudes: the magnitude of the next entry is added
/// to the running sum.
pub open spec fn magnitude_step<T: Real>() -> spec_fn(T, T, T) -> bool {
    |before: T, x: T, after: T|
        exists|a: T| #[trigger] is_magnitude(x, a) && is_sum(before, a, after)
}

/// `s` is a sum of the magnitudes of the entries of `v`: starting from zero,
/// they are added one after the other, first entry first.
pub open spec fn is_magnitude_total<T: Real>(v: Seq<T>, s: T) -> bool {
    exists|z: T| #[trigger] is_zero(z) && folds_to(magnitude_step::<T>(), v, z, s)
}

/// One step of the sum of squares: the second power of the next entry is
/// added to the running sum.
pub open spec fn square_step<T: Real>() -> spec_fn(T, T, T) -> bool {
    |before: T, x: T, after: T|
        exists|q: T| #[trigger] is_power(x, 2, q) && is_sum(before, q, after)
}

/// The sum of squares goes through one whole vector.
pub open spec fn squares_step<T: Real>() -> spec_fn(T, Seq<T>, T) -> bool {
    |before: T, v: Seq<T>, after: T| folds_to(square_step::<T>(), v, before, after)
}

/// `r` is a Frobenius norm of the entries held in `vectors`: a square root of
/// the sum of the squares of all entries, taken vector by vector from zero.
pub open spec fn is_frobenius<T: Real>(vectors: Seq<Seq<T>>, r: T) -> bool {
    exists|z: T, s: T|
        #![trigger folds_to(squares_step::<T>(), vectors, z, s)]
        is_zero(z) && folds_to(squares_step::<T>(), vectors, z, s) && is_root(s, r)
}

/// One step of a running maximum of sums: the sum of the magnitudes of the
/// next vector takes the place of the maximum where it is greater.
pub open spec fn greatest_step<T: Real>() -> spec_fn(T, Seq<T>, T) -> bool {
    |before: T, v: Seq<T>, after: T|
        exists|s: T, flag: bool|
            is_magnitude_total(v, s) && #[trigger] is_greater(s, before, flag) && after
                == (if flag {
                s
            } else {
                before
            })
}

/// `r` is a greatest sum of magnitudes among `vectors`: the running maximum
/// starts at zero and takes in the sum of the magnitudes of each vector in
/// turn. Without vectors it is zero.
pub open spec fn is_greatest_total<T: Real>(vectors: Seq<Seq<T>>, r: T) -> bool {
    exists|start: T|
        #[trigger] is_zero(start) && folds_to(greatest_step::<T>(), vectors, start, r)
}

/// `e` is a quotient of the numbers that stand for the counts `num` and `den`.
pub open spec fn is_ratio<T: Real>(num: usize, den: usize, e: T) -> bool {
    exists|a: T, b: T| is_count(num, a) && is_count(den, b) && #[trigger] is_quotient(a, b, e)
}

/// `w` is a `p`-th power of `a`. Where `p` fits the exponent of `powi` it is
/// taken with `powi`; a greater `p` is no whole exponent that `powi` takes,
/// so the power is taken with `powf`, to the number that stands for `p`.
pub open spec fn is_count_power<T: Real>(a: T, p: usize, w: T) -> bool {
    if p <= i32::MAX {
        is_power(a, p as i32, w)
    } else {
        exists|e: T| is_count(p, e) && #[trigger] is_real_power(a, e, w)
    }
}

/// One step of the inner sum of the `PQ` norm: the `p`-th power of the
/// magnitude of the next entry is added to the running sum.
pub open spec fn magnitude_power_step<T: Real>(p: usize) -> spec_fn(T, T, T) -> bool {
    |before: T, x: T, after: T|
        exists|a: T, w: T|
            is_magnitude(x, a) && #[trigger] is_count_power(a, p, w) && is_sum(before, w, after)
}

/// One step of the outer sum of the `PQ` norm: the inner sum of the next
/// column, raised to the power `q / p`, is added to the running sum.
pub open spec fn column_power_step<T: Real>(p: usize, q: usize) -> spec_fn(T, Seq<T>, T) -> bool {
    |before: T, column: Seq<T>, after: T|
        exists|z: T, s: T, e: T, t: T|
            #![trigger is_zero(z), is_real_power(s, e, t)]
            is_zero(z) && folds_to(magnitude_power_step::<T>(p), column, z, s) && is_ratio(q, p, e)
                && is_real_power(s, e, t) && is_sum(before, t, after)
}

/// `r` is a `PQ` norm of the matrix with the given columns: for each column
/// the `p`-th powers of the magnitudes of its entries are summed and the sum
/// is raised to the power `q / p`; these are summed over the columns, and the
/// total is raised to the power `1 / q`.
pub open spec fn is_pq<T: Real>(columns: Seq<Seq<T>>, p: usize, q: usize, r: T) -> bool {
    exists|z: T, s: T, e: T|
        #![trigger is_zero(z), is_real_power(s, e, r)]
        is_zero(z) && folds_to(column_power_step::<T>(p, q), columns, z, s) && is_ratio(1, q, e)
            && is_real_power(s, e, r)
}

} // verus!
