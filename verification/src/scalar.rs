//! The numbers that vectors and matrices hold.
//!
//! The containers are generic over their entries. Every arithmetic step they
//! take is a call of one of the methods below, and every contract describes a
//! result through what those methods promise: `is_sum(a, b, r)` reads "`r` is
//! a value that adding `b` to `a` may return". A number type that promises
//! exact results (such as the integers below) makes those contracts exact; one
//! that promises nothing still gets the shape of each computation.
use vstd::prelude::*;

verus! {

/// The ring operations: what sums, differences and products of entries need.
pub trait Scalar: Copy {
    /// The value an empty sum starts from.
    fn zero() -> Self;

    fn add(self, rhs: Self) -> Self;

    fn sub(self, rhs: Self) -> Self;

    fn mul(self, rhs: Self) -> Self;
}

/// What the matrix norms need beyond the ring operations.
pub trait Real: Scalar {
    /// Whether `self` is strictly greater than `rhs`.
    fn gt(self, rhs: Self) -> bool;

    fn abs(self) -> Self;

    /// `self` raised to a whole power.
    fn powi(self, n: i32) -> Self;

    /// `self` raised to the power `e`.
    fn powf(self, e: Self) -> Self;

    fn sqrt(self) -> Self;

    fn div(self, rhs: Self) -> Self;

    /// The number that stands for the count `n`.
    fn from_usize(n: usize) -> Self;
}

/// `z` is a value that `T::zero()` may return.
pub open spec fn is_zero<T: Scalar>(z: T) -> bool {
    call_ensures(T::zero, (), z)
}

/// `r` is a value that `a.add(b)` may return.
pub open spec fn is_sum<T: Scalar>(a: T, b: T, r: T) -> bool {
    call_ensures(T::add, (a, b), r)
}

/// `r` is a value that `a.sub(b)` may return.
pub open spec fn is_difference<T: Scalar>(a: T, b: T, r: T) -> bool {
    call_ensures(T::sub, (a, b), r)
}

/// `r` is a value that `a.mul(b)` may return.
pub open spec fn is_product<T: Scalar>(a: T, b: T, r: T) -> bool {
    call_ensures(T::mul, (a, b), r)
}

/// `flag` is an answer that `a.gt(b)` may give.
pub open spec fn is_greater<T: Real>(a: T, b: T, flag: bool) -> bool {
    call_ensures(T::gt, (a, b), flag)
}

/// `r` is a value that `a.abs()` may return.
pub open spec fn is_magnitude<T: Real>(a: T, r: T) -> bool {
    call_ensures(T::abs, (a,), r)
}

/// `r` is a value that `a.powi(n)` may return.
pub open spec fn is_power<T: Real>(a: T, n: i32, r: T) -> bool {
    call_ensures(T::powi, (a, n), r)
}

/// `r` is a value that `a.powf(e)` may return.
pub open spec fn is_real_power<T: Real>(a: T, e: T, r: T) -> bool {
    call_ensures(T::powf, (a, e), r)
}

/// `r` is a value that `a.sqrt()` may return.
pub open spec fn is_root<T: Real>(a: T, r: T) -> bool {
    call_ensures(T::sqrt, (a,), r)
}

/// `r` is a value that `a.div(b)` may return.
pub open spec fn is_quotient<T: Real>(a: T, b: T, r: T) -> bool {
    call_ensures(T::div, (a, b), r)
}

/// `r` is a value that `T::from_usize(n)` may return.
pub open spec fn is_count<T: Real>(n: usize, r: T) -> bool {
    call_ensures(T::from_usize, (n,), r)
}

/// The integers modulo 2^64, read as signed: sums, differences and products
/// wrap around, so every operation is exact in that ring.
impl Scalar for i64 {
    fn zero() -> (r: i64)
        ensures
            r == 0,
    {
        0
    }

    fn add(self, rhs: i64) -> (r: i64)
        ensures
            r == self.wrapping_add(rhs),
    {
        self.wrapping_add(rhs)
    }

    fn sub(self, rhs: i64) -> (r: i64)
        ensures
            r == self.wrapping_sub(rhs),
    {
        self.wrapping_sub(rhs)
    }

    fn mul(self, rhs: i64) -> (r: i64)
        ensures
            r == self.wrapping_mul(rhs),
    {
        self.wrapping_mul(rhs)
    }
}

/// Whatever `T::zero()` returns, it is one value.
pub open spec fn zero_is_exact<T: Scalar>() -> bool {
    forall|z1: T, z2: T|
        #![trigger is_zero(z1), is_zero(z2)]
        is_zero(z1) && is_zero(z2) ==> z1 == z2
}

/// Whatever `a.add(b)` returns, it is one value.
pub open spec fn addition_is_exact<T: Scalar>() -> bool {
    forall|a: T, b: T, r1: T, r2: T|
        #![trigger is_sum(a, b, r1), is_sum(a, b, r2)]
        is_sum(a, b, r1) && is_sum(a, b, r2) ==> r1 == r2
}

/// `a.add(b)` and `b.add(a)` return the same.
pub open spec fn addition_commutes<T: Scalar>() -> bool {
    forall|a: T, b: T, r1: T, r2: T|
        #![trigger is_sum(a, b, r1), is_sum(b, a, r2)]
        is_sum(a, b, r1) && is_sum(b, a, r2) ==> r1 == r2
}

/// `a.mul(b)` and `b.mul(a)` return the same.
pub open spec fn multiplication_commutes<T: Scalar>() -> bool {
    forall|a: T, b: T, r1: T, r2: T|
        #![trigger is_product(a, b, r1), is_product(b, a, r2)]
        is_product(a, b, r1) && is_product(b, a, r2) ==> r1 == r2
}

/// Taking `b` off a sum of `a` and `b` gives `a` back.
pub open spec fn subtraction_undoes_addition<T: Scalar>() -> bool {
    forall|a: T, b: T, s: T, d: T|
        #![trigger is_sum(a, b, s), is_difference(s, b, d)]
        is_sum(a, b, s) && is_difference(s, b, d) ==> d == a
}

/// Whatever `a.sqrt()` returns, it is one value.
pub open spec fn root_is_exact<T: Real>() -> bool {
    forall|a: T, r1: T, r2: T|
        #![trigger is_root(a, r1), is_root(a, r2)]
        is_root(a, r1) && is_root(a, r2) ==> r1 == r2
}

/// `plus` is what the addition of `T` computes: `a.add(b)` returns
/// `plus(a, b)` and nothing else.
pub open spec fn models_addition<T: Scalar>(plus: spec_fn(T, T) -> T) -> bool {
    forall|a: T, b: T, r: T| #[trigger] is_sum(a, b, r) ==> r == plus(a, b)
}

/// `square` is what the second power of `T` computes: `a.powi(2)` returns
/// `square(a)` and nothing else.
pub open spec fn models_square<T: Real>(square: spec_fn(T) -> T) -> bool {
    forall|a: T, r: T| #[trigger] is_power(a, 2, r) ==> r == square(a)
}

/// The wrapping integers are exact, their addition and multiplication
/// commute, and their subtraction undoes their addition.
pub proof fn lemma_integer_laws()
    ensures
        zero_is_exact::<i64>(),
        addition_is_exact::<i64>(),
        addition_commutes::<i64>(),
        multiplication_commutes::<i64>(),
        subtraction_undoes_addition::<i64>(),
{
}

} // verus!
