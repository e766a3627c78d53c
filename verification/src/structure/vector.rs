//! Vectors: fixed-length sequences of numbers.
use crate::error::AlgebraError;
use crate::fold::{folds_to, lemma_fold_take};
use crate::operation::fp::{reduce_step, reduces_to, FP};
use crate::scalar::{is_difference, is_product, is_sum, is_zero, Scalar};
use vstd::prelude::*;

verus! {

/// A sequence of numbers. No operation changes a vector: each returns a new one.
#[derive(Debug)]
pub struct Vector<T> {
    pub data: Vec<T>,
}

impl<T> View for Vector<T> {
    type V = Seq<T>;

    /// The entries, in order.
    open spec fn view(&self) -> Seq<T> {
        self.data@
    }
}

/// `w` holds, place by place, a sum of the entries of `u` and `v`.
pub open spec fn is_vector_sum<T: Scalar>(u: Seq<T>, v: Seq<T>, w: Seq<T>) -> bool {
    &&& u.len() == v.len()
    &&& w.len() == u.len()
    &&& forall|i: int| 0 <= i < u.len() ==> is_sum(u[i], v[i], #[trigger] w[i])
}

/// `w` holds, place by place, a difference of the entries of `u` and `v`.
pub open spec fn is_vector_difference<T: Scalar>(u: Seq<T>, v: Seq<T>, w: Seq<T>) -> bool {
    &&& u.len() == v.len()
    &&& w.len() == u.len()
    &&& forall|i: int| 0 <= i < u.len() ==> is_difference(u[i], v[i], #[trigger] w[i])
}

/// The entries of `u` and `v`, paired place by place.
pub open spec fn pairs<T>(u: Seq<T>, v: Seq<T>) -> Seq<(T, T)> {
    Seq::new(u.len(), |i: int| (u[i], v[i]))
}

/// One step of a dot product: the product of a pair is added to the running sum.
pub open spec fn dot_step<T: Scalar>() -> spec_fn(T, (T, T), T) -> bool {
    |before: T, pair: (T, T), after: T|
        exists|p: T| #[trigger] is_product(pair.0, pair.1, p) && is_sum(before, p, after)
}

/// `r` is a dot product of `u` and `v`: starting from zero, the products of
/// the pairs are added one after the other, first pair first.
pub open spec fn is_dot<T: Scalar>(u: Seq<T>, v: Seq<T>, r: T) -> bool {
    exists|z: T| #[trigger] is_zero(z) && folds_to(dot_step::<T>(), pairs(u, v), z, r)
}

impl<T: Copy> Clone for Vector<T> {
    fn clone(&self) -> (r: Self)
        ensures
            r@ == self@,
    {
        let n: usize = self.data.len();
        let mut data: Vec<T> = Vec::new();
        let mut i: usize = 0;
        while i < n
            invariant
                i <= n,
                n == self.data@.len(),
                data@ == self.data@.take(i as int),
            decreases n - i,
        {
            data.push(self.data[i]);
            assert(self.data@.take(i as int).push(self.data@[i as int]) =~= self.data@.take(
                i as int + 1,
            ));
            i += 1;
        }
        Vector { data }
    }
}

impl<T: Copy> Vector<T> {
    /// The vector with the entries of `v`.
    pub fn from_vec(v: Vec<T>) -> (r: Self)
        ensures
            r.data == v,
            r@ == v@,
    {
        Vector { data: v }
    }

    /// The number of entries.
    pub fn len(&self) -> (n: usize)
        ensures
            n == self@.len(),
    {
        self.data.len()
    }

    /// The entry at place `key`.
    pub fn index(&self, key: usize) -> (r: &T)
        requires
            key < self@.len(),
        ensures
            *r == self@[key as int],
    {
        &self.data[key]
    }
}

impl<T: Scalar> Vector<T> {
    /// The sum of two equally long vectors, entry by entry.
    pub fn add(&self, other: &Vector<T>) -> (r: Result<Vector<T>, AlgebraError>)
        ensures
            match r {
                Ok(w) => is_vector_sum(self@, other@, w@),
                Err(e) => e == AlgebraError::DimensionMismatch && self@.len() != other@.len(),
            },
    {
        let n: usize = self.data.len();
        if n != other.data.len() {
            return Err(AlgebraError::DimensionMismatch);
        }
        let mut data: Vec<T> = Vec::new();
        let mut i: usize = 0;
        while i < n
            invariant
                i <= n,
                n == self@.len(),
                n == other@.len(),
                data@.len() == i,
                forall|k: int| 0 <= k < i ==> is_sum(self@[k], other@[k], #[trigger] data@[k]),
            decreases n - i,
        {
            data.push(self.data[i].add(other.data[i]));
            i += 1;
        }
        Ok(Vector { data })
    }

    /// The difference of two equally long vectors, entry by entry.
    pub fn sub(&self, other: &Vector<T>) -> (r: Result<Vector<T>, AlgebraError>)
        ensures
            match r {
                Ok(w) => is_vector_difference(self@, other@, w@),
                Err(e) => e == AlgebraError::DimensionMismatch && self@.len() != other@.len(),
            },
    {
        let n: usize = self.data.len();
        if n != other.data.len() {
            return Err(AlgebraError::DimensionMismatch);
        }
        let mut data: Vec<T> = Vec::new();
        let mut i: usize = 0;
        while i < n
            invariant
                i <= n,
                n == self@.len(),
                n == other@.len(),
                data@.len() == i,
                forall|k: int|
                    0 <= k < i ==> is_difference(self@[k], other@[k], #[trigger] data@[k]),
            decreases n - i,
        {
            data.push(self.data[i].sub(other.data[i]));
            i += 1;
        }
        Ok(Vector { data })
    }

    /// The dot product of two equally long vectors.
    pub fn mul(&self, other: &Vector<T>) -> (r: Result<T, AlgebraError>)
        ensures
            match r {
                Ok(s) => self@.len() == other@.len() && is_dot(self@, other@, s),
                Err(e) => e == AlgebraError::DimensionMismatch && self@.len() != other@.len(),
            },
    {
        let n: usize = self.data.len();
        if n != other.data.len() {
            return Err(AlgebraError::DimensionMismatch);
        }
        let z = T::zero();
        let mut s = z;
        let mut i: usize = 0;
        while i < n
            invariant
                i <= n,
                n == self@.len(),
                n == other@.len(),
                is_zero(z),
                folds_to(dot_step::<T>(), pairs(self@, other@).take(i as int), z, s),
            decreases n - i,
        {
            let p = self.data[i].mul(other.data[i]);
            let t = s.add(p);
            proof {
                let pair = pairs(self@, other@)[i as int];
                assert(is_product(pair.0, pair.1, p) && is_sum(s, p, t));
                lemma_fold_take(dot_step::<T>(), pairs(self@, other@), i as int, z, s, t);
            }
            s = t;
            i += 1;
        }
        assert(pairs(self@, other@).take(n as int) =~= pairs(self@, other@));
        Ok(s)
    }
}

impl<T: Copy> FP for Vector<T> {
    type Element = T;

    open spec fn elements(&self) -> Seq<T> {
        self@
    }

    /// Any entries make up a vector.
    open spec fn admits(items: Seq<T>) -> bool {
        true
    }

    /// Two vectors have the same shape when they are equally long.
    open spec fn same_shape(&self, other: &Self) -> bool {
        self@.len() == other@.len()
    }

    fn fmap<F>(&self, f: F) -> (r: Result<Self, AlgebraError>) where F: Fn(&T) -> T
        ensures
            r is Ok,
    {
        let n: usize = self.data.len();
        let mut data: Vec<T> = Vec::new();
        let mut i: usize = 0;
        while i < n
            invariant
                i <= n,
                n == self@.len(),
                data@.len() == i,
                forall|k: int|
                    0 <= k < n ==> call_requires(f, (&#[trigger] self.elements()[k],)),
                forall|k: int| 0 <= k < i ==> call_ensures(f, (&self@[k],), #[trigger] data@[k]),
            decreases n - i,
        {
            assert(self.elements()[i as int] == self.data@[i as int]);
            data.push(f(&self.data[i]));
            i += 1;
        }
        Ok(Vector { data })
    }

    fn zip_with<G>(&self, g: G, other: &Self) -> (r: Result<Self, AlgebraError>) where
        G: Fn(&T, &T) -> T,

        ensures
            r is Ok <==> self@.len() == other@.len(),
    {
        let n: usize = self.data.len();
        if n != other.data.len() {
            return Err(AlgebraError::DimensionMismatch);
        }
        let mut data: Vec<T> = Vec::new();
        let mut i: usize = 0;
        while i < n
            invariant
                i <= n,
                n == self@.len(),
                n == other@.len(),
                data@.len() == i,
                forall|k: int|
                    0 <= k < n ==> call_requires(
                        g,
                        (&#[trigger] self.elements()[k], &other.elements()[k]),
                    ),
                forall|k: int|
                    0 <= k < i ==> call_ensures(g, (&self@[k], &other@[k]), #[trigger] data@[k]),
            decreases n - i,
        {
            assert(self.elements()[i as int] == self.data@[i as int]);
            data.push(g(&self.data[i], &other.data[i]));
            i += 1;
        }
        Ok(Vector { data })
    }

    fn reduce<G>(&self, g: G, default: T) -> (r: T) where G: Fn(T, &T) -> T {
        let n: usize = self.data.len();
        let mut acc = default;
        let mut i: usize = 0;
        while i < n
            invariant
                i <= n,
                n == self@.len(),
                forall|k: int, before: T|
                    0 <= k < n && #[trigger] reduces_to(
                        g,
                        self.elements().take(k),
                        default,
                        before,
                    ) ==> call_requires(g, (before, &self.elements()[k])),
                reduces_to(g, self.elements().take(i as int), default, acc),
            decreases n - i,
        {
            assert(self.elements()[i as int] == self.data@[i as int]);
            let next = g(acc, &self.data[i]);
            proof {
                lemma_fold_take(reduce_step(g), self.elements(), i as int, default, acc, next);
            }
            acc = next;
            i += 1;
        }
        assert(self.elements().take(n as int) =~= self.elements());
        acc
    }
}

} // verus!
