//! Elementwise combinators.
//!
//! The functions handed to a combinator are ordinary closures. What a
//! combinator returns is stated through what the closure promises of each
//! call: `call_ensures(f, (x,), y)` reads "`y` is a value that `f(x)` may
//! return".
use crate::error::AlgebraError;
use crate::fold::folds_to;
use vstd::prelude::*;

verus! {

/// `outputs` holds, place by place, a value that `f` may return for the item
/// of `items` at that place.
pub open spec fn maps_to<E, F: Fn(&E) -> E>(f: F, items: Seq<E>, outputs: Seq<E>) -> bool {
    &&& outputs.len() == items.len()
    &&& forall|i: int|
        0 <= i < items.len() ==> call_ensures(f, (&items[i],), #[trigger] outputs[i])
}

/// `left` and `right` are equally long and `outputs` holds, place by place, a
/// value that `g` may return for the two items at that place.
pub open spec fn zips_to<E, G: Fn(&E, &E) -> E>(
    g: G,
    left: Seq<E>,
    right: Seq<E>,
    outputs: Seq<E>,
) -> bool {
    &&& left.len() == right.len()
    &&& outputs.len() == left.len()
    &&& forall|i: int|
        0 <= i < left.len() ==> call_ensures(g, (&left[i], &right[i]), #[trigger] outputs[i])
}

/// One step of a reduction: `g` takes the accumulator and the next item.
pub open spec fn reduce_step<E, G: Fn(E, &E) -> E>(g: G) -> spec_fn(E, E, E) -> bool {
    |before: E, item: E, after: E| call_ensures(g, (before, &item), after)
}

/// Folding `items` from `init` with `g`, first item first, may end in `out`.
pub open spec fn reduces_to<E, G: Fn(E, &E) -> E>(g: G, items: Seq<E>, init: E, out: E) -> bool {
    folds_to(reduce_step(g), items, init, out)
}

/// Containers whose elements can be mapped, combined pairwise and folded.
pub trait FP: Sized {
    type Element;

    /// The elements that the combinators visit, in their order.
    spec fn elements(&self) -> Seq<Self::Element>;

    /// Whether `items` can be the elements of a container of this type.
    spec fn admits(items: Seq<Self::Element>) -> bool;

    /// Whether `self` and `other` have the same shape, so that their elements
    /// pair up.
    spec fn same_shape(&self, other: &Self) -> bool;

    /// Applies `f` to every element. The results make up the new container;
    /// the call fails when they cannot.
    fn fmap<F>(&self, f: F) -> (r: Result<Self, AlgebraError>) where
        F: Fn(&Self::Element) -> Self::Element,

        requires
            forall|i: int|
                0 <= i < self.elements().len() ==> call_requires(
                    f,
                    (&#[trigger] self.elements()[i],),
                ),
        ensures
            match r {
                Ok(mapped) => maps_to(f, self.elements(), mapped.elements()) && Self::admits(
                    mapped.elements(),
                ),
                Err(e) => e == AlgebraError::DimensionMismatch && exists|
                    outputs: Seq<Self::Element>,
                | #[trigger] maps_to(f, self.elements(), outputs) && !Self::admits(outputs),
            },
    ;

    /// Applies `g` to the elements of `self` and `other` pair by pair. Fails
    /// when the two differ in shape, or when the results cannot make up a
    /// container.
    fn zip_with<G>(&self, g: G, other: &Self) -> (r: Result<Self, AlgebraError>) where
        G: Fn(&Self::Element, &Self::Element) -> Self::Element,

        requires
            forall|i: int|
                0 <= i < self.elements().len() && i < other.elements().len() ==> call_requires(
                    g,
                    (&#[trigger] self.elements()[i], &other.elements()[i]),
                ),
        ensures
            match r {
                Ok(zipped) => self.same_shape(other) && zips_to(
                    g,
                    self.elements(),
                    other.elements(),
                    zipped.elements(),
                ) && Self::admits(zipped.elements()),
                Err(e) => e == AlgebraError::DimensionMismatch && (!self.same_shape(other)
                    || exists|outputs: Seq<Self::Element>| #[trigger]
                        zips_to(g, self.elements(), other.elements(), outputs) && !Self::admits(
                            outputs,
                        )),
            },
    ;

    /// Folds the elements from the left: starting from `default`, `g` takes
    /// the accumulator and each element in turn. `g` has to accept every
    /// accumulator that the fold can reach, with the element that comes next.
    fn reduce<G>(&self, g: G, default: Self::Element) -> (r: Self::Element) where
        G: Fn(Self::Element, &Self::Element) -> Self::Element,

        requires
            forall|i: int, before: Self::Element|
                0 <= i < self.elements().len() && #[trigger] reduces_to(
                    g,
                    self.elements().take(i),
                    default,
                    before,
                ) ==> call_requires(g, (before, &self.elements()[i])),
        ensures
            reduces_to(g, self.elements(), default, r),
    ;
}

} // verus!
