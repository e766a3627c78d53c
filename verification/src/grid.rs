//! Grids: sequences of equally long sequences, and what stays the same when
//! rows and columns change places.
use vstd::prelude::*;
use vstd::seq_lib::{lemma_multiset_commutative, to_multiset_build};

verus! {

/// Whether `grid` has `outer` sequences of `inner` entries each.
pub open spec fn is_rectangle<T>(grid: Seq<Seq<T>>, outer: nat, inner: nat) -> bool {
    &&& grid.len() == outer
    &&& forall|i: int| 0 <= i < grid.len() ==> (#[trigger] grid[i]).len() == inner
}

/// The grid with rows and columns changed over: `inner` sequences of `outer`
/// entries, the one at place `j` holding what the sequences of `grid` have at
/// place `j`.
pub open spec fn turned<T>(grid: Seq<Seq<T>>, outer: nat, inner: nat) -> Seq<Seq<T>> {
    Seq::new(inner, |j: int| Seq::new(outer, |i: int| grid[i][j]))
}

/// Folding each sequence of a grid in turn, with `f`, threading the
/// accumulator through.
pub open spec fn fold_each<T, B>(f: spec_fn(B, T) -> B) -> spec_fn(B, Seq<T>) -> B {
    |acc: B, v: Seq<T>| v.fold_left(acc, f)
}

/// Folding a grid sequence by sequence is folding all its entries in a row.
pub proof fn lemma_fold_each_is_flat<T, B>(grid: Seq<Seq<T>>, f: spec_fn(B, T) -> B, init: B)
    ensures
        grid.fold_left(init, fold_each(f)) == grid.flatten().fold_left(init, f),
    decreases grid.len(),
{
    if grid.len() > 0 {
        let front = grid.drop_last();
        let last = grid.last();
        lemma_fold_each_is_flat(front, f, init);
        front.lemma_flatten_push(last);
        assert(front.push(last) =~= grid);
        let flat = grid.flatten();
        let k = front.flatten().len() as int;
        assert(flat.subrange(0, k) =~= front.flatten());
        assert(flat.subrange(k, flat.len() as int) =~= last);
        flat.lemma_fold_left_split(init, f, k);
    }
}

/// A grid without entries flattens to nothing.
proof fn lemma_flat_of_empty_sequences<T>(grid: Seq<Seq<T>>)
    requires
        forall|i: int| 0 <= i < grid.len() ==> (#[trigger] grid[i]).len() == 0,
    ensures
        grid.flatten() == Seq::<T>::empty(),
    decreases grid.len(),
{
    if grid.len() > 0 {
        let front = grid.drop_last();
        lemma_flat_of_empty_sequences(front);
        front.lemma_flatten_push(grid.last());
        assert(front.push(grid.last()) =~= grid);
    }
}

/// Where each sequence of `longer` is the one of `shorter` with one entry of
/// `extra` pushed, `longer` holds what `shorter` and `extra` hold together.
proof fn lemma_flat_of_pushed<T>(longer: Seq<Seq<T>>, shorter: Seq<Seq<T>>, extra: Seq<T>)
    requires
        longer.len() == shorter.len(),
        extra.len() == shorter.len(),
        forall|j: int| 0 <= j < longer.len() ==> #[trigger] longer[j] == shorter[j].push(extra[j]),
    ensures
        longer.flatten().to_multiset() == shorter.flatten().to_multiset().add(
            extra.to_multiset(),
        ),
    decreases longer.len(),
{
    broadcast use vstd::multiset::group_multiset_axioms;

    if longer.len() == 0 {
        assert(extra =~= Seq::<T>::empty());
        Seq::<T>::empty().to_multiset_ensures();
    } else {
        let l_front = longer.drop_last();
        let s_front = shorter.drop_last();
        let e_front = extra.drop_last();
        lemma_flat_of_pushed(l_front, s_front, e_front);
        l_front.lemma_flatten_push(longer.last());
        s_front.lemma_flatten_push(shorter.last());
        assert(l_front.push(longer.last()) =~= longer);
        assert(s_front.push(shorter.last()) =~= shorter);
        assert(e_front.push(extra.last()) =~= extra);
        let x = extra.last();
        lemma_multiset_commutative(l_front.flatten(), longer.last());
        lemma_multiset_commutative(s_front.flatten(), shorter.last());
        to_multiset_build(shorter.last(), x);
        to_multiset_build(e_front, x);
        let a = s_front.flatten().to_multiset();
        let b = shorter.last().to_multiset();
        let c = e_front.to_multiset();
        assert(shorter.flatten().to_multiset().add(extra.to_multiset()) =~= a.add(b).add(
            c.insert(x),
        ));
    }
}

/// A grid and the grid with rows and columns changed over hold the same
/// entries, each as often.
pub proof fn lemma_turned_holds_the_same<T>(grid: Seq<Seq<T>>, outer: nat, inner: nat)
    requires
        is_rectangle(grid, outer, inner),
    ensures
        turned(grid, outer, inner).flatten().to_multiset() == grid.flatten().to_multiset(),
    decreases outer,
{
    let over = turned(grid, outer, inner);
    if outer == 0 {
        lemma_flat_of_empty_sequences(over);
    } else {
        let front = grid.drop_last();
        let last = grid.last();
        let fewer = (outer - 1) as nat;
        lemma_turned_holds_the_same(front, fewer, inner);
        let over_front = turned(front, fewer, inner);
        assert forall|j: int| 0 <= j < over.len() implies #[trigger] over[j]
            == over_front[j].push(last[j]) by {
            assert(over[j] =~= over_front[j].push(last[j]));
        }
        lemma_flat_of_pushed(over, over_front, last);
        front.lemma_flatten_push(last);
        assert(front.push(last) =~= grid);
        lemma_multiset_commutative(front.flatten(), last);
    }
}

} // verus!
