//! Left folds, stated as relations.
//!
//! A step of a fold is a relation `step(before, item, after)`: "from the
//! accumulator `before`, taking in `item` may leave `after`". `folds_to` chains
//! such steps along a sequence, first item first.
use vstd::prelude::*;

verus! {

/// Folding `items` from `init`, one `step` per item in order, may end in `out`.
pub open spec fn folds_to<A, B>(
    step: spec_fn(B, A, B) -> bool,
    items: Seq<A>,
    init: B,
    out: B,
) -> bool
    decreases items.len(),
{
    if items.len() == 0 {
        out == init
    } else {
        exists|mid: B|
            folds_to(step, items.drop_last(), init, mid) && #[trigger] step(mid, items.last(), out)
    }
}

/// A fold that may end in `mid` goes on by one step.
pub proof fn lemma_fold_push<A, B>(
    step: spec_fn(B, A, B) -> bool,
    items: Seq<A>,
    init: B,
    mid: B,
    item: A,
    out: B,
)
    requires
        folds_to(step, items, init, mid),
        step(mid, item, out),
    ensures
        folds_to(step, items.push(item), init, out),
{
    let longer = items.push(item);
    assert(longer.drop_last() =~= items);
    assert(step(mid, longer.last(), out));
}

/// A fold over the first `k + 1` items is a fold over the first `k`, then one step.
pub proof fn lemma_fold_take<A, B>(
    step: spec_fn(B, A, B) -> bool,
    items: Seq<A>,
    k: int,
    init: B,
    mid: B,
    out: B,
)
    requires
        0 <= k < items.len(),
        folds_to(step, items.take(k), init, mid),
        step(mid, items[k], out),
    ensures
        folds_to(step, items.take(k + 1), init, out),
{
    lemma_fold_push(step, items.take(k), init, mid, items[k], out);
    assert(items.take(k).push(items[k]) =~= items.take(k + 1));
}

/// A fold along a weaker step relation admits every outcome of the stronger one.
pub proof fn lemma_fold_weaken<A, B>(
    strong: spec_fn(B, A, B) -> bool,
    weak: spec_fn(B, A, B) -> bool,
    items: Seq<A>,
    init: B,
    out: B,
)
    requires
        folds_to(strong, items, init, out),
        forall|before: B, k: int, after: B|
            0 <= k < items.len() && #[trigger] strong(before, items[k], after) ==> weak(
                before,
                items[k],
                after,
            ),
    ensures
        folds_to(weak, items, init, out),
    decreases items.len(),
{
    if items.len() > 0 {
        let shorter = items.drop_last();
        let mid = choose|mid: B|
            folds_to(strong, shorter, init, mid) && #[trigger] strong(mid, items.last(), out);
        lemma_fold_weaken(strong, weak, shorter, init, mid);
    }
}

/// Where every step has one outcome, the one that `next` gives, the fold
/// ends where `fold_left` with `next` ends.
pub proof fn lemma_fold_is_function<A, B>(
    step: spec_fn(B, A, B) -> bool,
    next: spec_fn(B, A) -> B,
    items: Seq<A>,
    init: B,
    out: B,
)
    requires
        folds_to(step, items, init, out),
        forall|before: B, k: int, after: B|
            0 <= k < items.len() && #[trigger] step(before, items[k], after) ==> after == next(
                before,
                items[k],
            ),
    ensures
        out == items.fold_left(init, next),
    decreases items.len(),
{
    if items.len() > 0 {
        let shorter = items.drop_last();
        let mid = choose|mid: B|
            folds_to(step, shorter, init, mid) && #[trigger] step(mid, items.last(), out);
        lemma_fold_is_function(step, next, shorter, init, mid);
    }
}

/// What holds at the start of a fold and is kept by every step holds at its
/// end.
pub proof fn lemma_fold_keeps<A, B>(
    step: spec_fn(B, A, B) -> bool,
    holds: spec_fn(B) -> bool,
    items: Seq<A>,
    init: B,
    out: B,
)
    requires
        folds_to(step, items, init, out),
        holds(init),
        forall|before: B, k: int, after: B|
            0 <= k < items.len() && holds(before) && #[trigger] step(before, items[k], after)
                ==> holds(after),
    ensures
        holds(out),
    decreases items.len(),
{
    if items.len() > 0 {
        let shorter = items.drop_last();
        let mid = choose|mid: B|
            folds_to(step, shorter, init, mid) && #[trigger] step(mid, items.last(), out);
        assert forall|before: B, k: int, after: B|
            0 <= k < shorter.len() && holds(before) && #[trigger] step(
                before,
                shorter[k],
                after,
            ) implies holds(after) by {
            assert(shorter[k] == items[k]);
        }
        lemma_fold_keeps(step, holds, shorter, init, mid);
        assert(items.last() == items[items.len() - 1]);
    }
}

} // verus!
