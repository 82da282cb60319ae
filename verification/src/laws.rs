//! What holds of every traversal, proved from the contracts of the library.
//!
//! The laws speak of the spec functions that those contracts use:
//! [`head_rest`] for a step of a cursor, [`folds`], [`stops`] and
//! [`stops_mut`] for a traversal without a cursor.
use vstd::prelude::*;
use crate::iterators::{head_rest, Iter, IterMut};
use crate::private::DynIterateeImpl;
use crate::visit::{folds, stops, stops_mut};
use crate::DynIterateeMut;

verus! {

/// What remains of `suffix` after a cursor over it has been advanced
/// `steps` times.
pub open spec fn advanced<T>(suffix: Seq<T>, steps: nat) -> Seq<T>
    decreases steps,
{
    if steps == 0 {
        suffix
    } else {
        advanced(head_rest(suffix).1, (steps - 1) as nat)
    }
}

/// What a loop computes that advances a cursor over `remaining` until it
/// yields nothing, and applies `f` to the accumulator and each item.
pub open spec fn by_hand<T, A>(f: spec_fn(A, T) -> A, acc: A, remaining: Seq<T>) -> A
    decreases remaining.len(),
{
    match head_rest(remaining).0 {
        Some(head) => by_hand(f, f(acc, head), head_rest(remaining).1),
        None => acc,
    }
}

/// Exhaustion: a cursor over `items` yields `items[0]`, `items[1]` and so on
/// to the last item, one for each advance, and nothing from then on,
/// however often it is advanced.
pub proof fn lemma_exhaustion<T>(items: Seq<T>, steps: nat)
    ensures
        steps <= items.len() ==> advanced(items, steps) == items.skip(steps as int),
        steps > items.len() ==> advanced(items, steps) == Seq::<T>::empty(),
        steps < items.len() ==> head_rest(advanced(items, steps)).0 == Some(items[steps as int]),
        steps >= items.len() ==> head_rest(advanced(items, steps)).0 is None,
    decreases steps,
{
    if steps == 0 {
        assert(items.skip(0) =~= items);
    } else {
        let rest = head_rest(items).1;
        lemma_exhaustion(rest, (steps - 1) as nat);
        if items.len() > 0 {
            if steps <= items.len() {
                assert(rest.skip(steps - 1) =~= items.skip(steps as int));
            }
            if steps < items.len() {
                assert(rest[steps - 1] == items[steps as int]);
            }
        } else {
            assert(rest =~= Seq::<T>::empty());
            if steps - 1 == 0 {
                assert(rest.skip(0) =~= rest);
            }
        }
    }
}

/// Positional disjointness: what an exclusive cursor has yet to yield once
/// it has lent out the item at `position` does not depend on what is
/// written through that reference. The next item it lends is the one that
/// stood behind `position` before.
pub proof fn lemma_positional_disjointness<T>(items: Seq<T>, position: int, written: T)
    requires
        0 <= position < items.len(),
    ensures
        items.update(position, written).skip(position + 1) == items.skip(position + 1),
        head_rest(items.update(position, written).skip(position + 1)) == head_rest(
            items.skip(position + 1),
        ),
        forall|i: int|
            0 <= i < items.len() && i != position ==> items.update(position, written)[i]
                == items[i],
{
    assert(items.update(position, written).skip(position + 1) =~= items.skip(position + 1));
}

/// Degrading preserves the position: a shared cursor that stands where an
/// exclusive cursor stands, over a target with the same items, yields next
/// what the exclusive cursor would lend next, and has the same items yet to
/// yield. This is what [`IterMut::fork_shared`] and the conversion of an
/// [`IterMut`] into an [`Iter`] return.
pub proof fn lemma_degrade_preserves_position<'a, 'b, I: ?Sized + DynIterateeMut>(
    exclusive: IterMut<'a, I>,
    shared: Iter<'b, I>,
)
    requires
        shared.position() == exclusive.position(),
        shared.target().items() == exclusive.target().items(),
    ensures
        shared.remaining() == exclusive.remaining(),
        head_rest(shared.remaining()) == head_rest(exclusive.remaining()),
        shared.wf() == exclusive.wf(),
{
}

/// A fold is the loop written by hand: where each visit is a function `f`
/// of the accumulator and the item, a traversal of `items` from `initial`
/// ends in what a loop over a cursor computes with `f`, which is the fold
/// of `items` from the left.
pub proof fn lemma_fold_by_hand<T, A, E>(
    step: spec_fn(A, T, Result<A, E>) -> bool,
    f: spec_fn(A, T) -> A,
    items: Seq<T>,
    initial: A,
    out: Result<A, E>,
)
    requires
        folds(step, items, initial, out),
        forall|acc: A, i: int, to: Result<A, E>|
            0 <= i < items.len() && #[trigger] step(acc, items[i], to) ==> to == Ok::<A, E>(
                f(acc, items[i]),
            ),
    ensures
        out == Ok::<A, E>(by_hand(f, initial, items)),
        by_hand(f, initial, items) == items.fold_left(initial, f),
    decreases items.len(),
{
    lemma_by_hand_is_fold_left(f, initial, items);
    if items.len() > 0 {
        let rest = items.skip(1);
        let first = choose|first: Result<A, E>| #[trigger]
            step(initial, items[0], first) && match first {
                Ok(next) => folds(step, rest, next, out),
                Err(e) => out == Err::<A, E>(e),
            };
        assert(first == Ok::<A, E>(f(initial, items[0])));
        assert forall|acc: A, i: int, to: Result<A, E>|
            0 <= i < rest.len() && #[trigger] step(acc, rest[i], to) implies to == Ok::<A, E>(
            f(acc, rest[i]),
        ) by {
            assert(rest[i] == items[i + 1]);
        }
        lemma_fold_by_hand(step, f, rest, f(initial, items[0]), out);
    }
}

/// The loop written by hand computes the fold from the left.
pub proof fn lemma_by_hand_is_fold_left<T, A>(f: spec_fn(A, T) -> A, acc: A, items: Seq<T>)
    ensures
        by_hand(f, acc, items) == items.fold_left(acc, f),
    decreases items.len(),
{
    items.lemma_fold_left_alt(acc, f);
    if items.len() > 0 {
        let rest = items.skip(1);
        assert(rest =~= items.subrange(1, items.len() as int));
        lemma_by_hand_is_fold_left(f, f(acc, items[0]), rest);
        rest.lemma_fold_left_alt(f(acc, items[0]), f);
    }
}

/// Short circuit of a fold: where the visit of the item at `k` cannot but
/// fail and no visit before it can, the traversal fails, with an error of
/// the visit of that item, and it is a traversal of the first `k + 1` items
/// alone: no item behind `k` is visited.
pub proof fn lemma_fold_short_circuit<T, A, E>(
    step: spec_fn(A, T, Result<A, E>) -> bool,
    items: Seq<T>,
    initial: A,
    out: Result<A, E>,
    k: int,
)
    requires
        folds(step, items, initial, out),
        0 <= k < items.len(),
        forall|acc: A, to: Result<A, E>| #[trigger] step(acc, items[k], to) ==> to is Err,
        forall|acc: A, i: int, to: Result<A, E>|
            0 <= i < k && #[trigger] step(acc, items[i], to) ==> to is Ok,
    ensures
        out is Err,
        exists|acc: A| #[trigger] step(acc, items[k], out),
        folds(step, items.take(k + 1), initial, out),
    decreases items.len(),
{
    let rest = items.skip(1);
    let first = choose|first: Result<A, E>| #[trigger]
        step(initial, items[0], first) && match first {
            Ok(next) => folds(step, rest, next, out),
            Err(e) => out == Err::<A, E>(e),
        };
    let prefix = items.take(k + 1);
    assert(prefix[0] == items[0]);
    if k == 0 {
        assert(first is Err);
        assert(step(initial, items[k], out));
    } else {
        assert(first is Ok);
        let next = first->Ok_0;
        assert(rest[k - 1] == items[k]);
        assert forall|acc: A, i: int, to: Result<A, E>|
            0 <= i < k - 1 && #[trigger] step(acc, rest[i], to) implies to is Ok by {
            assert(rest[i] == items[i + 1]);
        }
        lemma_fold_short_circuit(step, rest, next, out, k - 1);
        assert(prefix.skip(1) =~= rest.take(k));
    }
}

/// Short circuit: where the visit of the item at `k` cannot but fail and no
/// visit before it can, the traversal fails with an error of the visit of
/// that item, after exactly the `k` items before it were visited without
/// failure: it is a traversal of the first `k + 1` items alone.
pub proof fn lemma_short_circuit<T, E>(
    visit: spec_fn(T, Result<(), E>) -> bool,
    items: Seq<T>,
    out: Result<(), E>,
    k: int,
)
    requires
        stops(visit, items, out),
        0 <= k < items.len(),
        forall|to: Result<(), E>| #[trigger] visit(items[k], to) ==> to is Err,
        forall|i: int, to: Result<(), E>| 0 <= i < k && #[trigger] visit(items[i], to) ==> to is Ok,
    ensures
        out is Err,
        visit(items[k], out),
        forall|i: int| 0 <= i < k ==> visit(#[trigger] items[i], Ok(())),
        stops(visit, items.take(k + 1), out),
{
    match out {
        Ok(_) => {
            assert(visit(items[k], Ok(())));
        },
        Err(e) => {
            let j = choose|j: int|
                {
                    &&& 0 <= j < items.len()
                    &&& visit(#[trigger] items[j], Err(e))
                    &&& forall|i: int| 0 <= i < j ==> visit(#[trigger] items[i], Ok(()))
                };
            if j < k {
                assert(visit(items[j], Err(e)));
            }
            if k < j {
                assert(visit(items[k], Ok(())));
            }
            assert(j == k);
            let prefix = items.take(k + 1);
            assert(prefix[k] == items[k]);
            assert forall|i: int| 0 <= i < k implies visit(#[trigger] prefix[i], Ok(())) by {
                assert(prefix[i] == items[i]);
            }
        },
    }
}

/// [`lemma_short_circuit`] for a visitor that may write to the items: the
/// items behind `k` are, in addition, left as they were.
pub proof fn lemma_short_circuit_mut<T, E>(
    visit: spec_fn(T, T, Result<(), E>) -> bool,
    before: Seq<T>,
    after: Seq<T>,
    out: Result<(), E>,
    k: int,
)
    requires
        stops_mut(visit, before, after, out),
        0 <= k < before.len(),
        forall|item: T, to: Result<(), E>| #[trigger] visit(before[k], item, to) ==> to is Err,
        forall|i: int, item: T, to: Result<(), E>|
            0 <= i < k && #[trigger] visit(before[i], item, to) ==> to is Ok,
    ensures
        out is Err,
        visit(before[k], after[k], out),
        forall|i: int| 0 <= i < k ==> visit(#[trigger] before[i], after[i], Ok(())),
        after.skip(k + 1) == before.skip(k + 1),
{
    match out {
        Ok(_) => {
            assert(visit(before[k], after[k], Ok(())));
        },
        Err(e) => {
            let j = choose|j: int|
                {
                    &&& 0 <= j < before.len()
                    &&& visit(#[trigger] before[j], after[j], Err(e))
                    &&& forall|i: int| 0 <= i < j ==> visit(#[trigger] before[i], after[i], Ok(()))
                    &&& forall|i: int| j < i < before.len() ==> #[trigger] after[i] == before[i]
                };
            if j < k {
                assert(visit(before[j], after[j], Err(e)));
            }
            if k < j {
                assert(visit(before[k], after[k], Ok(())));
            }
            assert(j == k);
            assert(after.skip(k + 1) =~= before.skip(k + 1));
        },
    }
}

} // verus!
