//! What it means to visit the items of a sequence in order.
//!
//! A visitor is a function value, and all that is known of a function value
//! is which results it may give for which arguments. So a traversal is
//! stated as a relation: `step(acc, item, out)` holds where a visit of
//! `item` with the accumulator `acc` may end in `out`; for a visitor that
//! may write to the item, `step(acc, before, after, out)` names the item
//! before and after the visit. The predicates of this module say which
//! results a traversal of a whole sequence may then give, and on which
//! sequences every visit of it is allowed.
use vstd::prelude::*;
use core::convert::Infallible;

verus! {

/// A traversal of `items` that starts with the accumulator `acc` may end in
/// `out`: each visit hands its accumulator to the next, the first failure
/// ends the traversal and is its result, and the accumulator of the last
/// visit is the result where no visit fails.
pub open spec fn folds<T, A, E>(
    step: spec_fn(A, T, Result<A, E>) -> bool,
    items: Seq<T>,
    acc: A,
    out: Result<A, E>,
) -> bool
    decreases items.len(),
{
    if items.len() == 0 {
        out == Ok::<A, E>(acc)
    } else {
        exists|first: Result<A, E>| #[trigger]
            step(acc, items[0], first) && match first {
                Ok(next) => folds(step, items.skip(1), next, out),
                Err(e) => out == Err::<A, E>(e),
            }
    }
}

/// Every visit that a traversal of `items` from `acc` can come to is
/// allowed: the first one is, and so is every traversal of the rest from an
/// accumulator that the first visit may give.
pub open spec fn fold_ready<T, A, E>(
    ready: spec_fn(A, T) -> bool,
    step: spec_fn(A, T, Result<A, E>) -> bool,
    items: Seq<T>,
    acc: A,
) -> bool
    decreases items.len(),
{
    items.len() > 0 ==> {
        &&& ready(acc, items[0])
        &&& forall|next: A| #[trigger]
            step(acc, items[0], Ok(next)) ==> fold_ready(ready, step, items.skip(1), next)
    }
}

/// [`folds`] for a visitor that may write to the items: `before` holds the
/// items as the traversal finds them, `after` as it leaves them. An item
/// behind the first failure is left as it was.
pub open spec fn folds_mut<T, A, E>(
    step: spec_fn(A, T, T, Result<A, E>) -> bool,
    before: Seq<T>,
    after: Seq<T>,
    acc: A,
    out: Result<A, E>,
) -> bool
    decreases before.len(),
{
    &&& after.len() == before.len()
    &&& if before.len() == 0 {
        out == Ok::<A, E>(acc)
    } else {
        exists|first: Result<A, E>| #[trigger]
            step(acc, before[0], after[0], first) && match first {
                Ok(next) => folds_mut(step, before.skip(1), after.skip(1), next, out),
                Err(e) => out == Err::<A, E>(e) && after.skip(1) == before.skip(1),
            }
    }
}

/// [`fold_ready`] for a visitor that may write to the items.
pub open spec fn fold_mut_ready<T, A, E>(
    ready: spec_fn(A, T) -> bool,
    step: spec_fn(A, T, T, Result<A, E>) -> bool,
    before: Seq<T>,
    acc: A,
) -> bool
    decreases before.len(),
{
    before.len() > 0 ==> {
        &&& ready(acc, before[0])
        &&& forall|after: T, next: A| #[trigger]
            step(acc, before[0], after, Ok(next)) ==> fold_mut_ready(
                ready,
                step,
                before.skip(1),
                next,
            )
    }
}

/// A traversal without an accumulator may end in `out`: either every item
/// was visited and none failed, or the visit of one item failed with the
/// error in `out` after every item before it was visited without failure.
pub open spec fn stops<T, E>(
    visit: spec_fn(T, Result<(), E>) -> bool,
    items: Seq<T>,
    out: Result<(), E>,
) -> bool {
    match out {
        Ok(_) => forall|i: int| 0 <= i < items.len() ==> visit(#[trigger] items[i], Ok(())),
        Err(e) => exists|k: int|
            {
                &&& 0 <= k < items.len()
                &&& visit(#[trigger] items[k], Err(e))
                &&& forall|i: int| 0 <= i < k ==> visit(#[trigger] items[i], Ok(()))
            },
    }
}

/// [`stops`] for a visitor that may write to the items. An item behind the
/// one whose visit failed is left as it was.
pub open spec fn stops_mut<T, E>(
    visit: spec_fn(T, T, Result<(), E>) -> bool,
    before: Seq<T>,
    after: Seq<T>,
    out: Result<(), E>,
) -> bool {
    &&& after.len() == before.len()
    &&& match out {
        Ok(_) => forall|i: int|
            0 <= i < before.len() ==> visit(#[trigger] before[i], after[i], Ok(())),
        Err(e) => exists|k: int|
            {
                &&& 0 <= k < before.len()
                &&& visit(#[trigger] before[k], after[k], Err(e))
                &&& forall|i: int| 0 <= i < k ==> visit(#[trigger] before[i], after[i], Ok(()))
                &&& forall|i: int| k < i < before.len() ==> #[trigger] after[i] == before[i]
            },
    }
}

/// The step of a visitor that cannot fail, as a step that never fails.
pub open spec fn total<T, A>(step: spec_fn(A, T, A) -> bool) -> spec_fn(
    A,
    T,
    Result<A, Infallible>,
) -> bool {
    |acc: A, item: T, out: Result<A, Infallible>| out matches Ok(next) && step(acc, item, next)
}

/// [`total`] for a visitor that may write to the items.
pub open spec fn total_mut<T, A>(step: spec_fn(A, T, T, A) -> bool) -> spec_fn(
    A,
    T,
    T,
    Result<A, Infallible>,
) -> bool {
    |acc: A, before: T, after: T, out: Result<A, Infallible>|
        out matches Ok(next) && step(acc, before, after, next)
}

/// A result without its accumulator.
pub open spec fn unit<A, E>(out: Result<A, E>) -> Result<(), E> {
    match out {
        Ok(_) => Ok(()),
        Err(e) => Err(e),
    }
}

/// A result with `to` applied to its accumulator.
pub open spec fn map_ok<A, B, E>(to: spec_fn(A) -> B, out: Result<A, E>) -> Result<B, E> {
    match out {
        Ok(acc) => Ok(to(acc)),
        Err(e) => Err(e),
    }
}

/// Every visit of a traversal is allowed where the accumulators keep to a
/// condition under which every item is accepted.
pub proof fn lemma_fold_ready<T, A, E>(
    ready: spec_fn(A, T) -> bool,
    step: spec_fn(A, T, Result<A, E>) -> bool,
    keeps: spec_fn(A) -> bool,
    items: Seq<T>,
    acc: A,
)
    requires
        keeps(acc),
        forall|a: A, i: int| keeps(a) && 0 <= i < items.len() ==> #[trigger] ready(a, items[i]),
        forall|a: A, i: int, next: A|
            keeps(a) && 0 <= i < items.len() && #[trigger] step(a, items[i], Ok(next)) ==> keeps(
                next,
            ),
    ensures
        fold_ready(ready, step, items, acc),
    decreases items.len(),
{
    if items.len() > 0 {
        let rest = items.skip(1);
        assert forall|a: A, i: int| keeps(a) && 0 <= i < rest.len() implies #[trigger] ready(
            a,
            rest[i],
        ) by {
            assert(rest[i] == items[i + 1]);
        }
        assert forall|a: A, i: int, next: A|
            keeps(a) && 0 <= i < rest.len() && #[trigger] step(a, rest[i], Ok(next)) implies keeps(
            next,
        ) by {
            assert(rest[i] == items[i + 1]);
        }
        assert forall|next: A| #[trigger] step(acc, items[0], Ok(next)) implies fold_ready(
            ready,
            step,
            rest,
            next,
        ) by {
            lemma_fold_ready(ready, step, keeps, rest, next);
        }
    }
}

/// [`lemma_fold_ready`] for a visitor that may write to the items.
pub proof fn lemma_fold_mut_ready<T, A, E>(
    ready: spec_fn(A, T) -> bool,
    step: spec_fn(A, T, T, Result<A, E>) -> bool,
    keeps: spec_fn(A) -> bool,
    before: Seq<T>,
    acc: A,
)
    requires
        keeps(acc),
        forall|a: A, i: int| keeps(a) && 0 <= i < before.len() ==> #[trigger] ready(a, before[i]),
        forall|a: A, i: int, after: T, next: A|
            keeps(a) && 0 <= i < before.len() && #[trigger] step(a, before[i], after, Ok(next))
                ==> keeps(next),
    ensures
        fold_mut_ready(ready, step, before, acc),
    decreases before.len(),
{
    if before.len() > 0 {
        let rest = before.skip(1);
        assert forall|a: A, i: int| keeps(a) && 0 <= i < rest.len() implies #[trigger] ready(
            a,
            rest[i],
        ) by {
            assert(rest[i] == before[i + 1]);
        }
        assert forall|a: A, i: int, after: T, next: A|
            keeps(a) && 0 <= i < rest.len() && #[trigger] step(
                a,
                rest[i],
                after,
                Ok(next),
            ) implies keeps(next) by {
            assert(rest[i] == before[i + 1]);
        }
        assert forall|after: T, next: A| #[trigger]
            step(acc, before[0], after, Ok(next)) implies fold_mut_ready(
            ready,
            step,
            rest,
            next,
        ) by {
            lemma_fold_mut_ready(ready, step, keeps, rest, next);
        }
    }
}

/// A traversal with an accumulator, seen without it: where each step of
/// it is a visit, the traversal stops as [`stops`] says.
pub proof fn lemma_folds_stops<T, A, E>(
    step: spec_fn(A, T, Result<A, E>) -> bool,
    keeps: spec_fn(A) -> bool,
    visit: spec_fn(T, Result<(), E>) -> bool,
    items: Seq<T>,
    acc: A,
    out: Result<A, E>,
)
    requires
        folds(step, items, acc, out),
        keeps(acc),
        forall|a: A, i: int, to: Result<A, E>|
            keeps(a) && 0 <= i < items.len() && #[trigger] step(a, items[i], to) ==> visit(
                items[i],
                unit(to),
            ) && (to matches Ok(next) ==> keeps(next)),
    ensures
        stops(visit, items, unit(out)),
    decreases items.len(),
{
    if items.len() > 0 {
        let rest = items.skip(1);
        let first = choose|first: Result<A, E>| #[trigger]
            step(acc, items[0], first) && match first {
                Ok(next) => folds(step, rest, next, out),
                Err(e) => out == Err::<A, E>(e),
            };
        assert(visit(items[0], unit(first)));
        match first {
            Ok(next) => {
                assert forall|a: A, i: int, to: Result<A, E>|
                    keeps(a) && 0 <= i < rest.len() && #[trigger] step(a, rest[i], to) implies visit(
                    rest[i],
                    unit(to),
                ) && (to matches Ok(n) ==> keeps(n)) by {
                    assert(rest[i] == items[i + 1]);
                }
                lemma_folds_stops(step, keeps, visit, rest, next, out);
                match unit(out) {
                    Ok(_) => {
                        assert forall|i: int| 0 <= i < items.len() implies visit(
                            #[trigger] items[i],
                            Ok(()),
                        ) by {
                            if i > 0 {
                                assert(items[i] == rest[i - 1]);
                            }
                        }
                    },
                    Err(e) => {
                        let k = choose|k: int|
                            {
                                &&& 0 <= k < rest.len()
                                &&& visit(#[trigger] rest[k], Err(e))
                                &&& forall|i: int| 0 <= i < k ==> visit(#[trigger] rest[i], Ok(()))
                            };
                        assert(items[k + 1] == rest[k]);
                        assert forall|i: int| 0 <= i < k + 1 implies visit(
                            #[trigger] items[i],
                            Ok(()),
                        ) by {
                            if i > 0 {
                                assert(items[i] == rest[i - 1]);
                            }
                        }
                    },
                }
            },
            Err(e) => {
                assert(visit(items[0], Err(e)));
            },
        }
    }
}

/// [`lemma_folds_stops`] for a visitor that may write to the items.
pub proof fn lemma_folds_mut_stops<T, A, E>(
    step: spec_fn(A, T, T, Result<A, E>) -> bool,
    keeps: spec_fn(A) -> bool,
    visit: spec_fn(T, T, Result<(), E>) -> bool,
    before: Seq<T>,
    after: Seq<T>,
    acc: A,
    out: Result<A, E>,
)
    requires
        folds_mut(step, before, after, acc, out),
        keeps(acc),
        forall|a: A, i: int, item: T, to: Result<A, E>|
            keeps(a) && 0 <= i < before.len() && #[trigger] step(a, before[i], item, to) ==> visit(
                before[i],
                item,
                unit(to),
            ) && (to matches Ok(next) ==> keeps(next)),
    ensures
        stops_mut(visit, before, after, unit(out)),
    decreases before.len(),
{
    if before.len() > 0 {
        let rest = before.skip(1);
        let rest_after = after.skip(1);
        let first = choose|first: Result<A, E>| #[trigger]
            step(acc, before[0], after[0], first) && match first {
                Ok(next) => folds_mut(step, rest, rest_after, next, out),
                Err(e) => out == Err::<A, E>(e) && rest_after == rest,
            };
        assert(visit(before[0], after[0], unit(first)));
        match first {
            Ok(next) => {
                assert forall|a: A, i: int, item: T, to: Result<A, E>|
                    keeps(a) && 0 <= i < rest.len() && #[trigger] step(
                        a,
                        rest[i],
                        item,
                        to,
                    ) implies visit(rest[i], item, unit(to)) && (to matches Ok(n) ==> keeps(n)) by {
                    assert(rest[i] == before[i + 1]);
                }
                lemma_folds_mut_stops(step, keeps, visit, rest, rest_after, next, out);
                match unit(out) {
                    Ok(_) => {
                        assert forall|i: int| 0 <= i < before.len() implies visit(
                            #[trigger] before[i],
                            after[i],
                            Ok(()),
                        ) by {
                            if i > 0 {
                                assert(before[i] == rest[i - 1]);
                                assert(after[i] == rest_after[i - 1]);
                            }
                        }
                    },
                    Err(e) => {
                        let k = choose|k: int|
                            {
                                &&& 0 <= k < rest.len()
                                &&& visit(#[trigger] rest[k], rest_after[k], Err(e))
                                &&& forall|i: int|
                                    0 <= i < k ==> visit(#[trigger] rest[i], rest_after[i], Ok(()))
                                &&& forall|i: int|
                                    k < i < rest.len() ==> #[trigger] rest_after[i] == rest[i]
                            };
                        assert(before[k + 1] == rest[k]);
                        assert(after[k + 1] == rest_after[k]);
                        assert forall|i: int| 0 <= i < k + 1 implies visit(
                            #[trigger] before[i],
                            after[i],
                            Ok(()),
                        ) by {
                            if i > 0 {
                                assert(before[i] == rest[i - 1]);
                                assert(after[i] == rest_after[i - 1]);
                            }
                        }
                        assert forall|i: int| k + 1 < i < before.len() implies #[trigger] after[i]
                            == before[i] by {
                            assert(before[i] == rest[i - 1]);
                            assert(after[i] == rest_after[i - 1]);
                        }
                    },
                }
            },
            Err(e) => {
                assert(visit(before[0], after[0], Err(e)));
                assert forall|i: int| 0 < i < before.len() implies #[trigger] after[i]
                    == before[i] by {
                    assert(before[i] == rest[i - 1]);
                    assert(after[i] == rest_after[i - 1]);
                }
            },
        }
    }
}

/// A traversal whose accumulator carries more than is asked for: every
/// visit of it is allowed where every visit of the traversal that it stands
/// for is, with `to` taking each accumulator to the one it stands for.
pub proof fn lemma_fold_ready_map<T, A, B, E>(
    ready: spec_fn(A, T) -> bool,
    step: spec_fn(A, T, Result<A, E>) -> bool,
    ready_to: spec_fn(B, T) -> bool,
    step_to: spec_fn(B, T, Result<B, E>) -> bool,
    keeps: spec_fn(A) -> bool,
    to: spec_fn(A) -> B,
    items: Seq<T>,
    acc: A,
)
    requires
        fold_ready(ready_to, step_to, items, to(acc)),
        keeps(acc),
        forall|a: A, i: int|
            keeps(a) && 0 <= i < items.len() && ready_to(to(a), items[i]) ==> #[trigger] ready(
                a,
                items[i],
            ),
        forall|a: A, i: int, next: A|
            keeps(a) && 0 <= i < items.len() && #[trigger] step(a, items[i], Ok(next)) ==> keeps(
                next,
            ) && step_to(to(a), items[i], Ok(to(next))),
    ensures
        fold_ready(ready, step, items, acc),
    decreases items.len(),
{
    if items.len() > 0 {
        let rest = items.skip(1);
        assert forall|a: A, i: int|
            keeps(a) && 0 <= i < rest.len() && ready_to(to(a), rest[i]) implies #[trigger] ready(
            a,
            rest[i],
        ) by {
            assert(rest[i] == items[i + 1]);
        }
        assert forall|a: A, i: int, next: A|
            keeps(a) && 0 <= i < rest.len() && #[trigger] step(a, rest[i], Ok(next)) implies keeps(
            next,
        ) && step_to(to(a), rest[i], Ok(to(next))) by {
            assert(rest[i] == items[i + 1]);
        }
        assert forall|next: A| #[trigger] step(acc, items[0], Ok(next)) implies fold_ready(
            ready,
            step,
            rest,
            next,
        ) by {
            assert(step_to(to(acc), items[0], Ok(to(next))));
            lemma_fold_ready_map(ready, step, ready_to, step_to, keeps, to, rest, next);
        }
    }
}

/// [`lemma_fold_ready_map`] for a visitor that may write to the items.
pub proof fn lemma_fold_mut_ready_map<T, A, B, E>(
    ready: spec_fn(A, T) -> bool,
    step: spec_fn(A, T, T, Result<A, E>) -> bool,
    ready_to: spec_fn(B, T) -> bool,
    step_to: spec_fn(B, T, T, Result<B, E>) -> bool,
    keeps: spec_fn(A) -> bool,
    to: spec_fn(A) -> B,
    before: Seq<T>,
    acc: A,
)
    requires
        fold_mut_ready(ready_to, step_to, before, to(acc)),
        keeps(acc),
        forall|a: A, i: int|
            keeps(a) && 0 <= i < before.len() && ready_to(to(a), before[i]) ==> #[trigger] ready(
                a,
                before[i],
            ),
        forall|a: A, i: int, after: T, next: A|
            keeps(a) && 0 <= i < before.len() && #[trigger] step(a, before[i], after, Ok(next))
                ==> keeps(next) && step_to(to(a), before[i], after, Ok(to(next))),
    ensures
        fold_mut_ready(ready, step, before, acc),
    decreases before.len(),
{
    if before.len() > 0 {
        let rest = before.skip(1);
        assert forall|a: A, i: int|
            keeps(a) && 0 <= i < rest.len() && ready_to(to(a), rest[i]) implies #[trigger] ready(
            a,
            rest[i],
        ) by {
            assert(rest[i] == before[i + 1]);
        }
        assert forall|a: A, i: int, after: T, next: A|
            keeps(a) && 0 <= i < rest.len() && #[trigger] step(
                a,
                rest[i],
                after,
                Ok(next),
            ) implies keeps(next) && step_to(to(a), rest[i], after, Ok(to(next))) by {
            assert(rest[i] == before[i + 1]);
        }
        assert forall|after: T, next: A| #[trigger]
            step(acc, before[0], after, Ok(next)) implies fold_mut_ready(
            ready,
            step,
            rest,
            next,
        ) by {
            assert(step_to(to(acc), before[0], after, Ok(to(next))));
            lemma_fold_mut_ready_map(ready, step, ready_to, step_to, keeps, to, rest, next);
        }
    }
}

/// A traversal whose accumulator carries more than is asked for ends as
/// the traversal that it stands for may end.
pub proof fn lemma_folds_map<T, A, B, E>(
    step: spec_fn(A, T, Result<A, E>) -> bool,
    step_to: spec_fn(B, T, Result<B, E>) -> bool,
    keeps: spec_fn(A) -> bool,
    to: spec_fn(A) -> B,
    items: Seq<T>,
    acc: A,
    out: Result<A, E>,
)
    requires
        folds(step, items, acc, out),
        keeps(acc),
        forall|a: A, i: int, first: Result<A, E>|
            keeps(a) && 0 <= i < items.len() && #[trigger] step(a, items[i], first) ==> step_to(
                to(a),
                items[i],
                map_ok(to, first),
            ) && (first matches Ok(next) ==> keeps(next)),
    ensures
        folds(step_to, items, to(acc), map_ok(to, out)),
    decreases items.len(),
{
    if items.len() > 0 {
        let rest = items.skip(1);
        let first = choose|first: Result<A, E>| #[trigger]
            step(acc, items[0], first) && match first {
                Ok(next) => folds(step, rest, next, out),
                Err(e) => out == Err::<A, E>(e),
            };
        assert(step_to(to(acc), items[0], map_ok(to, first)));
        if let Ok(next) = first {
            assert forall|a: A, i: int, first: Result<A, E>|
                keeps(a) && 0 <= i < rest.len() && #[trigger] step(a, rest[i], first) implies step_to(
                to(a),
                rest[i],
                map_ok(to, first),
            ) && (first matches Ok(n) ==> keeps(n)) by {
                assert(rest[i] == items[i + 1]);
            }
            lemma_folds_map(step, step_to, keeps, to, rest, next, out);
        }
    }
}

/// [`lemma_folds_map`] for a visitor that may write to the items.
pub proof fn lemma_folds_mut_map<T, A, B, E>(
    step: spec_fn(A, T, T, Result<A, E>) -> bool,
    step_to: spec_fn(B, T, T, Result<B, E>) -> bool,
    keeps: spec_fn(A) -> bool,
    to: spec_fn(A) -> B,
    before: Seq<T>,
    after: Seq<T>,
    acc: A,
    out: Result<A, E>,
)
    requires
        folds_mut(step, before, after, acc, out),
        keeps(acc),
        forall|a: A, i: int, item: T, first: Result<A, E>|
            keeps(a) && 0 <= i < before.len() && #[trigger] step(a, before[i], item, first)
                ==> step_to(to(a), before[i], item, map_ok(to, first)) && (first matches Ok(next)
                ==> keeps(next)),
    ensures
        folds_mut(step_to, before, after, to(acc), map_ok(to, out)),
    decreases before.len(),
{
    if before.len() > 0 {
        let rest = before.skip(1);
        let rest_after = after.skip(1);
        let first = choose|first: Result<A, E>| #[trigger]
            step(acc, before[0], after[0], first) && match first {
                Ok(next) => folds_mut(step, rest, rest_after, next, out),
                Err(e) => out == Err::<A, E>(e) && rest_after == rest,
            };
        assert(step_to(to(acc), before[0], after[0], map_ok(to, first)));
        if let Ok(next) = first {
            assert forall|a: A, i: int, item: T, first: Result<A, E>|
                keeps(a) && 0 <= i < rest.len() && #[trigger] step(
                    a,
                    rest[i],
                    item,
                    first,
                ) implies step_to(to(a), rest[i], item, map_ok(to, first)) && (first matches Ok(n)
                ==> keeps(n)) by {
                assert(rest[i] == before[i + 1]);
            }
            lemma_folds_mut_map(step, step_to, keeps, to, rest, rest_after, next, out);
        }
    }
}

/// A traversal none of whose visits can fail does not fail.
pub proof fn lemma_folds_total<T, A, E>(
    step: spec_fn(A, T, Result<A, E>) -> bool,
    items: Seq<T>,
    acc: A,
    out: Result<A, E>,
)
    requires
        folds(step, items, acc, out),
        forall|a: A, i: int, first: Result<A, E>|
            0 <= i < items.len() && #[trigger] step(a, items[i], first) ==> first is Ok,
    ensures
        out is Ok,
    decreases items.len(),
{
    if items.len() > 0 {
        let rest = items.skip(1);
        let first = choose|first: Result<A, E>| #[trigger]
            step(acc, items[0], first) && match first {
                Ok(next) => folds(step, rest, next, out),
                Err(e) => out == Err::<A, E>(e),
            };
        if let Ok(next) = first {
            assert forall|a: A, i: int, first: Result<A, E>|
                0 <= i < rest.len() && #[trigger] step(a, rest[i], first) implies first is Ok by {
                assert(rest[i] == items[i + 1]);
            }
            lemma_folds_total(step, rest, next, out);
        }
    }
}

/// [`lemma_folds_total`] for a visitor that may write to the items.
pub proof fn lemma_folds_mut_total<T, A, E>(
    step: spec_fn(A, T, T, Result<A, E>) -> bool,
    before: Seq<T>,
    after: Seq<T>,
    acc: A,
    out: Result<A, E>,
)
    requires
        folds_mut(step, before, after, acc, out),
        forall|a: A, i: int, item: T, first: Result<A, E>|
            0 <= i < before.len() && #[trigger] step(a, before[i], item, first) ==> first is Ok,
    ensures
        out is Ok,
    decreases before.len(),
{
    if before.len() > 0 {
        let rest = before.skip(1);
        let rest_after = after.skip(1);
        let first = choose|first: Result<A, E>| #[trigger]
            step(acc, before[0], after[0], first) && match first {
                Ok(next) => folds_mut(step, rest, rest_after, next, out),
                Err(e) => out == Err::<A, E>(e) && rest_after == rest,
            };
        if let Ok(next) = first {
            assert forall|a: A, i: int, item: T, first: Result<A, E>|
                0 <= i < rest.len() && #[trigger] step(a, rest[i], item, first) implies first
                is Ok by {
                assert(rest[i] == before[i + 1]);
            }
            lemma_folds_mut_total(step, rest, rest_after, next, out);
        }
    }
}

} // verus!
