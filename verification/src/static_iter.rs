//! Traversal of a whole sequence without a cursor.
use vstd::prelude::*;
use vstd::pervasive::unreached;
use core::convert::Infallible;
use crate::visit::{
    fold_mut_ready, fold_ready, folds, folds_mut, lemma_fold_mut_ready, lemma_fold_mut_ready_map,
    lemma_fold_ready, lemma_fold_ready_map, lemma_folds_map, lemma_folds_mut_map,
    lemma_folds_mut_stops, lemma_folds_mut_total, lemma_folds_stops, lemma_folds_total, stops,
    stops_mut, total, total_mut, unit,
};
use crate::Iteratee;

verus! {

/// Visits the items of a sequence in order, from the front, and stops at
/// the first visit that fails.
///
/// An implementation writes the three `try_fold` methods, by recursion over
/// its own cells. Every other method is written here, once, in terms of
/// them: a visitor has to be called by the one who holds it, so each of
/// these methods hands its visitor to the fold as the accumulator, and a
/// step of that fold calls the visitor and hands it on.
pub trait StaticIter<T>: Iteratee<T> {
    /// Hands each item, with the accumulator that the visit before it gave,
    /// to `on_fold`, and returns the last accumulator, or the first error.
    fn try_fold<A, E, F: FnMut(A, T) -> Result<A, E>>(self, initial: A, on_fold: F) -> (out:
        Result<A, E>) where Self: Sized
        requires
            fold_ready(
                |acc: A, item: T| call_requires(on_fold, (acc, item)),
                |acc: A, item: T, to: Result<A, E>| call_ensures(on_fold, (acc, item), to),
                self.items(),
                initial,
            ),
        ensures
            folds(
                |acc: A, item: T, to: Result<A, E>| call_ensures(on_fold, (acc, item), to),
                self.items(),
                initial,
                out,
            ),
    ;

    /// [`StaticIter::try_fold`] over references to the items.
    fn try_fold_ref<A, E, F: FnMut(A, &T) -> Result<A, E>>(&self, initial: A, on_fold: F) -> (out:
        Result<A, E>)
        requires
            fold_ready(
                |acc: A, item: T| call_requires(on_fold, (acc, &item)),
                |acc: A, item: T, to: Result<A, E>| call_ensures(on_fold, (acc, &item), to),
                self.items(),
                initial,
            ),
        ensures
            folds(
                |acc: A, item: T, to: Result<A, E>| call_ensures(on_fold, (acc, &item), to),
                self.items(),
                initial,
                out,
            ),
    ;

    /// [`StaticIter::try_fold`] over exclusive references to the items.
    /// What a visit writes to its item stays written, also where a later
    /// visit fails.
    fn try_fold_mut<A, E, F: FnMut(A, &mut T) -> Result<A, E>>(
        &mut self,
        initial: A,
        on_fold: F,
    ) -> (out: Result<A, E>)
        requires
            fold_mut_ready(
                |acc: A, item: T|
                    forall|m: &mut T| *m == item ==> #[trigger] call_requires(on_fold, (acc, m)),
                |acc: A, before: T, after: T, to: Result<A, E>|
                    exists|m: &mut T|
                        *m == before && *final(m) == after && #[trigger] call_ensures(
                            on_fold,
                            (acc, m),
                            to,
                        ),
                old(self).items(),
                initial,
            ),
        ensures
            folds_mut(
                |acc: A, before: T, after: T, to: Result<A, E>|
                    exists|m: &mut T|
                        *m == before && *final(m) == after && #[trigger] call_ensures(
                            on_fold,
                            (acc, m),
                            to,
                        ),
                old(self).items(),
                final(self).items(),
                initial,
                out,
            ),
            final(self).hint() == old(self).hint(),
    ;

    /// Hands each item to `on_each`, and stops at the first error, which it
    /// returns.
    fn try_for_each<E, F: FnMut(T) -> Result<(), E>>(self, on_each: F) -> (out: Result<
        (),
        E,
    >) where Self: Sized
        requires
            forall|i: int|
                0 <= i < self.items().len() ==> call_requires(
                    on_each,
                    (#[trigger] self.items()[i],),
                ),
        ensures
            stops(
                |item: T, to: Result<(), E>| call_ensures(on_each, (item,), to),
                self.items(),
                out,
            ),
    {
        let thread = |visitor: F, item: T| -> (to: Result<F, E>)
            requires
                call_requires(visitor, (item,)),
            ensures
                call_ensures(visitor, (item,), unit(to)),
                to matches Ok(same) ==> same == visitor,
            {
                let mut visitor = visitor;
                let done = visitor(item);
                assert(done matches Ok(u) ==> u == ());
                match done {
                    Ok(_) => Ok(visitor),
                    Err(e) => Err(e),
                }
            };
        let ghost items = self.items();
        let ghost ready = |acc: F, item: T| call_requires(thread, (acc, item));
        let ghost step = |acc: F, item: T, to: Result<F, E>| call_ensures(thread, (acc, item), to);
        let ghost keeps = |acc: F| acc == on_each;
        let ghost visit = |item: T, to: Result<(), E>| call_ensures(on_each, (item,), to);
        proof {
            lemma_fold_ready(ready, step, keeps, items, on_each);
        }
        let out = self.try_fold(on_each, thread);
        proof {
            lemma_folds_stops(step, keeps, visit, items, on_each, out);
        }
        match out {
            Ok(_) => Ok(()),
            Err(e) => Err(e),
        }
    }

    /// Hands a reference to each item to `on_each`, and stops at the first
    /// error, which it returns.
    fn try_for_each_ref<E, F: FnMut(&T) -> Result<(), E>>(&self, on_each: F) -> (out: Result<
        (),
        E,
    >)
        requires
            forall|i: int|
                0 <= i < self.items().len() ==> call_requires(
                    on_each,
                    (&#[trigger] self.items()[i],),
                ),
        ensures
            stops(
                |item: T, to: Result<(), E>| call_ensures(on_each, (&item,), to),
                self.items(),
                out,
            ),
    {
        let thread = |visitor: F, item: &T| -> (to: Result<F, E>)
            requires
                call_requires(visitor, (item,)),
            ensures
                call_ensures(visitor, (item,), unit(to)),
                to matches Ok(same) ==> same == visitor,
            {
                let mut visitor = visitor;
                let done = visitor(item);
                assert(done matches Ok(u) ==> u == ());
                match done {
                    Ok(_) => Ok(visitor),
                    Err(e) => Err(e),
                }
            };
        let ghost ready = |acc: F, item: T| call_requires(thread, (acc, &item));
        let ghost step = |acc: F, item: T, to: Result<F, E>| call_ensures(thread, (acc, &item), to);
        let ghost keeps = |acc: F| acc == on_each;
        let ghost visit = |item: T, to: Result<(), E>| call_ensures(on_each, (&item,), to);
        proof {
            lemma_fold_ready(ready, step, keeps, self.items(), on_each);
        }
        let out = self.try_fold_ref(on_each, thread);
        proof {
            lemma_folds_stops(step, keeps, visit, self.items(), on_each, out);
        }
        match out {
            Ok(_) => Ok(()),
            Err(e) => Err(e),
        }
    }

    /// Hands an exclusive reference to each item to `on_each`, and stops at
    /// the first error, which it returns. What a visit has written to its
    /// item stays written.
    fn try_for_each_mut<E, F: FnMut(&mut T) -> Result<(), E>>(&mut self, on_each: F) -> (out:
        Result<(), E>)
        requires
            forall|i: int|
                0 <= i < old(self).items().len() ==> forall|m: &mut T|
                    *m == #[trigger] old(self).items()[i] ==> #[trigger] call_requires(
                        on_each,
                        (m,),
                    ),
        ensures
            stops_mut(
                |before: T, after: T, to: Result<(), E>|
                    exists|m: &mut T|
                        *m == before && *final(m) == after && #[trigger] call_ensures(
                            on_each,
                            (m,),
                            to,
                        ),
                old(self).items(),
                final(self).items(),
                out,
            ),
            final(self).hint() == old(self).hint(),
    {
        let thread = |visitor: F, item: &mut T| -> (to: Result<F, E>)
            requires
                forall|m: &mut T| *m == *old(item) ==> #[trigger] call_requires(visitor, (m,)),
            ensures
                exists|m: &mut T|
                    *m == *old(item) && *final(m) == *final(item) && #[trigger] call_ensures(
                        visitor,
                        (m,),
                        unit(to),
                    ),
                to matches Ok(same) ==> same == visitor,
            {
                let mut visitor = visitor;
                let done = visitor(item);
                assert(done matches Ok(u) ==> u == ());
                match done {
                    Ok(_) => Ok(visitor),
                    Err(e) => Err(e),
                }
            };
        let ghost before = self.items();
        let ghost ready = |acc: F, item: T|
            forall|m: &mut T| *m == item ==> #[trigger] call_requires(thread, (acc, m));
        let ghost step = |acc: F, before: T, after: T, to: Result<F, E>|
            exists|m: &mut T|
                *m == before && *final(m) == after && #[trigger] call_ensures(thread, (acc, m), to);
        let ghost keeps = |acc: F| acc == on_each;
        let ghost visit = |before: T, after: T, to: Result<(), E>|
            exists|m: &mut T|
                *m == before && *final(m) == after && #[trigger] call_ensures(on_each, (m,), to);
        proof {
            lemma_fold_mut_ready(ready, step, keeps, before, on_each);
        }
        let out = self.try_fold_mut(on_each, thread);
        proof {
            lemma_folds_mut_stops(step, keeps, visit, before, self.items(), on_each, out);
        }
        match out {
            Ok(_) => Ok(()),
            Err(e) => Err(e),
        }
    }

    /// Hands each item to `on_each`.
    fn for_each<F: FnMut(T)>(self, on_each: F) where Self: Sized
        requires
            forall|i: int|
                0 <= i < self.items().len() ==> call_requires(
                    on_each,
                    (#[trigger] self.items()[i],),
                ),
        ensures
            forall|i: int|
                0 <= i < self.items().len() ==> call_ensures(
                    on_each,
                    (#[trigger] self.items()[i],),
                    (),
                ),
    {
        let thread = |visitor: F, item: T| -> (to: Result<F, Infallible>)
            requires
                call_requires(visitor, (item,)),
            ensures
                to matches Ok(same) && same == visitor,
                call_ensures(visitor, (item,), ()),
            {
                let mut visitor = visitor;
                let done = visitor(item);
                assert(done == ());
                Ok(visitor)
            };
        let ghost items = self.items();
        let ghost ready = |acc: F, item: T| call_requires(thread, (acc, item));
        let ghost step = |acc: F, item: T, to: Result<F, Infallible>|
            call_ensures(thread, (acc, item), to);
        let ghost keeps = |acc: F| acc == on_each;
        let ghost visit = |item: T, to: Result<(), Infallible>|
            to is Ok && call_ensures(on_each, (item,), ());
        proof {
            lemma_fold_ready(ready, step, keeps, items, on_each);
        }
        let out = self.try_fold(on_each, thread);
        proof {
            lemma_folds_stops(step, keeps, visit, items, on_each, out);
        }
    }

    /// Hands a reference to each item to `on_each`.
    fn for_each_ref<F: FnMut(&T)>(&self, on_each: F)
        requires
            forall|i: int|
                0 <= i < self.items().len() ==> call_requires(
                    on_each,
                    (&#[trigger] self.items()[i],),
                ),
        ensures
            forall|i: int|
                0 <= i < self.items().len() ==> call_ensures(
                    on_each,
                    (&#[trigger] self.items()[i],),
                    (),
                ),
    {
        let thread = |visitor: F, item: &T| -> (to: Result<F, Infallible>)
            requires
                call_requires(visitor, (item,)),
            ensures
                to matches Ok(same) && same == visitor,
                call_ensures(visitor, (item,), ()),
            {
                let mut visitor = visitor;
                let done = visitor(item);
                assert(done == ());
                Ok(visitor)
            };
        let ghost ready = |acc: F, item: T| call_requires(thread, (acc, &item));
        let ghost step = |acc: F, item: T, to: Result<F, Infallible>|
            call_ensures(thread, (acc, &item), to);
        let ghost keeps = |acc: F| acc == on_each;
        let ghost visit = |item: T, to: Result<(), Infallible>|
            to is Ok && call_ensures(on_each, (&item,), ());
        proof {
            lemma_fold_ready(ready, step, keeps, self.items(), on_each);
        }
        let out = self.try_fold_ref(on_each, thread);
        proof {
            lemma_folds_stops(step, keeps, visit, self.items(), on_each, out);
        }
    }

    /// Hands an exclusive reference to each item to `on_each`. Each item is
    /// left as its visit left it.
    fn for_each_mut<F: FnMut(&mut T)>(&mut self, on_each: F)
        requires
            forall|i: int|
                0 <= i < old(self).items().len() ==> forall|m: &mut T|
                    *m == #[trigger] old(self).items()[i] ==> #[trigger] call_requires(
                        on_each,
                        (m,),
                    ),
        ensures
            final(self).items().len() == old(self).items().len(),
            final(self).hint() == old(self).hint(),
            forall|i: int|
                0 <= i < old(self).items().len() ==> exists|m: &mut T|
                    *m == #[trigger] old(self).items()[i] && *final(m) == final(self).items()[i]
                        && #[trigger] call_ensures(on_each, (m,), ()),
    {
        let thread = |visitor: F, item: &mut T| -> (to: Result<F, Infallible>)
            requires
                forall|m: &mut T| *m == *old(item) ==> #[trigger] call_requires(visitor, (m,)),
            ensures
                to matches Ok(same) && same == visitor,
                exists|m: &mut T|
                    *m == *old(item) && *final(m) == *final(item) && #[trigger] call_ensures(
                        visitor,
                        (m,),
                        (),
                    ),
            {
                let mut visitor = visitor;
                let done = visitor(item);
                assert(done == ());
                Ok(visitor)
            };
        let ghost before = self.items();
        let ghost ready = |acc: F, item: T|
            forall|m: &mut T| *m == item ==> #[trigger] call_requires(thread, (acc, m));
        let ghost step = |acc: F, before: T, after: T, to: Result<F, Infallible>|
            exists|m: &mut T|
                *m == before && *final(m) == after && #[trigger] call_ensures(thread, (acc, m), to);
        let ghost keeps = |acc: F| acc == on_each;
        let ghost visit = |before: T, after: T, to: Result<(), Infallible>|
            to is Ok && exists|m: &mut T|
                *m == before && *final(m) == after && #[trigger] call_ensures(on_each, (m,), ());
        proof {
            lemma_fold_mut_ready(ready, step, keeps, before, on_each);
        }
        let out = self.try_fold_mut(on_each, thread);
        proof {
            lemma_folds_mut_stops(step, keeps, visit, before, self.items(), on_each, out);
        }
    }

    /// Hands each item, with the accumulator that the visit before it gave,
    /// to `on_fold`, and returns the last accumulator.
    fn fold<A, F: FnMut(A, T) -> A>(self, initial: A, on_fold: F) -> (out: A) where Self: Sized
        requires
            fold_ready(
                |acc: A, item: T| call_requires(on_fold, (acc, item)),
                total(|acc: A, item: T, next: A| call_ensures(on_fold, (acc, item), next)),
                self.items(),
                initial,
            ),
        ensures
            folds(
                total(|acc: A, item: T, next: A| call_ensures(on_fold, (acc, item), next)),
                self.items(),
                initial,
                Ok(out),
            ),
    {
        let thread = |state: (A, F), item: T| -> (to: Result<(A, F), Infallible>)
            requires
                call_requires(state.1, (state.0, item)),
            ensures
                to matches Ok(next) && next.1 == state.1 && call_ensures(
                    state.1,
                    (state.0, item),
                    next.0,
                ),
            {
                let (acc, visitor) = state;
                let mut visitor = visitor;
                let next = visitor(acc, item);
                Ok((next, visitor))
            };
        let ghost items = self.items();
        let ghost start = (initial, on_fold);
        let ghost ready = |state: (A, F), item: T| call_requires(thread, (state, item));
        let ghost step = |state: (A, F), item: T, to: Result<(A, F), Infallible>|
            call_ensures(thread, (state, item), to);
        let ghost ready_to = |acc: A, item: T| call_requires(on_fold, (acc, item));
        let ghost step_to = total(
            |acc: A, item: T, next: A| call_ensures(on_fold, (acc, item), next),
        );
        let ghost keeps = |state: (A, F)| state.1 == on_fold;
        let ghost to = |state: (A, F)| state.0;
        proof {
            lemma_fold_ready_map(ready, step, ready_to, step_to, keeps, to, items, start);
        }
        let out = self.try_fold((initial, on_fold), thread);
        proof {
            lemma_folds_map(step, step_to, keeps, to, items, start, out);
            lemma_folds_total(step, items, start, out);
        }
        match out {
            Ok((acc, _)) => acc,
            Err(_) => unreached(),
        }
    }

    /// [`StaticIter::fold`] over references to the items.
    fn fold_ref<A, F: FnMut(A, &T) -> A>(&self, initial: A, on_fold: F) -> (out: A)
        requires
            fold_ready(
                |acc: A, item: T| call_requires(on_fold, (acc, &item)),
                total(|acc: A, item: T, next: A| call_ensures(on_fold, (acc, &item), next)),
                self.items(),
                initial,
            ),
        ensures
            folds(
                total(|acc: A, item: T, next: A| call_ensures(on_fold, (acc, &item), next)),
                self.items(),
                initial,
                Ok(out),
            ),
    {
        let thread = |state: (A, F), item: &T| -> (to: Result<(A, F), Infallible>)
            requires
                call_requires(state.1, (state.0, item)),
            ensures
                to matches Ok(next) && next.1 == state.1 && call_ensures(
                    state.1,
                    (state.0, item),
                    next.0,
                ),
            {
                let (acc, visitor) = state;
                let mut visitor = visitor;
                let next = visitor(acc, item);
                Ok((next, visitor))
            };
        let ghost start = (initial, on_fold);
        let ghost ready = |state: (A, F), item: T| call_requires(thread, (state, &item));
        let ghost step = |state: (A, F), item: T, to: Result<(A, F), Infallible>|
            call_ensures(thread, (state, &item), to);
        let ghost ready_to = |acc: A, item: T| call_requires(on_fold, (acc, &item));
        let ghost step_to = total(
            |acc: A, item: T, next: A| call_ensures(on_fold, (acc, &item), next),
        );
        let ghost keeps = |state: (A, F)| state.1 == on_fold;
        let ghost to = |state: (A, F)| state.0;
        proof {
            lemma_fold_ready_map(ready, step, ready_to, step_to, keeps, to, self.items(), start);
        }
        let out = self.try_fold_ref((initial, on_fold), thread);
        proof {
            lemma_folds_map(step, step_to, keeps, to, self.items(), start, out);
            lemma_folds_total(step, self.items(), start, out);
        }
        match out {
            Ok((acc, _)) => acc,
            Err(_) => unreached(),
        }
    }

    /// [`StaticIter::fold`] over exclusive references to the items.
    fn fold_mut<A, F: FnMut(A, &mut T) -> A>(&mut self, initial: A, on_fold: F) -> (out: A)
        requires
            fold_mut_ready(
                |acc: A, item: T|
                    forall|m: &mut T| *m == item ==> #[trigger] call_requires(on_fold, (acc, m)),
                total_mut(
                    |acc: A, before: T, after: T, next: A|
                        exists|m: &mut T|
                            *m == before && *final(m) == after && #[trigger] call_ensures(
                                on_fold,
                                (acc, m),
                                next,
                            ),
                ),
                old(self).items(),
                initial,
            ),
        ensures
            folds_mut(
                total_mut(
                    |acc: A, before: T, after: T, next: A|
                        exists|m: &mut T|
                            *m == before && *final(m) == after && #[trigger] call_ensures(
                                on_fold,
                                (acc, m),
                                next,
                            ),
                ),
                old(self).items(),
                final(self).items(),
                initial,
                Ok(out),
            ),
            final(self).hint() == old(self).hint(),
    {
        let thread = |state: (A, F), item: &mut T| -> (to: Result<(A, F), Infallible>)
            requires
                forall|m: &mut T|
                    *m == *old(item) ==> #[trigger] call_requires(state.1, (state.0, m)),
            ensures
                to matches Ok(next) && next.1 == state.1,
                exists|m: &mut T|
                    *m == *old(item) && *final(m) == *final(item) && #[trigger] call_ensures(
                        state.1,
                        (state.0, m),
                        to->Ok_0.0,
                    ),
            {
                let (acc, visitor) = state;
                let mut visitor = visitor;
                assert(state.0 == acc && state.1 == visitor);
                let next = visitor(acc, item);
                let to = Ok((next, visitor));
                assert(to->Ok_0.0 == next);
                to
            };
        let ghost before = self.items();
        let ghost start = (initial, on_fold);
        let ghost ready = |state: (A, F), item: T|
            forall|m: &mut T| *m == item ==> #[trigger] call_requires(thread, (state, m));
        let ghost step = |state: (A, F), before: T, after: T, to: Result<(A, F), Infallible>|
            exists|m: &mut T|
                *m == before && *final(m) == after && #[trigger] call_ensures(
                    thread,
                    (state, m),
                    to,
                );
        let ghost ready_to = |acc: A, item: T|
            forall|m: &mut T| *m == item ==> #[trigger] call_requires(on_fold, (acc, m));
        let ghost step_to = total_mut(
            |acc: A, before: T, after: T, next: A|
                exists|m: &mut T|
                    *m == before && *final(m) == after && #[trigger] call_ensures(
                        on_fold,
                        (acc, m),
                        next,
                    ),
        );
        let ghost keeps = |state: (A, F)| state.1 == on_fold;
        let ghost to = |state: (A, F)| state.0;
        proof {
            lemma_fold_mut_ready_map(ready, step, ready_to, step_to, keeps, to, before, start);
        }
        let out = self.try_fold_mut((initial, on_fold), thread);
        proof {
            lemma_folds_mut_map(step, step_to, keeps, to, before, self.items(), start, out);
            lemma_folds_mut_total(step, before, self.items(), start, out);
        }
        match out {
            Ok((acc, _)) => acc,
            Err(_) => unreached(),
        }
    }
}

} // verus!
