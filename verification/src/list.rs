//! The cons list: a cell type, an end type, and the trait that builds a
//! list out of them.
use vstd::prelude::*;
use crate::iterators::{Iter, IterMut};
use crate::{DynIter, DynIterMut, Iteratee, IterateeMut, StaticIter};

verus! {

/// A cell of a cons list: one item and the rest of the list.
///
/// The rest is another cell or [`End`], so each length of list is a type of
/// its own. Start from [`End`] and build with [`Cons`].
pub struct List<T, R> {
    /// The first item of the list.
    pub head: T,
    /// The rest of the list.
    pub rest: R,
}

/// The empty rest that ends a [`List`].
pub struct End;

/// Builds a list by putting an item at its front or at its back.
pub trait Cons<T>: Iteratee<T> + Sized {
    /// The list with one more item at the front.
    type Cons: Iteratee<T>;

    /// The list with one more item at the back.
    type RCons: Iteratee<T>;

    /// Puts `head` in front of the list.
    fn cons(self, head: T) -> (list: Self::Cons)
        ensures
            list.items() == seq![head] + self.items(),
            list.hint() == hint_succ(self.hint()),
    ;

    /// Puts `tail` behind the last item of the list.
    fn r_cons(self, tail: T) -> (list: Self::RCons)
        ensures
            list.items() == self.items().push(tail),
            list.hint() == hint_succ(self.hint()),
    ;
}

/// The hint of a list with one item more than a list whose hint is `rest`.
pub open spec fn hint_succ(rest: (usize, Option<usize>)) -> (usize, Option<usize>) {
    (
        if rest.0 < usize::MAX {
            (rest.0 + 1) as usize
        } else {
            rest.0
        },
        match rest.1 {
            Some(upper) => if upper < usize::MAX {
                Some((upper + 1) as usize)
            } else {
                None
            },
            None => None,
        },
    )
}

impl<T> Iteratee<T> for End {
    open spec fn items(&self) -> Seq<T> {
        Seq::empty()
    }

    open spec fn hint(&self) -> (usize, Option<usize>) {
        (0, Some(0))
    }

    fn head_at(&self, depth: usize) -> (head: Option<&T>) {
        None
    }

    fn size_hint(&self) -> (hint: (usize, Option<usize>)) {
        (0, Some(0))
    }
}

impl<T> IterateeMut<T> for End {
    fn head_at_mut(&mut self, depth: usize) -> (head: Option<&mut T>) {
        None
    }
}

impl<T, R: Iteratee<T>> Iteratee<T> for List<T, R> {
    open spec fn items(&self) -> Seq<T> {
        seq![self.head] + self.rest.items()
    }

    open spec fn hint(&self) -> (usize, Option<usize>) {
        hint_succ(self.rest.hint())
    }

    fn head_at(&self, depth: usize) -> (head: Option<&T>) {
        if depth == 0 {
            Some(&self.head)
        } else {
            self.rest.head_at(depth - 1)
        }
    }

    fn size_hint(&self) -> (hint: (usize, Option<usize>)) {
        let (lower, upper) = self.rest.size_hint();
        let lower = if lower < usize::MAX {
            lower + 1
        } else {
            lower
        };
        let upper = match upper {
            Some(upper) => if upper < usize::MAX {
                Some(upper + 1)
            } else {
                None
            },
            None => None,
        };
        (lower, upper)
    }
}

impl<T, R: IterateeMut<T>> IterateeMut<T> for List<T, R> {
    fn head_at_mut(&mut self, depth: usize) -> (head: Option<&mut T>) {
        if depth == 0 {
            Some(&mut self.head)
        } else {
            self.rest.head_at_mut(depth - 1)
        }
    }
}

impl<T> Cons<T> for End {
    type Cons = List<T, End>;

    type RCons = List<T, End>;

    fn cons(self, head: T) -> (list: List<T, End>) {
        List { head, rest: self }
    }

    fn r_cons(self, tail: T) -> (list: List<T, End>) {
        List { head: tail, rest: self }
    }
}

impl<T, R: Cons<T>> Cons<T> for List<T, R> {
    type Cons = List<T, Self>;

    type RCons = List<T, R::RCons>;

    fn cons(self, head: T) -> (list: List<T, Self>) {
        List { head, rest: self }
    }

    fn r_cons(self, tail: T) -> (list: List<T, R::RCons>) {
        let list = List { head: self.head, rest: self.rest.r_cons(tail) };
        assert(list.items() =~= self.items().push(tail));
        list
    }
}

impl<T> StaticIter<T> for End {
    fn try_fold<A, E, F: FnMut(A, T) -> Result<A, E>>(self, initial: A, on_fold: F) -> (out:
        Result<A, E>) {
        Ok(initial)
    }

    fn try_fold_ref<A, E, F: FnMut(A, &T) -> Result<A, E>>(&self, initial: A, on_fold: F) -> (out:
        Result<A, E>) {
        Ok(initial)
    }

    fn try_fold_mut<A, E, F: FnMut(A, &mut T) -> Result<A, E>>(
        &mut self,
        initial: A,
        on_fold: F,
    ) -> (out: Result<A, E>) {
        Ok(initial)
    }
}

impl<T, R: StaticIter<T>> StaticIter<T> for List<T, R> {
    fn try_fold<A, E, F: FnMut(A, T) -> Result<A, E>>(self, initial: A, on_fold: F) -> (out:
        Result<A, E>) {
        let mut on_fold = on_fold;
        let ghost step = |acc: A, item: T, to: Result<A, E>| call_ensures(on_fold, (acc, item), to);
        let ghost items = self.items();
        assert(items[0] == self.head);
        assert(items.skip(1) =~= self.rest.items());
        let first = on_fold(initial, self.head);
        assert(step(initial, items[0], first));
        match first {
            Ok(next) => self.rest.try_fold(next, on_fold),
            Err(e) => Err(e),
        }
    }

    fn try_fold_ref<A, E, F: FnMut(A, &T) -> Result<A, E>>(&self, initial: A, on_fold: F) -> (out:
        Result<A, E>) {
        let mut on_fold = on_fold;
        let ghost step = |acc: A, item: T, to: Result<A, E>| call_ensures(on_fold, (acc, &item), to);
        assert(self.items()[0] == self.head);
        assert(self.items().skip(1) =~= self.rest.items());
        let first = on_fold(initial, &self.head);
        assert(step(initial, self.items()[0], first));
        match first {
            Ok(next) => self.rest.try_fold_ref(next, on_fold),
            Err(e) => Err(e),
        }
    }

    fn try_fold_mut<A, E, F: FnMut(A, &mut T) -> Result<A, E>>(
        &mut self,
        initial: A,
        on_fold: F,
    ) -> (out: Result<A, E>) {
        let mut on_fold = on_fold;
        let ghost ready = |acc: A, item: T|
            forall|m: &mut T| *m == item ==> #[trigger] call_requires(on_fold, (acc, m));
        let ghost step = |acc: A, before: T, after: T, to: Result<A, E>|
            exists|m: &mut T|
                *m == before && *final(m) == after && #[trigger] call_ensures(on_fold, (acc, m), to);
        let ghost before = self.items();
        assert(before[0] == self.head);
        assert(before.skip(1) =~= self.rest.items());
        assert(ready(initial, before[0]));
        let first = on_fold(initial, &mut self.head);
        assert(step(initial, before[0], self.head, first));
        let out = match first {
            Ok(next) => self.rest.try_fold_mut(next, on_fold),
            Err(e) => Err(e),
        };
        assert(self.items()[0] == self.head);
        assert(self.items().skip(1) =~= self.rest.items());
        out
    }
}

impl<T> DynIter<T> for End {
    type DynIteratee = dyn Iteratee<T>;

    fn dyn_iter(&self) -> (iter: Iter<'_, dyn Iteratee<T>>) {
        Iter::new(self)
    }
}

impl<T, R: Iteratee<T>> DynIter<T> for List<T, R> {
    type DynIteratee = Self;

    fn dyn_iter(&self) -> (iter: Iter<'_, Self>) {
        Iter::new(self)
    }
}

impl<T, R: IterateeMut<T>> DynIterMut<T> for List<T, R> {
    type DynIterateeMut = Self;

    fn dyn_iter_mut(&mut self) -> (iter: IterMut<'_, Self>) {
        IterMut::new(self)
    }
}

} // verus!
