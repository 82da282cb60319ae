//! What a cursor asks of its target, for each kind of target.
//!
//! Nothing here walks a list. Each method hands the question on to the
//! [`Iteratee`] or [`IterateeMut`] behind the kind, and each contract is the
//! contract of the method it hands on to.
use vstd::prelude::*;
use crate::bounds;
use crate::list::List;
use crate::{Iteratee, IterateeMut};

verus! {

/// Keeps [`crate::DynIteratee`] and [`crate::DynIterateeMut`] closed.
pub trait Sealed {

}

impl<'o, T> Sealed for dyn Iteratee<T> + 'o {

}

impl<'o, T> Sealed for dyn IterateeMut<T> + 'o {

}

impl<T, R> Sealed for List<T, R> {

}

/// A kind of target, seen as a thing with one type of item.
pub trait DynIterateeImpl {
    /// The type of the items.
    type Item;

    /// The items of the target, front first.
    spec fn items(&self) -> Seq<Self::Item>;

    /// What [`DynIterateeImpl::size_hint`] reports.
    spec fn hint(&self) -> (usize, Option<usize>);

    /// The item at position `depth`, or `None` at the end and behind it.
    fn head_at(&self, depth: usize) -> (head: Option<&Self::Item>)
        ensures
            depth < self.items().len() ==> head == Some(&self.items()[depth as int]),
            depth >= self.items().len() ==> head.is_none(),
    ;

    /// A lower and an optional upper bound of the number of items.
    fn size_hint(&self) -> (hint: (usize, Option<usize>))
        ensures
            hint == self.hint(),
            bounds(hint, self.items().len()),
    ;
}

/// A kind of target that also gives exclusive access to its items.
pub trait DynIterateeMutImpl: DynIterateeImpl {
    /// Exclusive access to the item at position `depth`.
    fn head_at_mut(&mut self, depth: usize) -> (head: Option<&mut Self::Item>)
        ensures
            depth >= old(self).items().len() ==> head.is_none() && final(self).items() == old(
                self,
            ).items(),
            depth < old(self).items().len() ==> head.is_some() && *head.unwrap() == old(
                self,
            ).items()[depth as int] && final(self).items() == old(self).items().update(
                depth as int,
                *final(head.unwrap()),
            ),
            final(self).hint() == old(self).hint(),
    ;
}

impl<'o, T> DynIterateeImpl for dyn Iteratee<T> + 'o {
    type Item = T;

    open spec fn items(&self) -> Seq<T> {
        Iteratee::items(self)
    }

    open spec fn hint(&self) -> (usize, Option<usize>) {
        Iteratee::hint(self)
    }

    fn head_at(&self, depth: usize) -> (head: Option<&T>) {
        Iteratee::head_at(self, depth)
    }

    fn size_hint(&self) -> (hint: (usize, Option<usize>)) {
        Iteratee::size_hint(self)
    }
}

impl<'o, T> DynIterateeImpl for dyn IterateeMut<T> + 'o {
    type Item = T;

    open spec fn items(&self) -> Seq<T> {
        Iteratee::items(self)
    }

    open spec fn hint(&self) -> (usize, Option<usize>) {
        Iteratee::hint(self)
    }

    fn head_at(&self, depth: usize) -> (head: Option<&T>) {
        Iteratee::head_at(self, depth)
    }

    fn size_hint(&self) -> (hint: (usize, Option<usize>)) {
        Iteratee::size_hint(self)
    }
}

impl<'o, T> DynIterateeMutImpl for dyn IterateeMut<T> + 'o {
    fn head_at_mut(&mut self, depth: usize) -> (head: Option<&mut T>) {
        IterateeMut::head_at_mut(self, depth)
    }
}

impl<T, R: Iteratee<T>> DynIterateeImpl for List<T, R> {
    type Item = T;

    open spec fn items(&self) -> Seq<T> {
        Iteratee::items(self)
    }

    open spec fn hint(&self) -> (usize, Option<usize>) {
        Iteratee::hint(self)
    }

    fn head_at(&self, depth: usize) -> (head: Option<&T>) {
        Iteratee::head_at(self, depth)
    }

    fn size_hint(&self) -> (hint: (usize, Option<usize>)) {
        Iteratee::size_hint(self)
    }
}

impl<T, R: IterateeMut<T>> DynIterateeMutImpl for List<T, R> {
    fn head_at_mut(&mut self, depth: usize) -> (head: Option<&mut T>) {
        IterateeMut::head_at_mut(self, depth)
    }
}

} // verus!
