//! Heterogeneous cons lists and the cursors that walk them.
//!
//! A list is a chain of cells, each of its own type: `List<T, List<T, End>>`
//! and `List<T, End>` are different types, yet both hold items of type `T`.
//! A cell says what it holds through [`Iteratee`] (shared access) and
//! [`IterateeMut`] (exclusive access). The cursors of [`iterators`] walk any
//! such chain, also behind a trait object, so that code which only sees
//! `&dyn Iteratee<T>` needs one cursor type for every shape of list.
//! [`StaticIter`] visits a whole list without a cursor, by recursion over
//! the cells.
//!
//! Every contract is stated over one model: the sequence of items that a
//! cell and the cells behind it hold, front first ([`Iteratee::items`]).
//! A position in a list is the number of cells in front of it. The part of
//! a list at and behind a position is its suffix, `items().skip(position)`.
use vstd::prelude::*;

pub mod iterators;
pub mod laws;
pub mod list;
mod private;
pub mod static_iter;
pub mod visit;

pub use list::{Cons, End, List};
pub use static_iter::StaticIter;
use private::{DynIterateeImpl, DynIterateeMutImpl, Sealed};

verus! {

/// Whether `hint` is a pair of a lower and an optional upper bound of `len`.
pub open spec fn bounds(hint: (usize, Option<usize>), len: nat) -> bool {
    &&& hint.0 <= len
    &&& hint.1 matches Some(upper) ==> len <= upper
}

/// A target of traversal: a cell of a list, or the end of one.
///
/// A cell does not hand out the cell behind it. It answers for the whole
/// chain that starts with it: `head_at(depth)` is the item of the cell that
/// stands `depth` cells behind this one. An implementation for a cell
/// answers for depth 0 itself and passes every other depth on to its rest.
pub trait Iteratee<T> {
    /// The items from this cell to the end of the list, front first.
    spec fn items(&self) -> Seq<T>;

    /// What [`Iteratee::size_hint`] reports.
    spec fn hint(&self) -> (usize, Option<usize>);

    /// The head of the suffix at `depth`: the item at that position, or
    /// `None` at the end of the list and behind it.
    fn head_at(&self, depth: usize) -> (head: Option<&T>)
        ensures
            depth < self.items().len() ==> head == Some(&self.items()[depth as int]),
            depth >= self.items().len() ==> head.is_none(),
    ;

    /// A lower and, where one is known, an upper bound of the number of
    /// items.
    fn size_hint(&self) -> (hint: (usize, Option<usize>))
        ensures
            hint == self.hint(),
            bounds(hint, self.items().len()),
    ;
}

/// A target of mutating traversal.
pub trait IterateeMut<T>: Iteratee<T> {
    /// Exclusive access to the head of the suffix at `depth`.
    ///
    /// Whatever is written through the returned reference becomes the item
    /// at `depth`. Every other item stays as it is, and so do the number of
    /// items and the hint.
    fn head_at_mut(&mut self, depth: usize) -> (head: Option<&mut T>)
        ensures
            depth >= old(self).items().len() ==> head.is_none() && final(self).items() == old(
                self,
            ).items(),
            depth < old(self).items().len() ==> head.is_some() && *head.unwrap() == old(
                self,
            ).items()[depth as int] && final(self).items() == old(self).items().update(
                depth as int,
                *final(head.unwrap()),
            ),
            final(self).hint() == old(self).hint(),
    ;
}

/// The kinds of target that a shared cursor walks: `dyn Iteratee<T>`,
/// `dyn IterateeMut<T>` and [`List`]. The set is closed.
pub trait DynIteratee: Sealed + DynIterateeImpl {

}

/// The kinds of target that an exclusive cursor walks: `dyn IterateeMut<T>`
/// and [`List`]. Each of them is a kind of shared target too, which is how
/// an exclusive cursor gives up exclusivity and keeps its position.
pub trait DynIterateeMut: DynIteratee + DynIterateeMutImpl {

}

impl<'o, T> DynIteratee for dyn Iteratee<T> + 'o {

}

impl<'o, T> DynIteratee for dyn IterateeMut<T> + 'o {

}

impl<'o, T> DynIterateeMut for dyn IterateeMut<T> + 'o {

}

impl<T, R: Iteratee<T>> DynIteratee for List<T, R> {

}

impl<T, R: IterateeMut<T>> DynIterateeMut for List<T, R> {

}

/// A sequence that hands out a shared cursor over all of its items.
pub trait DynIter<T>: Iteratee<T> {
    /// The kind of target that the cursor walks.
    type DynIteratee: ?Sized + DynIteratee<Item = T>;

    /// A cursor at the front of this sequence.
    fn dyn_iter(&self) -> (iter: iterators::Iter<'_, Self::DynIteratee>)
        requires
            self.items().len() <= usize::MAX,
        ensures
            iter.wf(),
            iter.position() == 0,
            iter.target().items() == self.items(),
            iter.target().hint() == self.hint(),
            iter.remaining() == self.items(),
    ;
}

/// A sequence that hands out an exclusive cursor over all of its items.
pub trait DynIterMut<T>: IterateeMut<T> {
    /// The kind of target that the cursor walks.
    type DynIterateeMut: ?Sized + DynIterateeMut<Item = T>;

    /// A cursor at the front of this sequence. What is written through the
    /// cursor is written to this sequence.
    fn dyn_iter_mut(&mut self) -> (iter: iterators::IterMut<'_, Self::DynIterateeMut>)
        requires
            old(self).items().len() <= usize::MAX,
        ensures
            iter.wf(),
            iter.position() == 0,
            iter.target().items() == old(self).items(),
            iter.target().hint() == old(self).hint(),
            iter.remaining() == old(self).items(),
            final(iter.target()).items() == final(self).items(),
    ;
}

} // verus!
