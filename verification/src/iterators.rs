//! The cursors: [`Iter`] for shared and [`IterMut`] for exclusive traversal.
//!
//! A cursor borrows its target and counts the cells that it has passed. What
//! it has yet to yield is the suffix of the target at that position; to
//! advance is to replace that suffix by its own rest ([`head_rest`]). The
//! cursor never owns its target, and it holds one position at a time.
use vstd::prelude::*;
use vstd::std_specs::convert::FromSpecImpl;
use crate::private::{DynIterateeImpl, DynIterateeMutImpl};
use crate::{bounds, DynIteratee, DynIterateeMut};

verus! {

/// The head of a suffix and the suffix behind it.
///
/// At the end of the list there is no head, and the rest of the empty
/// suffix is the empty suffix: a cursor at the end stays at the end.
pub open spec fn head_rest<T>(suffix: Seq<T>) -> (Option<T>, Seq<T>) {
    if suffix.len() > 0 {
        (Some(suffix[0]), suffix.skip(1))
    } else {
        (None, suffix)
    }
}

/// The hint for what is left of a target whose hint is `hint` once
/// `position` of its cells have been passed.
pub open spec fn hint_skip(hint: (usize, Option<usize>), position: nat) -> (
    usize,
    Option<usize>,
) {
    (
        if hint.0 >= position {
            (hint.0 - position) as usize
        } else {
            0
        },
        match hint.1 {
            Some(upper) => Some(
                if upper >= position {
                    (upper - position) as usize
                } else {
                    0
                },
            ),
            None => None,
        },
    )
}

/// A cursor that yields shared references to the items of its target.
///
/// It can be cloned, and the clone advances on its own.
pub struct Iter<'a, I: ?Sized + DynIteratee> {
    iteratee: &'a I,
    depth: usize,
}

impl<'a, I: ?Sized + DynIteratee> Iter<'a, I> {
    /// The target that the cursor walks.
    pub closed spec fn target(&self) -> &'a I {
        self.iteratee
    }

    /// The number of cells that the cursor has passed.
    pub closed spec fn position(&self) -> nat {
        self.depth as nat
    }

    /// The position lies within the target, and the target is no longer
    /// than a position can count.
    pub open spec fn wf(&self) -> bool {
        self.position() <= self.target().items().len() <= usize::MAX
    }

    /// The items that the cursor has yet to yield, next one first.
    pub open spec fn remaining(&self) -> Seq<I::Item> {
        self.target().items().skip(self.position() as int)
    }

    /// What [`Iter::size_hint`] reports.
    pub open spec fn hint(&self) -> (usize, Option<usize>) {
        hint_skip(self.target().hint(), self.position())
    }

    /// A cursor at the front of `iteratee`.
    pub fn new(iteratee: &'a I) -> (iter: Self)
        requires
            iteratee.items().len() <= usize::MAX,
        ensures
            iter.wf(),
            iter.target() == iteratee,
            iter.position() == 0,
            iter.remaining() == iteratee.items(),
    {
        Iter { iteratee, depth: 0 }
    }

    /// Yields the head of what remains and moves on to the rest. At the end
    /// it yields `None` and stays where it is, however often it is asked.
    pub fn next(&mut self) -> (item: Option<&'a I::Item>)
        requires
            old(self).wf(),
        ensures
            final(self).wf(),
            final(self).target() == old(self).target(),
            match head_rest(old(self).remaining()).0 {
                Some(head) => item == Some(&head) && final(self).position() == old(
                    self,
                ).position() + 1,
                None => item.is_none() && final(self).position() == old(self).position(),
            },
            final(self).remaining() == head_rest(old(self).remaining()).1,
    {
        let item = self.iteratee.head_at(self.depth);
        if item.is_some() {
            self.depth = self.depth + 1;
        }
        item
    }

    /// Bounds of the number of items that remain: those of the target,
    /// less the cells that the cursor has passed.
    pub fn size_hint(&self) -> (hint: (usize, Option<usize>))
        ensures
            hint == self.hint(),
            self.wf() ==> bounds(hint, self.remaining().len()),
    {
        let (lower, upper) = self.iteratee.size_hint();
        skip_hint(lower, upper, self.depth)
    }
}

/// Takes `depth` off both bounds, and stops at zero.
fn skip_hint(lower: usize, upper: Option<usize>, depth: usize) -> (hint: (usize, Option<usize>))
    ensures
        hint == hint_skip((lower, upper), depth as nat),
{
    let lower = if lower >= depth {
        lower - depth
    } else {
        0
    };
    let upper = match upper {
        Some(upper) => Some(
            if upper >= depth {
                upper - depth
            } else {
                0
            },
        ),
        None => None,
    };
    (lower, upper)
}

impl<'a, I: ?Sized + DynIteratee> Clone for Iter<'a, I> {
    /// A second cursor at the same position of the same target.
    fn clone(&self) -> (copy: Self)
        ensures
            copy == *self,
    {
        Iter { iteratee: self.iteratee, depth: self.depth }
    }
}

/// A cursor that yields exclusive references to the items of its target.
///
/// An item is lent for as long as the cursor is not used again: the
/// reference that [`IterMut::next`] returns borrows the cursor. So the
/// cursor and an item that it has yielded are never both in use, and a
/// step of the target that does not return leaves the cursor as it was.
pub struct IterMut<'a, I: ?Sized + DynIterateeMut> {
    iteratee: &'a mut I,
    depth: usize,
}

impl<'a, I: ?Sized + DynIterateeMut> IterMut<'a, I> {
    /// The borrow of the target that the cursor holds.
    pub closed spec fn target(&self) -> &'a mut I {
        self.iteratee
    }

    /// The number of cells that the cursor has passed.
    pub closed spec fn position(&self) -> nat {
        self.depth as nat
    }

    /// The position lies within the target, and the target is no longer
    /// than a position can count.
    pub open spec fn wf(&self) -> bool {
        self.position() <= self.target().items().len() <= usize::MAX
    }

    /// The items that the cursor has yet to yield, next one first.
    pub open spec fn remaining(&self) -> Seq<I::Item> {
        self.target().items().skip(self.position() as int)
    }

    /// What [`IterMut::size_hint`] reports.
    pub open spec fn hint(&self) -> (usize, Option<usize>) {
        hint_skip(self.target().hint(), self.position())
    }

    /// Once a cursor is no longer used, its borrow of the target has ended:
    /// the target then holds what the cursor last saw in it.
    pub proof fn lemma_done(self)
        requires
            has_resolved(self),
        ensures
            has_resolved(self.target()),
    {
    }

    /// A cursor at the front of `iteratee`.
    pub fn new(iteratee: &'a mut I) -> (iter: Self)
        requires
            old(iteratee).items().len() <= usize::MAX,
        ensures
            iter.wf(),
            iter.position() == 0,
            iter.target().items() == old(iteratee).items(),
            iter.target().hint() == old(iteratee).hint(),
            iter.remaining() == old(iteratee).items(),
            final(iter.target()).items() == final(iteratee).items(),
    {
        IterMut { iteratee, depth: 0 }
    }

    /// Lends the head of what remains and moves on to the rest. At the end
    /// it yields `None` and stays where it is.
    ///
    /// What the caller writes through the reference becomes the item at the
    /// position that the cursor has just left. What remains does not depend
    /// on it: the next item is out of reach of this reference.
    pub fn next(&mut self) -> (item: Option<&mut I::Item>)
        requires
            old(self).wf(),
        ensures
            final(final(self).target()).items() == final(old(self).target()).items(),
            final(self).target().hint() == old(self).target().hint(),
            match head_rest(old(self).remaining()).0 {
                Some(head) => item.is_some() && *item.unwrap() == head && final(self).position()
                    == old(self).position() + 1 && final(self).target().items() == old(
                    self,
                ).target().items().update(old(self).position() as int, *final(item.unwrap())),
                None => item.is_none() && final(self).position() == old(self).position()
                    && final(self).target().items() == old(self).target().items(),
            },
            final(self).wf(),
            final(self).remaining() == head_rest(old(self).remaining()).1,
    {
        let item = self.iteratee.head_at_mut(self.depth);
        if item.is_some() {
            self.depth = self.depth + 1;
        }
        item
    }

    /// Hands the rest of the traversal to a second cursor.
    ///
    /// The fork starts where this cursor stands and borrows it: this cursor
    /// cannot be used until the fork is gone. It then stands where it stood,
    /// over a target that holds what the fork has written.
    pub fn fork(&mut self) -> (fork: IterMut<'_, I>)
        ensures
            fork.position() == old(self).position(),
            fork.target().items() == old(self).target().items(),
            fork.target().hint() == old(self).target().hint(),
            fork.remaining() == old(self).remaining(),
            fork.wf() == old(self).wf(),
            final(self).position() == old(self).position(),
            final(self).target().items() == final(fork.target()).items(),
            final(final(self).target()).items() == final(old(self).target()).items(),
    {
        IterMut { iteratee: &mut *self.iteratee, depth: self.depth }
    }

    /// A shared cursor at the position of this one. It advances on its own
    /// and leaves this cursor where it is.
    pub fn fork_shared(&self) -> (shared: Iter<'_, I>)
        ensures
            shared.position() == self.position(),
            shared.target().items() == self.target().items(),
            shared.target().hint() == self.target().hint(),
            shared.remaining() == self.remaining(),
            shared.wf() == self.wf(),
    {
        Iter { iteratee: &*self.iteratee, depth: self.depth }
    }

    /// Bounds of the number of items that remain: those of the target,
    /// less the cells that the cursor has passed.
    pub fn size_hint(&self) -> (hint: (usize, Option<usize>))
        ensures
            hint == self.hint(),
            self.wf() ==> bounds(hint, self.remaining().len()),
    {
        let (lower, upper) = self.iteratee.size_hint();
        skip_hint(lower, upper, self.depth)
    }
}

impl<'a, I: ?Sized + DynIterateeMut> FromSpecImpl<IterMut<'a, I>> for Iter<'a, I> {
    open spec fn obeys_from_spec() -> bool {
        true
    }

    closed spec fn from_spec(iter_mut: IterMut<'a, I>) -> Self {
        Iter { iteratee: &*iter_mut.iteratee, depth: iter_mut.depth }
    }
}

/// Gives up exclusive access: the shared cursor stands where the exclusive
/// one stood, over the target as the exclusive cursor left it.
impl<'a, I: ?Sized + DynIterateeMut> From<IterMut<'a, I>> for Iter<'a, I> {
    fn from(iter_mut: IterMut<'a, I>) -> (shared: Self)
        ensures
            shared.position() == iter_mut.position(),
            shared.target().items() == iter_mut.target().items(),
            shared.target().hint() == iter_mut.target().hint(),
            shared.remaining() == iter_mut.remaining(),
            shared.wf() == iter_mut.wf(),
            final(iter_mut.target()).items() == iter_mut.target().items(),
    {
        let IterMut { iteratee, depth } = iter_mut;
        Iter { iteratee: &*iteratee, depth }
    }
}

} // verus!
