use geode::iterators::{Iter, IterMut};
use geode::{Cons, DynIter, DynIterMut, End, Iteratee, IterateeMut, List};

type Three = List<i32, List<i32, List<i32, End>>>;

fn three() -> Three {
    End.cons(3).cons(2).cons(1)
}

#[test]
fn shared_cursor_yields_every_item_in_order() {
    let list = three();
    let mut iter = Iter::new(&list);
    assert_eq!(iter.next(), Some(&1));
    assert_eq!(iter.next(), Some(&2));
    assert_eq!(iter.next(), Some(&3));
    assert_eq!(iter.next(), None);
}

#[test]
fn shared_cursor_stays_exhausted() {
    let list = End.cons(7u8);
    let mut iter = Iter::new(&list);
    assert_eq!(iter.next(), Some(&7));
    for _ in 0..100 {
        assert_eq!(iter.next(), None);
    }
}

#[test]
fn shared_cursor_over_the_end_is_exhausted_at_once() {
    let end = End;
    let mut iter = Iter::new(&end as &dyn Iteratee<i32>);
    assert_eq!(iter.next(), None);
    assert_eq!(iter.next(), None);
    assert_eq!(iter.size_hint(), (0, Some(0)));
}

#[test]
fn dyn_iter_of_the_end_is_exhausted_at_once() {
    let end = End;
    let mut iter: Iter<'_, dyn Iteratee<u64>> = end.dyn_iter();
    assert_eq!(iter.next(), None);
}

#[test]
fn one_cursor_type_walks_lists_of_every_shape() {
    let none = End;
    let one = End.cons(10);
    let two = End.cons(21).cons(20);
    let long = three();
    let mut cursors: Vec<Iter<'_, dyn Iteratee<i32>>> = vec![
        Iter::new(&none as &dyn Iteratee<i32>),
        Iter::new(&one as &dyn Iteratee<i32>),
        Iter::new(&two as &dyn Iteratee<i32>),
        Iter::new(&long as &dyn Iteratee<i32>),
    ];
    let mut seen: Vec<Vec<i32>> = Vec::new();
    for cursor in cursors.iter_mut() {
        let mut items = Vec::new();
        while let Some(item) = cursor.next() {
            items.push(*item);
        }
        seen.push(items);
    }
    assert_eq!(seen, vec![vec![], vec![10], vec![20, 21], vec![1, 2, 3]]);
}

#[test]
fn shared_items_outlive_the_cursor() {
    let list = three();
    let first;
    let second;
    {
        let mut iter = list.dyn_iter();
        first = iter.next();
        second = iter.next();
    }
    assert_eq!((first, second), (Some(&1), Some(&2)));
}

#[test]
fn clone_advances_on_its_own() {
    let list = three();
    let mut iter = Iter::new(&list as &dyn Iteratee<i32>);
    assert_eq!(iter.next(), Some(&1));
    let mut copy = iter.clone();
    assert_eq!(iter.next(), Some(&2));
    assert_eq!(iter.next(), Some(&3));
    assert_eq!(iter.next(), None);
    assert_eq!(copy.next(), Some(&2));
    assert_eq!(copy.next(), Some(&3));
    assert_eq!(copy.next(), None);
}

#[test]
fn size_hint_counts_what_remains() {
    let list = three();
    assert_eq!(Iteratee::size_hint(&list), (3, Some(3)));
    let mut iter = list.dyn_iter();
    assert_eq!(iter.size_hint(), (3, Some(3)));
    iter.next();
    assert_eq!(iter.size_hint(), (2, Some(2)));
    iter.next();
    iter.next();
    assert_eq!(iter.size_hint(), (0, Some(0)));
    iter.next();
    assert_eq!(iter.size_hint(), (0, Some(0)));
}

#[test]
fn head_at_finds_each_position() {
    let list = three();
    assert_eq!(list.head_at(0), Some(&1));
    assert_eq!(list.head_at(1), Some(&2));
    assert_eq!(list.head_at(2), Some(&3));
    assert_eq!(list.head_at(3), None);
    assert_eq!(list.head_at(usize::MAX), None);
    assert_eq!(Iteratee::<i32>::head_at(&End, 0), None);
}

#[test]
fn head_at_mut_writes_one_position() {
    let mut list = three();
    *list.head_at_mut(1).unwrap() = 20;
    assert_eq!(list.head, 1);
    assert_eq!(list.rest.head, 20);
    assert_eq!(list.rest.rest.head, 3);
    assert!(list.head_at_mut(3).is_none());
    assert!(IterateeMut::<i32>::head_at_mut(&mut End, 0).is_none());
}

#[test]
fn exclusive_cursor_writes_through() {
    let mut list = three();
    {
        let mut iter = IterMut::new(&mut list);
        while let Some(item) = iter.next() {
            *item *= 10;
        }
        assert!(iter.next().is_none());
        assert!(iter.next().is_none());
    }
    assert_eq!((list.head, list.rest.head, list.rest.rest.head), (10, 20, 30));
}

#[test]
fn exclusive_cursor_walks_a_trait_object() {
    let mut list = three();
    {
        let target: &mut dyn IterateeMut<i32> = &mut list;
        let mut iter = IterMut::new(target);
        assert_eq!(iter.size_hint(), (3, Some(3)));
        *iter.next().unwrap() += 100;
        assert_eq!(iter.size_hint(), (2, Some(2)));
        assert_eq!(iter.next(), Some(&mut 2));
    }
    assert_eq!((list.head, list.rest.head, list.rest.rest.head), (101, 2, 3));
}

#[test]
fn exclusive_cursor_over_the_end_is_exhausted_at_once() {
    let mut end = End;
    let target: &mut dyn IterateeMut<i32> = &mut end;
    let mut iter = IterMut::new(target);
    assert!(iter.next().is_none());
    assert!(iter.next().is_none());
}

#[test]
fn consecutive_items_do_not_interfere() {
    let mut list = three();
    let mut iter = list.dyn_iter_mut();
    let first = iter.next().unwrap();
    *first = 100;
    let second = iter.next().unwrap();
    assert_eq!(*second, 2);
    *second = 200;
    let third = iter.next().unwrap();
    assert_eq!(*third, 3);
    assert!(iter.next().is_none());
    assert_eq!((list.head, list.rest.head, list.rest.rest.head), (100, 200, 3));
}

#[test]
fn fork_takes_over_the_rest() {
    let mut list = three();
    {
        let mut iter = list.dyn_iter_mut();
        *iter.next().unwrap() = -1;
        {
            let mut fork = iter.fork();
            *fork.next().unwrap() = -2;
            *fork.next().unwrap() = -3;
            assert!(fork.next().is_none());
        }
        assert_eq!(iter.next(), Some(&mut -2));
        assert_eq!(iter.next(), Some(&mut -3));
        assert!(iter.next().is_none());
    }
    assert_eq!((list.head, list.rest.head, list.rest.rest.head), (-1, -2, -3));
}

#[test]
fn fork_shared_keeps_the_position() {
    let mut list = three();
    let mut same = three();
    let mut iter = list.dyn_iter_mut();
    let mut other = same.dyn_iter_mut();
    iter.next();
    other.next();
    {
        let mut shared = iter.fork_shared();
        assert_eq!(shared.next().copied(), other.next().map(|item| *item));
        assert_eq!(shared.next(), Some(&3));
        assert_eq!(shared.next(), None);
    }
    assert_eq!(iter.next(), Some(&mut 2));
}

#[test]
fn conversion_to_shared_keeps_the_position() {
    let mut list = three();
    let mut same = three();
    let mut iter = list.dyn_iter_mut();
    let mut other = same.dyn_iter_mut();
    *iter.next().unwrap() = 5;
    other.next();
    let mut shared: Iter<'_, _> = Iter::from(iter);
    assert_eq!(shared.next().copied(), other.next().map(|item| *item));
    assert_eq!(shared.next(), Some(&3));
    assert_eq!(shared.next(), None);
    assert_eq!(list.head, 5);
}

#[test]
fn conversion_at_the_front_sees_every_item() {
    let mut list = End.cons('b').cons('a');
    let iter = IterMut::new(&mut list);
    let mut shared = Iter::from(iter);
    let mut copy = shared.clone();
    assert_eq!(shared.next(), Some(&'a'));
    assert_eq!(shared.next(), Some(&'b'));
    assert_eq!(shared.next(), None);
    assert_eq!(copy.next(), Some(&'a'));
}
