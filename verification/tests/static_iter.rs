use geode::{Cons, DynIter, End, StaticIter};

#[test]
fn increment_then_traverse_then_fold() {
    let mut list = End.cons(3).cons(2).cons(1);
    list.for_each_mut(|item| *item += 1);
    assert_eq!((list.head, list.rest.head, list.rest.rest.head), (2, 3, 4));
    let mut iter = list.dyn_iter();
    assert_eq!(iter.next(), Some(&2));
    assert_eq!(iter.next(), Some(&3));
    assert_eq!(iter.next(), Some(&4));
    assert_eq!(iter.next(), None);
    assert_eq!(list.fold_ref(0, |acc, item| acc + item), 9);
    assert_eq!(list.fold(0, |acc, item| acc + item), 9);
}

#[test]
fn the_end_is_never_visited() {
    let mut visits = 0;
    StaticIter::<i32>::for_each_ref(&End, |_| visits += 1);
    StaticIter::<i32>::for_each_mut(&mut End, |_| visits += 1);
    StaticIter::<i32>::for_each(End, |_| visits += 1);
    assert_eq!(visits, 0);
    assert_eq!(StaticIter::<i32>::try_for_each_ref(&End, |_| Err("visited")), Ok(()));
    assert_eq!(StaticIter::<i32>::try_for_each_mut(&mut End, |_| Err("visited")), Ok(()));
    assert_eq!(StaticIter::<i32>::try_for_each(End, |_| Err("visited")), Ok(()));
}

#[test]
fn fold_of_the_end_is_the_initial_accumulator() {
    assert_eq!(StaticIter::<i32>::fold(End, 17, |acc, item| acc + item), 17);
    assert_eq!(StaticIter::<i32>::fold_ref(&End, 17, |acc, item| acc + item), 17);
    assert_eq!(StaticIter::<i32>::fold_mut(&mut End, 17, |acc, item| acc + *item), 17);
    assert_eq!(
        StaticIter::<i32>::try_fold(End, "same", |_, _| Err::<&str, ()>(())),
        Ok("same")
    );
    assert_eq!(
        StaticIter::<i32>::try_fold_ref(&End, "same", |_, _| Err::<&str, ()>(())),
        Ok("same")
    );
    assert_eq!(
        StaticIter::<i32>::try_fold_mut(&mut End, "same", |_, _| Err::<&str, ()>(())),
        Ok("same")
    );
}

#[test]
fn for_each_visits_in_order() {
    let list = End.cons('c').cons('b').cons('a');
    let mut seen = String::new();
    list.for_each_ref(|item| seen.push(*item));
    assert_eq!(seen, "abc");
    let mut owned = String::new();
    list.for_each(|item| owned.push(item));
    assert_eq!(owned, "abc");
}

#[test]
fn for_each_mut_visits_in_order() {
    let mut list = End.cons(0).cons(0).cons(0);
    let mut next = 0;
    list.for_each_mut(|item| {
        next += 1;
        *item = next;
    });
    assert_eq!((list.head, list.rest.head, list.rest.rest.head), (1, 2, 3));
}

#[test]
fn try_for_each_stops_at_the_first_failure() {
    let list = End.cons(5).cons(4).cons(3).cons(2).cons(1);
    let mut visits = 0;
    let out = list.try_for_each_ref(|item| {
        visits += 1;
        if *item >= 3 {
            Err(*item)
        } else {
            Ok(())
        }
    });
    assert_eq!(out, Err(3));
    assert_eq!(visits, 3);
}

#[test]
fn try_for_each_fails_on_the_first_item() {
    let list = End.cons(2).cons(1);
    let mut visits = 0;
    let out = list.try_for_each(|item| {
        visits += 1;
        Err::<(), i32>(item)
    });
    assert_eq!(out, Err(1));
    assert_eq!(visits, 1);
}

#[test]
fn try_for_each_fails_on_the_last_item() {
    let list = End.cons(3).cons(2).cons(1);
    let mut visits = 0;
    let out = list.try_for_each(|item| {
        visits += 1;
        if item == 3 {
            Err("last")
        } else {
            Ok(())
        }
    });
    assert_eq!(out, Err("last"));
    assert_eq!(visits, 3);
}

#[test]
fn try_for_each_without_failure_visits_all() {
    let list = End.cons(3).cons(2).cons(1);
    let mut sum = 0;
    let out = list.try_for_each_ref(|item| {
        sum += *item;
        Ok::<(), ()>(())
    });
    assert_eq!(out, Ok(()));
    assert_eq!(sum, 6);
}

#[test]
fn try_for_each_mut_leaves_the_rest_untouched() {
    let mut list = End.cons(4).cons(3).cons(2).cons(1);
    let out = list.try_for_each_mut(|item| {
        *item *= 10;
        if *item == 20 {
            Err("twenty")
        } else {
            Ok(())
        }
    });
    assert_eq!(out, Err("twenty"));
    assert_eq!(
        (list.head, list.rest.head, list.rest.rest.head, list.rest.rest.rest.head),
        (10, 20, 3, 4)
    );
}

#[test]
fn fold_is_the_loop_over_a_cursor() {
    let none = End;
    let one = End.cons(7);
    let two = End.cons(8).cons(7);
    let three = End.cons(9).cons(8).cons(7);
    let f = |acc: i64, item: &i64| acc * 10 + *item;

    let mut by_hand = 1;
    let mut iter = one.dyn_iter();
    while let Some(item) = iter.next() {
        by_hand = f(by_hand, item);
    }
    assert_eq!(one.fold_ref(1, f), by_hand);
    assert_eq!(by_hand, 17);

    let mut by_hand = 1;
    let mut iter = two.dyn_iter();
    while let Some(item) = iter.next() {
        by_hand = f(by_hand, item);
    }
    assert_eq!(two.fold_ref(1, f), by_hand);
    assert_eq!(by_hand, 178);

    let mut by_hand = 1;
    let mut iter = three.dyn_iter();
    while let Some(item) = iter.next() {
        by_hand = f(by_hand, item);
    }
    assert_eq!(three.fold_ref(1, f), by_hand);
    assert_eq!(by_hand, 1789);

    assert_eq!(StaticIter::<i64>::fold_ref(&none, 1, f), 1);
}

#[test]
fn fold_goes_from_the_left() {
    let list = End.cons("c").cons("b").cons("a");
    let joined = list.fold(String::from(">"), |mut acc, item| {
        acc.push_str(item);
        acc
    });
    assert_eq!(joined, ">abc");
}

#[test]
fn fold_mut_writes_and_accumulates() {
    let mut list = End.cons(3).cons(2).cons(1);
    let sum = list.fold_mut(0, |acc, item| {
        *item += acc;
        acc + *item
    });
    assert_eq!((list.head, list.rest.head, list.rest.rest.head), (1, 3, 7));
    assert_eq!(sum, 11);
}

#[test]
fn try_fold_returns_the_last_accumulator() {
    let list = End.cons(3u8).cons(2).cons(1);
    let out = list.try_fold_ref(250u8, |acc, item| acc.checked_add(*item).ok_or("overflow"));
    assert_eq!(out, Err("overflow"));
    let out = list.try_fold_ref(249u8, |acc, item| acc.checked_add(*item).ok_or("overflow"));
    assert_eq!(out, Ok(255));
    let out = list.try_fold(0u8, |acc, item| acc.checked_add(item).ok_or("overflow"));
    assert_eq!(out, Ok(6));
}

#[test]
fn try_fold_stops_at_the_first_failure() {
    let list = End.cons(4).cons(3).cons(2).cons(1);
    let mut visits = 0;
    let out = list.try_fold(0, |acc, item| {
        visits += 1;
        if item == 3 {
            Err(acc)
        } else {
            Ok(acc + item)
        }
    });
    assert_eq!(out, Err(3));
    assert_eq!(visits, 3);
}

#[test]
fn try_fold_mut_keeps_what_was_written() {
    let mut list = End.cons(30).cons(20).cons(10);
    let out = list.try_fold_mut(0, |count, item| {
        if *item == 30 {
            Err(count)
        } else {
            *item += 1;
            Ok(count + 1)
        }
    });
    assert_eq!(out, Err(2));
    assert_eq!((list.head, list.rest.head, list.rest.rest.head), (11, 21, 30));
    let out = list.try_fold_mut(0, |count, item| {
        *item = 0;
        Ok::<i32, ()>(count + 1)
    });
    assert_eq!(out, Ok(3));
    assert_eq!((list.head, list.rest.head, list.rest.rest.head), (0, 0, 0));
}
