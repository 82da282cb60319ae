use geode::{Cons, End, Iteratee, List};

#[test]
fn cons_puts_an_item_in_front() {
    let list = End.cons("c").cons("b").cons("a");
    assert_eq!(list.head, "a");
    assert_eq!(list.rest.head, "b");
    assert_eq!(list.rest.rest.head, "c");
    let End = list.rest.rest.rest;
}

#[test]
fn r_cons_puts_an_item_behind() {
    let list = End.r_cons(1).r_cons(2).r_cons(3);
    assert_eq!(list.head, 1);
    assert_eq!(list.rest.head, 2);
    assert_eq!(list.rest.rest.head, 3);
    let End = list.rest.rest.rest;
}

#[test]
fn cons_and_r_cons_build_the_same_list() {
    let front = End.cons(2).cons(1);
    let back = End.r_cons(1).r_cons(2);
    let mixed = End.cons(2).r_cons(3).cons(1);
    assert_eq!((front.head, front.rest.head), (back.head, back.rest.head));
    assert_eq!((mixed.head, mixed.rest.head, mixed.rest.rest.head), (1, 2, 3));
}

#[test]
fn a_list_is_built_from_its_fields() {
    let list = List { head: 1u8, rest: List { head: 2u8, rest: End } };
    assert_eq!(list.head_at(0), Some(&1));
    assert_eq!(list.head_at(1), Some(&2));
    assert_eq!(list.head_at(2), None);
}

#[test]
fn size_hint_of_each_length() {
    assert_eq!(Iteratee::<i32>::size_hint(&End), (0, Some(0)));
    assert_eq!(End.cons(1).size_hint(), (1, Some(1)));
    assert_eq!(End.cons(1).cons(2).size_hint(), (2, Some(2)));
    assert_eq!(End.r_cons(1).r_cons(2).r_cons(3).r_cons(4).size_hint(), (4, Some(4)));
}
