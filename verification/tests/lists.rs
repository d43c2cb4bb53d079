use ocaml::arena::Arena;
use ocaml::conv::{FromValue, ToValue};
use ocaml::list::List;
use ocaml::value::Value;

#[test]
fn test_basic_list() {
    let mut arena = Arena::new();
    let rt = &mut arena;
    let mut list = List::empty();
    list = list.add(rt, 3i64);
    list = list.add(rt, 2i64);
    list = list.add(rt, 1i64);

    assert!(list.len(rt) == 3);

    let raw = list.to_value(rt);
    let ll: List<i64> = FromValue::from_value(rt, raw);

    for (i, x) in ll.to_vec(rt).iter().enumerate() {
        assert!((i + 1) as i64 == *x);
    }
}

#[test]
fn add_leaves_the_list_as_it_was() {
    let mut arena = Arena::new();
    let base: List<isize> = List::empty().add(&mut arena, 7).add(&mut arena, 5);
    let longer = base.add(&mut arena, 9);
    assert_eq!(base.len(&arena), 2);
    assert_eq!(base.to_vec(&arena), vec![5, 7]);
    assert_eq!(longer.len(&arena), 3);
    assert_eq!(longer.to_vec(&arena), vec![9, 5, 7]);
    let other = base.add(&mut arena, 1);
    assert_eq!(other.to_vec(&arena), vec![1, 5, 7]);
    assert_eq!(longer.to_vec(&arena), vec![9, 5, 7]);
}

#[test]
fn prepending_three_then_two_then_one_reads_one_two_three() {
    let mut arena = Arena::new();
    let mut list: List<isize> = List::empty();
    for x in [3, 2, 1] {
        list = list.add(&mut arena, x);
    }
    assert_eq!(list.to_vec(&arena), vec![1, 2, 3]);
    assert_eq!(list.hd(&arena), Some(1));
    assert_eq!(list.tl(&arena).to_vec(&arena), vec![2, 3]);
}

#[test]
fn empty_list_is_the_immediate_zero() {
    let arena = Arena::new();
    let list: List<isize> = List::empty();
    assert_eq!(list.raw(), Value(1));
    assert!(list.is_empty());
    assert_eq!(list.len(&arena), 0);
    assert_eq!(list.hd(&arena), None);
    assert!(list.tl(&arena).is_empty());
    assert!(list.to_vec(&arena).is_empty());
}

#[test]
fn a_walk_gives_each_element_once() {
    let mut arena = Arena::new();
    let list: List<isize> = List::empty().add(&mut arena, 20).add(&mut arena, 10);
    let mut it = list.iter();
    assert_eq!(it.next(&arena), Some(10));
    assert_eq!(it.next(&arena), Some(20));
    assert_eq!(it.next(&arena), None);
    assert_eq!(it.next(&arena), None);
}

#[test]
fn a_list_of_pairs_keeps_its_elements() {
    let mut arena = Arena::new();
    let list: List<(isize, bool)> = List::empty().add(&mut arena, (2, false)).add(&mut arena, (1, true));
    assert_eq!(list.to_vec(&arena), vec![(1, true), (2, false)]);
}

#[test]
fn the_rest_of_the_new_list_is_the_old_list_itself() {
    let mut arena = Arena::new();
    let base: List<isize> = List::empty().add(&mut arena, 7);
    let longer = base.add(&mut arena, 9);
    assert!(longer.raw() != base.raw());
    assert!(!longer.is_empty());
    assert_eq!(longer.raw().tag(&arena), 0);
    assert_eq!(longer.raw().array_length(&arena), 2);
    assert_eq!(longer.raw().field(&arena, 0), Value::val_int(9));
    assert_eq!(longer.raw().field(&arena, 1), base.raw());
    assert_eq!(longer.tl(&arena).raw(), base.raw());
    assert_eq!(base.tl(&arena).raw(), Value(1));
    assert_eq!(longer.hd(&arena), Some(9));
}
