use ocaml::arena::Arena;
use ocaml::array::Array;
use ocaml::bigarray::Array1;
use ocaml::conv::{FromValue, ToValue};
use ocaml::custom::{Custom, Pointer};
use ocaml::list::List;
use ocaml::runtime::{word_size, Runtime};
use ocaml::tag;
use ocaml::value::Value;

struct Meter;

impl Custom for Meter {
    fn ops() -> usize {
        0x5000
    }

    fn used() -> usize {
        2
    }

    fn max() -> usize {
        64
    }
}

#[test]
fn a_custom_block_carries_the_operations_and_the_hints_of_its_type() {
    let mut arena = Arena::new();
    let w = word_size();
    let v = Value::alloc_custom::<Meter, Arena>(&mut arena, 3 * w);
    assert_eq!(v.tag(&arena), tag::CUSTOM);
    assert_eq!(arena.wosize_val(v), 1 + 3);
    assert_eq!(arena.nativeint_val(v), 0x5000);
    assert_eq!(arena.ba_get(v, 0), 2);
    assert_eq!(arena.ba_get(v, 1), 64);
    let p: Pointer<Meter> = Pointer::alloc_custom(&mut arena, 1);
    assert!(p.raw() != v);
    assert_eq!(arena.wosize_val(p.raw()), 1 + 1);
    assert_eq!(arena.nativeint_val(p.raw()), 0x5000);
    assert_eq!(arena.ba_get(p.raw(), 1), 64);
}

#[test]
fn what_is_a_value_already_is_handed_on_as_it_is() {
    let mut arena = Arena::new();
    let first = Value::alloc_tuple(&mut arena, 1);
    let p: Pointer<Meter> = Pointer::alloc_custom(&mut arena, 8);
    let a: Array1<u8> = Array1::from_vec(&mut arena, vec![1, 2]);
    let l: List<isize> = List::empty().add(&mut arena, 1);
    let x: Array<isize> = Array::alloc_array(&mut arena, 1);
    let before = Value::alloc_tuple(&mut arena, 1);
    assert_eq!(first.to_value(&mut arena), first);
    assert_eq!(Value::from_value(&arena, first), first);
    assert_eq!(Value(9).to_value(&mut arena), Value(9));
    let v = p.to_value(&mut arena);
    assert_eq!(v, p.raw());
    assert_eq!(Pointer::<Meter>::from_value(&arena, v).raw(), p.raw());
    let v = a.to_value(&mut arena);
    assert_eq!(v, a.raw());
    assert_eq!(Array1::<u8>::from_value(&arena, v).data(&arena), vec![1, 2]);
    assert_eq!(l.to_value(&mut arena), l.raw());
    assert_eq!(x.to_value(&mut arena), x.raw());
    assert_eq!(5isize.to_value(&mut arena), Value(11));
    assert_eq!(true.to_value(&mut arena), Value(3));
    assert_eq!(().to_value(&mut arena), Value(1));
    let after = Value::alloc_tuple(&mut arena, 1);
    assert_eq!(after.0 - before.0, 4);
}

#[test]
fn values_are_ordered_as_their_words() {
    assert!(Value(1) < Value(3));
    assert!(Value(-1) < Value(1));
    assert!(Value(8) >= Value(8));
    assert_eq!(Value(4).partial_cmp(&Value(2)), Some(std::cmp::Ordering::Greater));
}

#[test]
fn a_tree_is_told_by_its_depth() {
    let mut arena = Arena::new();
    let text = Value::string(&mut arena, "leaf");
    let inner = Value::block(&mut arena, 0, &vec![Value(1), text]);
    let mut outer = Value::block(&mut arena, 0, &vec![inner, Value(3)]);
    assert!(Value(5).is_tree(&arena, 0));
    assert!(text.is_tree(&arena, 0));
    assert!(!inner.is_tree(&arena, 0));
    assert!(inner.is_tree(&arena, 1));
    assert!(!outer.is_tree(&arena, 1));
    assert!(outer.is_tree(&arena, 2));
    assert!(outer.is_tree(&arena, 50));
    let me = outer;
    outer.store_field(&mut arena, 1, me);
    assert!(!outer.is_tree(&arena, 50));
    assert!(inner.is_tree(&arena, 1));
}
