use ocaml::arena::Arena;
use ocaml::conv::{FromValue, ToValue};
use ocaml::header::{header_tag, header_wosize, make_header, max_fields};
use ocaml::runtime::Runtime;
use ocaml::tag;
use ocaml::value::{has_nul, Value};

#[test]
fn integers_are_twice_plus_one() {
    assert_eq!(Value::val_int(0), Value(1));
    assert_eq!(Value::val_int(1), Value(3));
    assert_eq!(Value::val_int(-1), Value(-1));
    assert_eq!(Value::val_int(123), Value(247));
    assert_eq!(Value::uint(5), Value(11));
    assert_eq!(Value::val_int(-123).int_val(), -123);
    assert_eq!(Value(247).int_val(), 123);
    let max = isize::MAX / 2;
    let min = isize::MIN / 2;
    assert_eq!(Value::val_int(max).int_val(), max);
    assert_eq!(Value::val_int(min).int_val(), min);
    assert_eq!(Value::val_int(max), Value(isize::MAX));
}

#[test]
fn unit_none_and_booleans() {
    assert_eq!(Value::unit(), Value(1));
    assert_eq!(Value::none(), Value(1));
    assert_eq!(Value::bool(false), Value(1));
    assert_eq!(Value::bool(true), Value(3));
    assert_eq!(Value::new(42), Value(42));
}

#[test]
fn the_lowest_bit_tells_immediates_from_blocks() {
    assert!(Value(1).is_long());
    assert!(!Value(1).is_block());
    assert!(Value(8).is_block());
    assert!(!Value(8).is_long());
    assert!(Value(-1).is_long());
}

#[test]
fn the_exception_mark_is_taken_off() {
    assert!(Value(10).is_exception_result());
    assert_eq!(Value(10).exception(), Some(Value(8)));
    assert!(!Value(8).is_exception_result());
    assert_eq!(Value(8).exception(), None);
    assert_eq!(Value(3).exception(), None);
}

#[test]
fn a_header_holds_size_and_tag() {
    let h = make_header(3, tag::STRING);
    assert_eq!(h, 3 * 1024 + 252);
    assert_eq!(header_tag(h), tag::STRING);
    assert_eq!(header_wosize(h), 3);
    assert_eq!(header_wosize(make_header(max_fields(), 0)), max_fields());
    assert_eq!(header_tag(0x3ff), 255);
    assert_eq!(header_wosize(0x3ff), 0);
    assert!(tag::is_scannable(0));
    assert!(tag::is_scannable(tag::CLOSURE));
    assert!(!tag::is_scannable(tag::STRING));
    assert!(!tag::is_scannable(tag::CUSTOM));
}

#[test]
fn blocks_keep_what_is_stored() {
    let mut arena = Arena::new();
    let mut b = Value::alloc_block(&mut arena, 2, 7);
    assert!(b.is_block());
    assert_eq!(b.tag(&arena), 7);
    assert_eq!(b.array_length(&arena), 2);
    assert_eq!(b.field(&arena, 0), Value::unit());
    b.store_field(&mut arena, 1, Value::val_int(9));
    assert_eq!(b.field(&arena, 1), Value(19));
    assert_eq!(b.field(&arena, 0), Value(1));
    let c = Value::alloc_tuple(&mut arena, 1);
    assert!(c != b);
    assert_eq!(c.tag(&arena), 0);
    assert_eq!(b.field(&arena, 1), Value(19));
    let s = Value::alloc_small(&mut arena, 3, 1);
    assert_eq!(arena.wosize_val(s), 3);
}

#[test]
fn options_and_variants() {
    let mut arena = Arena::new();
    let some = Value::val_int(4).some(&mut arena);
    assert_eq!(some.tag(&arena), 0);
    assert_eq!(some.field(&arena, 0), Value(9));
    let ok = Value::result_ok(&mut arena, Value::val_int(1));
    let err = Value::result_error(&mut arena, Value::val_int(2));
    assert_eq!(ok.tag(&arena), 0);
    assert_eq!(err.tag(&arena), 1);
    assert_eq!(err.field(&arena, 0), Value(5));
    let before = Value::alloc_tuple(&mut arena, 1);
    let bare = Value::variant(&mut arena, 3, None);
    assert!(bare.is_long());
    assert_eq!(bare, Value::val_int(3));
    assert_eq!(bare.int_val(), 3);
    assert_eq!(Value::variant(&mut arena, 0, None), Value(1));
    assert_eq!(Value::variant(&mut arena, 255, None), Value(511));
    let after = Value::alloc_tuple(&mut arena, 1);
    assert_eq!(after.0 - before.0, 4);
    let full = Value::variant(&mut arena, 3, Some(Value(9)));
    assert!(full.is_block());
    assert_eq!(full.tag(&arena), 3);
    assert_eq!(full.field(&arena, 0), Value(9));
    let built = Value::block(&mut arena, 5, &vec![Value(3), some]);
    assert_eq!(built.tag(&arena), 5);
    assert_eq!(built.field(&arena, 1), some);
}

#[test]
fn what_is_written_is_read() {
    let mut arena = Arena::new();
    let rt = &mut arena;
    let v = (-17isize).to_value(rt);
    assert_eq!(isize::from_value(rt, v), -17);
    let v = true.to_value(rt);
    assert!(bool::from_value(rt, v));
    let v = 5i32.to_value(rt);
    assert_eq!(i32::from_value(rt, v), 5);
    let v = ().to_value(rt);
    assert_eq!(v, Value(1));
    let v = Some(12isize).to_value(rt);
    assert_eq!(Option::<isize>::from_value(rt, v), Some(12));
    let v = None::<isize>.to_value(rt);
    assert_eq!(v, Value(1));
    assert_eq!(Option::<isize>::from_value(rt, v), None);
    let v = Some(Some(0isize)).to_value(rt);
    assert_eq!(Option::<Option<isize>>::from_value(rt, v), Some(Some(0)));
    let v = Some(None::<isize>).to_value(rt);
    assert_eq!(Option::<Option<isize>>::from_value(rt, v), Some(None));
    let v = (1isize, (false, Some(3i64)), ()).to_value(rt);
    let more = Value::alloc_tuple(rt, 4);
    assert!(more.is_block());
    assert_eq!(
        <(isize, (bool, Option<i64>), ())>::from_value(rt, v),
        (1, (false, Some(3)), ())
    );
}

#[test]
fn names_and_roots() {
    let mut arena = Arena::new();
    let exn = Value::alloc_block(&mut arena, 1, 0);
    assert_eq!(Value::named(&arena, "Rust_exception"), None);
    arena.register("Rust_exception", exn);
    arena.register("other", Value(3));
    assert_eq!(Value::named(&arena, "Rust_exception"), Some(exn));
    assert_eq!(Value::named(&arena, "other"), Some(Value(3)));
    arena.register("other", Value(5));
    assert_eq!(Value::named(&arena, "other"), Some(Value(5)));
    assert_eq!(Value::named(&arena, "oth\0er"), None);
    assert!(has_nul("a\0"));
    assert!(!has_nul("abc"));
    let mut root = exn;
    root.remove_global_root(&mut arena);
    root.register_global_root(&mut arena);
    root.modify(&mut arena, Value(1));
    assert_eq!(root, Value(1));
    root.remove_global_root(&mut arena);
    root.remove_global_root(&mut arena);
    root.initialize(&mut arena, Value(3));
    assert_eq!(root, Value(3));
    assert_eq!(exn.field(&arena, 0), Value(1));
}

#[test]
fn a_deep_copy_has_the_same_shape_in_new_blocks() {
    let mut arena = Arena::new();
    let text = Value::string(&mut arena, "leaf");
    let number = Value::int64(&mut arena, 77);
    let inner = Value::block(&mut arena, 2, &vec![Value::val_int(5), text]);
    let outer = Value::block(&mut arena, 0, &vec![inner, number, Value::unit(), inner]);
    let copy = outer.deep_clone_to_ocaml(&mut arena);
    assert!(copy != outer);
    assert_eq!(copy.tag(&arena), 0);
    assert_eq!(arena.wosize_val(copy), 4);
    let inner2 = copy.field(&arena, 0);
    assert!(inner2 != inner);
    assert_eq!(inner2.tag(&arena), 2);
    assert_eq!(inner2.field(&arena, 0), Value::val_int(5));
    let text2 = inner2.field(&arena, 1);
    assert!(text2 != text);
    assert_eq!(text2.to_bytes(&arena), b"leaf".to_vec());
    let number2 = copy.field(&arena, 1);
    assert!(number2 != number);
    assert_eq!(number2.int64_val(&arena), 77);
    assert_eq!(copy.field(&arena, 2), Value::unit());
    assert_eq!(outer.field(&arena, 0), inner);
    assert_eq!(inner.field(&arena, 1), text);
    assert_eq!(Value::val_int(3).deep_clone_to_ocaml(&mut arena), Value::val_int(3));
    let again = outer.deep_clone_to_ocaml(&mut arena);
    assert!(again != copy && again != outer);
    assert!(again.field(&arena, 0) != again.field(&arena, 3));
}
