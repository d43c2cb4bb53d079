use ocaml::arena::Arena;
use ocaml::bigarray::{
    byte_size, code, element, flags, width, Array1, Char, Element, Float32, Float64, Kind,
};
use ocaml::custom::{final_hints, Pointer};
use ocaml::runtime::{word_size, Runtime};
use ocaml::tag;
use ocaml::value::Value;
use ocaml_sys::bigarray::{Kind as SysKind, Managed};

#[test]
fn a_buffer_of_four_doubles_keeps_what_is_written() {
    let mut arena = Arena::new();
    let mut a: Array1<Float64> = Array1::create(&mut arena, 4);
    assert_eq!(a.len(&arena), 4);
    assert!(!a.is_empty(&arena));
    let written = [1.0f64, -2.5, 3.25e10, f64::MIN_POSITIVE];
    let cells: Vec<Float64> = written.iter().map(|x| Float64(x.to_bits())).collect();
    a.data_mut(&mut arena, &cells);
    let read: Vec<f64> = a.data(&arena).iter().map(|c| f64::from_bits(c.0)).collect();
    assert_eq!(read.len(), 4);
    for (x, y) in written.iter().zip(read.iter()) {
        assert_eq!(x.to_bits(), y.to_bits());
    }
    assert_eq!(a.len(&arena), 4);
    a.set(&mut arena, 2, Float64(0.5f64.to_bits()));
    assert_eq!(f64::from_bits(a.get(&arena, 2).0), 0.5);
    assert_eq!(f64::from_bits(a.get(&arena, 1).0), -2.5);
}

#[test]
fn a_buffer_made_from_a_vector_holds_a_copy() {
    let mut arena = Arena::new();
    let a = Array1::from_vec(&mut arena, vec![-1i16, 0, 300, i16::MIN]);
    assert_eq!(a.len(&arena), 4);
    assert_eq!(a.data(&arena), vec![-1i16, 0, 300, i16::MIN]);
    let b = Array1::from_slice(&mut arena, &[7u8, 8, 9]);
    assert_eq!(b.data(&arena), vec![7u8, 8, 9]);
    assert_eq!(a.data(&arena), vec![-1i16, 0, 300, i16::MIN]);
    let c: Array1<i64> = Array1::from_vec(&mut arena, Vec::new());
    assert!(c.is_empty(&arena));
    assert_eq!(c.raw().tag(&arena), tag::CUSTOM);
    let d = Array1::from_vec(&mut arena, vec![i64::MIN, -1, i64::MAX]);
    assert_eq!(d.data(&arena), vec![i64::MIN, -1, i64::MAX]);
    let e = Array1::from_vec(&mut arena, vec![-5i8, 5]);
    assert_eq!(e.data(&arena), vec![-5i8, 5]);
    let f = Array1::from_vec(&mut arena, vec![i32::MIN, 9]);
    assert_eq!(f.data(&arena), vec![i32::MIN, 9]);
    let g = Array1::from_vec(&mut arena, vec![u16::MAX, 1]);
    assert_eq!(g.data(&arena), vec![u16::MAX, 1]);
    let h = Array1::from_vec(&mut arena, vec![Float32(1.5f32.to_bits())]);
    assert_eq!(f32::from_bits(h.get(&arena, 0).0), 1.5);
}

#[test]
fn flags_hold_the_kind_and_the_owner() {
    assert_eq!(flags::<u8>(true), 0x203);
    assert_eq!(flags::<u8>(false), 0x003);
    assert_eq!(flags::<Float64>(true), 0x201);
    assert_eq!(flags::<i64>(false), 0x007);
    assert_eq!(<i16 as Kind>::kind(), 4);
    assert_eq!(<i32 as Kind>::size(), 4);
    assert_eq!(byte_size::<i64>(3), Some(24));
    assert_eq!(byte_size::<u8>(usize::MAX), Some(usize::MAX));
    assert_eq!(byte_size::<i16>(usize::MAX), None);
    assert_eq!(byte_size::<Float64>(usize::MAX / 8 + 1), None);
}

#[test]
fn the_numbers_are_those_of_the_runtime() {
    assert_eq!(code(Element::Float32), SysKind::FLOAT32 as i32);
    assert_eq!(code(Element::Float64), SysKind::FLOAT64 as i32);
    assert_eq!(code(Element::Sint8), SysKind::SINT8 as i32);
    assert_eq!(code(Element::Uint8), SysKind::UINT8 as i32);
    assert_eq!(code(Element::Sint16), SysKind::SINT16 as i32);
    assert_eq!(code(Element::Uint16), SysKind::UINT16 as i32);
    assert_eq!(code(Element::Int32), SysKind::INT32 as i32);
    assert_eq!(code(Element::Int64), SysKind::INT64 as i32);
    assert_eq!(code(Element::Char), SysKind::CHAR as i32);
    assert_eq!(flags::<u8>(true), SysKind::UINT8 as i32 | Managed::MANAGED as i32);
    assert_eq!(flags::<u8>(false), SysKind::UINT8 as i32 | Managed::EXTERNAL as i32);
    assert_eq!(tag::FORWARD, ocaml_sys::FORWARD);
    assert_eq!(tag::INFIX, ocaml_sys::INFIX);
    assert_eq!(tag::OBJECT, ocaml_sys::OBJECT);
    assert_eq!(tag::CLOSURE, ocaml_sys::CLOSURE);
    assert_eq!(tag::LAZY, ocaml_sys::LAZY);
    assert_eq!(tag::ABSTRACT, ocaml_sys::ABSTRACT);
    assert_eq!(tag::NO_SCAN, ocaml_sys::NO_SCAN);
    assert_eq!(tag::STRING, ocaml_sys::STRING);
    assert_eq!(tag::DOUBLE, ocaml_sys::DOUBLE);
    assert_eq!(tag::DOUBLE_ARRAY, ocaml_sys::DOUBLE_ARRAY);
    assert_eq!(tag::CUSTOM, ocaml_sys::CUSTOM);
    assert_eq!(Value::unit().0, ocaml_sys::UNIT);
    assert_eq!(Value::none().0, ocaml_sys::NONE);
    assert_eq!(Value::bool(true).0, ocaml_sys::TRUE);
    assert_eq!(Value::bool(false).0, ocaml_sys::FALSE);
    assert_eq!(Value::val_int(ocaml_sys::MAX_FIXNUM).int_val(), ocaml_sys::MAX_FIXNUM);
    assert_eq!(Value::val_int(ocaml_sys::MIN_FIXNUM).int_val(), ocaml_sys::MIN_FIXNUM);
    assert_eq!(ocaml::list::List::<isize>::empty().raw().0, ocaml_sys::EMPTY_LIST);
}

#[test]
fn a_finalized_block_has_room_for_its_data() {
    let mut arena = Arena::new();
    let w = word_size();
    assert_eq!(final_hints(None), (0, 1));
    assert_eq!(final_hints(Some((3, 10))), (3, 10));
    let v = Value::alloc_final(&mut arena, 2 * w + 1, 0x1000, Some((1, 100)));
    assert_eq!(v.tag(&arena), tag::CUSTOM);
    assert_eq!(arena.wosize_val(v), 1 + 3);
    assert_eq!(arena.nativeint_val(v), 0x1000);
    assert_eq!(arena.ba_get(v, 0), 1);
    assert_eq!(arena.ba_get(v, 1), 100);
    let p: Pointer<u64> = Pointer::alloc_final(&mut arena, 8, None, None);
    assert_eq!(arena.wosize_val(p.raw()), 1 + 8 / w);
    assert_eq!(arena.nativeint_val(p.raw()), 0);
    assert_eq!(arena.ba_get(p.raw(), 0), 0);
    assert_eq!(arena.ba_get(p.raw(), 1), 1);
    let q: Pointer<u64> = Pointer::alloc_final(&mut arena, 0, Some(0x2000), None);
    assert_eq!(arena.wosize_val(q.raw()), 1);
    assert_eq!(arena.nativeint_val(q.raw()), 0x2000);
    assert_eq!(Pointer::<u64>::from_raw(v).raw(), v);
}

#[test]
fn flags_name_their_kind_and_its_width() {
    let all = [
        (Element::Float32, 4),
        (Element::Float64, 8),
        (Element::Sint8, 1),
        (Element::Uint8, 1),
        (Element::Sint16, 2),
        (Element::Uint16, 2),
        (Element::Int32, 4),
        (Element::Int64, 8),
        (Element::Char, 1),
    ];
    for (e, w) in all {
        assert_eq!(width(e), w);
        assert_eq!(element(code(e)), Some(e));
        assert_eq!(element(code(e) | 0x200), Some(e));
        assert_eq!(element(code(e) | 0x100), Some(e));
    }
    assert_eq!(element(0x08), None);
    assert_eq!(element(0x0b), None);
    assert_eq!(element(0xff), None);
    assert_eq!(<i16 as Kind>::size(), width(Element::Sint16));
    assert_eq!(<Float64 as Kind>::size(), width(Element::Float64));
}

#[test]
fn a_buffer_of_characters_holds_one_byte_for_each() {
    let mut arena = Arena::new();
    let a = Array1::from_vec(&mut arena, vec![Char(b'o'), Char(b'k'), Char(255)]);
    assert_eq!(a.data(&arena), vec![Char(b'o'), Char(b'k'), Char(255)]);
    assert_eq!(<Char as Kind>::kind(), SysKind::CHAR as i32);
    assert_eq!(<Char as Kind>::size(), 1);
    assert_eq!(flags::<Char>(true), 0x20c);
}
