use ocaml::arena::Arena;
use ocaml::bigarray::Float64;
use ocaml::conv::{FromValue, ToValue};
use ocaml::error::Error;
use ocaml::runtime::{word_size, Runtime};
use ocaml::tag;
use ocaml::value::Value;
use ocaml::variant::Variant;

#[test]
fn a_string_has_one_word_more_than_its_bytes_fill() {
    let mut arena = Arena::new();
    let w = word_size();
    assert!(w == 4 || w == 8);
    for len in [0usize, 1, 3, 7, 8, 9, 15, 16, 17, 100] {
        let bytes: Vec<u8> = (0..len).map(|i| (i % 251) as u8).collect();
        let v = Value::bytes(&mut arena, &bytes);
        assert_eq!(v.tag(&arena), tag::STRING);
        let wosize = arena.wosize_val(v);
        assert_eq!(wosize, len / w + 1);
        let last = arena.byte_u(v, wosize * w - 1) as usize;
        assert_eq!(last, w - 1 - len % w);
        assert_eq!(v.string_length(&arena), wosize * w - 1 - last);
        assert_eq!(v.string_length(&arena), len);
        assert_eq!(v.to_bytes(&arena), bytes);
    }
}

#[test]
fn text_is_kept_byte_for_byte() {
    let mut arena = Arena::new();
    let v = Value::string(&mut arena, "héllo, wörld");
    assert_eq!(v.string_length(&arena), "héllo, wörld".len());
    let back = String::from_utf8(v.to_bytes(&arena)).unwrap();
    assert_eq!(back, "héllo, wörld");
    let bytes = b"testing".to_vec();
    let v = bytes.to_value(&mut arena);
    assert_eq!(Vec::<u8>::from_value(&arena, v), b"testing".to_vec());
    let pair = (b"123".to_vec(), Some(Vec::<u8>::new())).to_value(&mut arena);
    assert_eq!(
        <(Vec<u8>, Option<Vec<u8>>)>::from_value(&arena, pair),
        (b"123".to_vec(), Some(Vec::new()))
    );
}

#[test]
fn boxed_numbers_keep_their_value() {
    let mut arena = Arena::new();
    let a = Value::int64(&mut arena, i64::MIN);
    let b = Value::int32(&mut arena, -7);
    let c = Value::nativeint(&mut arena, isize::MAX);
    let d = Value::float(&mut arena, 2.5f64.to_bits());
    let e = Value::int64(&mut arena, i64::MAX);
    assert_eq!(a.tag(&arena), tag::CUSTOM);
    assert_eq!(d.tag(&arena), tag::DOUBLE);
    assert_eq!(a.int64_val(&arena), i64::MIN);
    assert_eq!(b.int32_val(&arena), -7);
    assert_eq!(c.nativeint_val(&arena), isize::MAX);
    assert_eq!(f64::from_bits(d.float_val(&arena)), 2.5);
    assert_eq!(e.int64_val(&arena), i64::MAX);
}

#[test]
fn constructors_without_and_with_arguments() {
    let mut arena = Arena::new();
    let empty = Variant::Constant(0).to_value(&mut arena);
    assert_eq!(empty, Value(1));
    let third = Variant::Constant(2).to_value(&mut arena);
    assert_eq!(third, Value(5));
    assert_eq!(Variant::from_value(&arena, third), Variant::Constant(2));
    let one = Variant::Block(0, vec![Value::val_int(9)]).to_value(&mut arena);
    assert!(one.is_block());
    assert_eq!(one.tag(&arena), 0);
    assert_eq!(Variant::from_value(&arena, one), Variant::Block(0, vec![Value(19)]));
    let many = Variant::Block(3, vec![Value(1), one, third]).to_value(&mut arena);
    assert_eq!(many.tag(&arena), 3);
    assert_eq!(
        many.variant_of(&arena),
        Ok(Variant::Block(3, vec![Value(1), one, third]))
    );
    assert_eq!(third.variant_of(&arena), Ok(Variant::Constant(2)));
}

#[test]
fn a_block_that_is_no_constructor_has_an_unknown_tag() {
    let mut arena = Arena::new();
    let text = Value::string(&mut arena, "abc");
    let closure = Value::alloc_block(&mut arena, 1, tag::CLOSURE);
    let atom = Value::alloc_block(&mut arena, 0, 0);
    for v in [text, closure, atom] {
        assert_eq!(v.variant_of(&arena), Err(Error::Message("unknown tag")));
    }
}

#[test]
fn doubles_and_longer_tuples_are_read_as_written() {
    let mut arena = Arena::new();
    let v = Float64((-0.0f64).to_bits()).to_value(&mut arena);
    assert_eq!(v.tag(&arena), tag::DOUBLE);
    assert_eq!(Float64::from_value(&arena, v).0, (-0.0f64).to_bits());
    let nan = Float64(f64::NAN.to_bits()).to_value(&mut arena);
    assert!(f64::from_bits(Float64::from_value(&arena, nan).0).is_nan());
    let t = (1isize, Float64(1.5f64.to_bits()), b"x".to_vec(), Some(true));
    let v = t.to_value(&mut arena);
    assert_eq!(arena.wosize_val(v), 4);
    let back = <(isize, Float64, Vec<u8>, Option<bool>)>::from_value(&arena, v);
    assert_eq!(back, (1, Float64(1.5f64.to_bits()), b"x".to_vec(), Some(true)));
}

#[test]
fn text_is_read_as_written() {
    let mut arena = Arena::new();
    for text in ["", "a", "seven77", "eight888", "héllo, wörld", "日本語のテキスト", "\u{1F600} and more"] {
        let v = String::from(text).to_value(&mut arena);
        assert_eq!(v.tag(&arena), tag::STRING);
        assert_eq!(v.string_length(&arena), text.len());
        assert_eq!(String::from_value(&arena, v), text);
        assert_eq!(v.to_text(&arena), Some(String::from(text)));
    }
    let broken = Value::bytes(&mut arena, &vec![0x66, 0xff, 0x6f]);
    assert_eq!(broken.to_text(&arena), None);
    assert_eq!(broken.to_bytes(&arena), vec![0x66, 0xff, 0x6f]);
    let list = ocaml::list::List::empty()
        .add(&mut arena, String::from("123"))
        .add(&mut arena, String::from("testing"));
    assert_eq!(list.to_vec(&arena), vec![String::from("testing"), String::from("123")]);
}
