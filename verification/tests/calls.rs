use ocaml::arena::Arena;
use ocaml::error::{boundary, panic_message, panic_raise, CamlError, Error, Outcome, Raise};
use ocaml::tag;
use ocaml::value::Value;

#[test]
fn what_is_no_closure_cannot_be_called() {
    let mut arena = Arena::new();
    let tuple = Value::alloc_tuple(&mut arena, 1);
    arena.push_reply(Value(7));
    let one = Value::val_int(1);
    assert_eq!(tuple.call(&mut arena, one), Err(Error::NotCallable));
    assert_eq!(tuple.call2(&mut arena, one, one), Err(Error::NotCallable));
    assert_eq!(tuple.call3(&mut arena, one, one, one), Err(Error::NotCallable));
    assert_eq!(tuple.call_n(&mut arena, &vec![one, one]), Err(Error::NotCallable));
    assert_eq!(one.call(&mut arena, one), Err(Error::NotCallable));
    let closure = Value::alloc_block(&mut arena, 1, tag::CLOSURE);
    assert_eq!(closure.call(&mut arena, one), Ok(Value(7)));
}

#[test]
fn a_closure_gives_its_result() {
    let mut arena = Arena::new();
    let closure = Value::alloc_block(&mut arena, 1, tag::CLOSURE);
    assert!(closure.is_closure(&arena));
    arena.push_reply(Value::val_int(3));
    arena.push_reply(Value::val_int(2));
    arena.push_reply(Value::val_int(1));
    let x = Value::val_int(0);
    assert_eq!(closure.call(&mut arena, x), Ok(Value::val_int(1)));
    assert_eq!(closure.call2(&mut arena, x, x), Ok(Value::val_int(2)));
    assert_eq!(closure.call3(&mut arena, x, x, x), Ok(Value::val_int(3)));
    assert_eq!(closure.call_n(&mut arena, &vec![x, x, x, x]), Ok(Value::unit()));
}

#[test]
fn what_a_closure_raises_comes_back_as_it_is() {
    let mut arena = Arena::new();
    let closure = Value::alloc_block(&mut arena, 1, tag::CLOSURE);
    let exn = Value::alloc_block(&mut arena, 2, 0);
    arena.push_raise(exn);
    let r = closure.call(&mut arena, Value::unit());
    assert_eq!(r, Err(Error::Caml(CamlError::Exception(exn))));
    let again: Result<Value, Error> = Err(r.unwrap_err());
    assert_eq!(boundary(&again), Outcome::Raise(Raise::Exception(exn)));
    assert_eq!(Error::reraise(exn), Err(Error::Caml(CamlError::Exception(exn))));
}

#[test]
fn call_result_reads_the_mark() {
    assert_eq!(Value::call_result(Value(9)), Ok(Value(9)));
    assert_eq!(Value::call_result(Value(16)), Ok(Value(16)));
    assert_eq!(
        Value::call_result(Value(18)),
        Err(Error::Caml(CamlError::Exception(Value(16))))
    );
}

#[test]
fn a_marked_result_is_raised_at_the_boundary() {
    let r = Ok(Value(18));
    assert_eq!(boundary(&r), Outcome::Raise(Raise::Exception(Value(16))));
    let r = Err(Error::Caml(CamlError::NotFound));
    assert_eq!(boundary(&r), Outcome::Raise(Raise::NotFound));
    let native = "x".parse::<i32>().unwrap_err();
    let r = Err(Error::wrap(format!("{:?}", native)));
    assert_eq!(r, Err(Error::Error(String::from("ParseIntError { kind: InvalidDigit }"))));
    assert_eq!(
        boundary(&r),
        Outcome::Raise(Raise::Failure("ParseIntError { kind: InvalidDigit }"))
    );
}

#[test]
fn a_panic_reaches_ocaml_with_its_message() {
    let mut arena = Arena::new();
    assert_eq!(panic_raise(&arena, Some("boom")), Raise::Failure("boom"));
    assert_eq!(panic_raise(&arena, None), Raise::Failure("rust panic"));
    let exn = Value::alloc_block(&mut arena, 1, 0);
    arena.register("Rust_exception", exn);
    match panic_raise(&arena, Some("boom")) {
        Raise::WithMessage(e, m) => {
            assert_eq!(e, exn);
            assert!(m.contains("boom"));
        }
        other => panic!("{:?}", other),
    }
    assert_eq!(panic_message(None), "rust panic");
    assert_eq!(panic_message(Some("x")), "x");
}

#[test]
fn raising_by_name() {
    let mut arena = Arena::new();
    let exn = Value::alloc_block(&mut arena, 1, 0);
    assert_eq!(
        Error::raise(&arena, "My_exn"),
        Err(Error::Message("Value has not been registered with the OCaml runtime"))
    );
    arena.register("My_exn", exn);
    assert_eq!(Error::raise(&arena, "My_exn"), Err(Error::Caml(CamlError::Exception(exn))));
    assert_eq!(
        Error::raise_with_arg(&mut arena, "My_exn", 2isize),
        Err(Error::Caml(CamlError::WithArg(exn, Value(5))))
    );
    match Error::raise_with_arg(&mut arena, "My_exn", Some(7isize)) {
        Err(Error::Caml(CamlError::WithArg(e, a))) => {
            assert_eq!(e, exn);
            assert_eq!(a.field(&arena, 0), Value(15));
        }
        other => panic!("{:?}", other),
    }
    let before = Value::alloc_tuple(&mut arena, 1);
    assert_eq!(
        Error::raise_with_arg(&mut arena, "none", Some(7isize)),
        Err(Error::Message("Value has not been registered with the OCaml runtime"))
    );
    let after = Value::alloc_tuple(&mut arena, 1);
    assert_eq!(after.0 - before.0, 4);
    assert_eq!(Error::named(&arena, "My_exn"), Some(exn));
    assert_eq!(Error::raise_failure("f"), Raise::Failure("f"));
    assert_eq!(Error::raise_value(exn, "m"), Raise::WithMessage(exn, "m"));
}

#[test]
fn every_exception_has_its_own_primitive() {
    let e = Value(8);
    let a = Value(3);
    assert_eq!(CamlError::NotFound.to_raise(), Raise::NotFound);
    assert_eq!(CamlError::Failure("f").to_raise(), Raise::Failure("f"));
    assert_eq!(CamlError::InvalidArgument("i").to_raise(), Raise::InvalidArgument("i"));
    assert_eq!(CamlError::OutOfMemory.to_raise(), Raise::OutOfMemory);
    assert_eq!(CamlError::StackOverflow.to_raise(), Raise::StackOverflow);
    assert_eq!(CamlError::SysError("s").to_raise(), Raise::SysError("s"));
    assert_eq!(CamlError::EndOfFile.to_raise(), Raise::EndOfFile);
    assert_eq!(CamlError::ZeroDivide.to_raise(), Raise::ZeroDivide);
    assert_eq!(CamlError::ArrayBoundError.to_raise(), Raise::ArrayBoundError);
    assert_eq!(CamlError::SysBlockedIo.to_raise(), Raise::SysBlockedIo);
    assert_eq!(CamlError::Exception(e).to_raise(), Raise::Exception(e));
    assert_eq!(CamlError::WithArg(e, a).to_raise(), Raise::WithArg(e, a));
    assert_eq!(Error::Message("m").to_raise(), Raise::Failure("m"));
    assert_eq!(Error::from(CamlError::EndOfFile), Error::Caml(CamlError::EndOfFile));
}

#[test]
fn a_variant_name_hashes_to_an_immediate() {
    let mut arena = Arena::new();
    let a = Value::hash_variant(&mut arena, "A", None);
    assert_eq!(a, Value::val_int(65));
    let ab = Value::hash_variant(&mut arena, "AB", None);
    assert_eq!(ab, Value::val_int(223 * 65 + 66));
    let with = Value::hash_variant(&mut arena, "A", Some(Value(7)));
    assert!(with.is_block());
    assert_eq!(with.tag(&arena), 0);
    assert_eq!(with.field(&arena, 0), a);
    assert_eq!(with.field(&arena, 1), Value(7));
    let long = Value::hash_variant(&mut arena, "a_rather_long_name_of_a_variant", None);
    assert!(long.is_long());
    assert!(long.int_val() < (1 << 30) && long.int_val() >= -(1 << 30));
}

#[test]
fn what_is_no_object_has_no_method() {
    let mut arena = Arena::new();
    let tuple = Value::alloc_tuple(&mut arena, 1);
    assert_eq!(tuple.method(&arena, "m"), None);
    assert_eq!(Value::val_int(1).method(&arena, "m"), None);
    let object = Value::alloc_block(&mut arena, 2, tag::OBJECT);
    assert_eq!(object.method(&arena, "m"), None);
    assert_eq!(Value::method_result(Value(0)), None);
    assert_eq!(Value::method_result(tuple), Some(tuple));
}

#[test]
fn replies_are_given_last_first_and_once() {
    let mut arena = Arena::new();
    let closure = Value::alloc_block(&mut arena, 1, tag::CLOSURE);
    let block = Value::alloc_tuple(&mut arena, 1);
    let x = Value::unit();
    arena.push_reply(Value(5));
    arena.push_reply(block);
    arena.push_reply(Value(400));
    arena.push_reply(Value(402));
    assert_eq!(closure.call(&mut arena, x), Ok(Value::unit()));
    assert_eq!(closure.call(&mut arena, x), Ok(Value::unit()));
    assert_eq!(closure.call(&mut arena, x), Ok(block));
    assert_eq!(closure.call(&mut arena, x), Ok(Value(5)));
    assert_eq!(closure.call(&mut arena, x), Ok(Value::unit()));
    assert_eq!(block.field(&arena, 0), Value::unit());
}

#[test]
fn what_is_no_closure_is_refused_before_the_arguments_are_looked_at() {
    let mut arena = Arena::new();
    let tuple = Value::alloc_tuple(&mut arena, 1);
    arena.push_reply(Value(7));
    assert_eq!(tuple.call_n(&mut arena, &Vec::new()), Err(Error::NotCallable));
    assert_eq!(tuple.call_n(&mut arena, &vec![Value(400)]), Err(Error::NotCallable));
    assert_eq!(tuple.call(&mut arena, Value(400)), Err(Error::NotCallable));
    assert_eq!(Value(5).call_n(&mut arena, &Vec::new()), Err(Error::NotCallable));
    let closure = Value::alloc_block(&mut arena, 1, tag::CLOSURE);
    assert_eq!(closure.call2(&mut arena, Value(1), Value(3)), Ok(Value(7)));
}
