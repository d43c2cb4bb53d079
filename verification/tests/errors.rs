use ocaml::error::{boundary, CamlError, Error, Outcome, Raise};
use ocaml::value::Value;

#[test]
fn constructors_give_their_exception() {
    assert_eq!(Error::not_found(), Err(Error::Caml(CamlError::NotFound)));
    assert_eq!(Error::out_of_memory(), Err(Error::Caml(CamlError::OutOfMemory)));
    assert_eq!(Error::failwith("no"), Err(Error::Caml(CamlError::Failure("no"))));
    assert_eq!(
        Error::invalid_argument("bad"),
        Err(Error::Caml(CamlError::InvalidArgument("bad")))
    );
}

#[test]
fn each_error_has_its_primitive() {
    assert_eq!(Error::Caml(CamlError::NotFound).to_raise(), Raise::NotFound);
    assert_eq!(Error::Caml(CamlError::OutOfMemory).to_raise(), Raise::OutOfMemory);
    assert_eq!(Error::Caml(CamlError::ArrayBoundError).to_raise(), Raise::ArrayBoundError);
    assert_eq!(Error::NotCallable.to_raise(), Raise::Failure("value is not callable"));
    assert_eq!(Error::NotDoubleArray.to_raise(), Raise::Failure("invalid double array"));
}

#[test]
fn boundary_returns_a_plain_value() {
    let r = Ok(Value::val_int(7));
    assert_eq!(boundary(&r), Outcome::Return(Value(15)));
}
