use ocaml::arena::Arena;
use ocaml::array::Array;
use ocaml::error::{CamlError, Error};

#[test]
fn set_then_get_gives_the_element() {
    let mut arena = Arena::new();
    let mut a: Array<isize> = Array::alloc_array(&mut arena, 3);
    assert_eq!(a.len(&arena), 3);
    assert!(!a.is_empty(&arena));
    assert_eq!(a.set(&mut arena, 0, 11), Ok(()));
    assert_eq!(a.set(&mut arena, 2, -4), Ok(()));
    assert_eq!(a.get(&arena, 0), Ok(11));
    assert_eq!(a.get(&arena, 1), Ok(0));
    assert_eq!(a.get(&arena, 2), Ok(-4));
    assert_eq!(a.to_vec(&arena), vec![11, 0, -4]);
}

#[test]
fn an_index_from_the_length_on_is_refused() {
    let mut arena = Arena::new();
    let mut a: Array<isize> = Array::alloc_array(&mut arena, 2);
    a.set(&mut arena, 0, 1).unwrap();
    a.set(&mut arena, 1, 2).unwrap();
    for k in 0..5 {
        let i = 2 + k;
        assert_eq!(a.get(&arena, i), Err(Error::Caml(CamlError::ArrayBoundError)));
        assert_eq!(a.set(&mut arena, i, 9), Err(Error::Caml(CamlError::ArrayBoundError)));
    }
    assert_eq!(a.to_vec(&arena), vec![1, 2]);
}

#[test]
fn an_empty_array_refuses_every_index() {
    let mut arena = Arena::new();
    let mut a: Array<isize> = Array::alloc_array(&mut arena, 0);
    assert!(a.is_empty(&arena));
    assert_eq!(a.get(&arena, 0), Err(Error::Caml(CamlError::ArrayBoundError)));
    assert_eq!(a.set(&mut arena, 0, 1), Err(Error::Caml(CamlError::ArrayBoundError)));
}

#[test]
fn a_new_double_array_is_a_double_array() {
    let mut arena = Arena::new();
    let mut a: Array<isize> = Array::alloc_double_array(&mut arena, 2);
    assert!(a.is_double_array(&arena));
    assert_eq!(a.len(&arena), 2);
    assert_eq!(a.set_double(&mut arena, 0, 1.5f64.to_bits()), Ok(()));
    assert_eq!(a.set_double(&mut arena, 1, (-0.25f64).to_bits()), Ok(()));
    assert_eq!(a.get_double(&arena, 0).map(f64::from_bits), Ok(1.5));
    assert_eq!(a.get_double(&arena, 1).map(f64::from_bits), Ok(-0.25));
    assert_eq!(a.get_double(&arena, 2), Err(Error::Caml(CamlError::ArrayBoundError)));
}

#[test]
fn each_kind_of_array_refuses_the_accessor_of_the_other() {
    let mut arena = Arena::new();
    let mut boxed: Array<isize> = Array::alloc_array(&mut arena, 1);
    assert!(!boxed.is_double_array(&arena));
    assert_eq!(boxed.get_double(&arena, 0), Err(Error::NotDoubleArray));
    assert_eq!(boxed.set_double(&mut arena, 0, 0), Err(Error::NotDoubleArray));
    assert_eq!(boxed.get(&arena, 0), Ok(0));

    let mut doubles: Array<isize> = Array::alloc_double_array(&mut arena, 1);
    doubles.set_double(&mut arena, 0, 2.0f64.to_bits()).unwrap();
    assert_eq!(doubles.get(&arena, 0), Err(Error::NotDoubleArray));
    assert_eq!(doubles.set(&mut arena, 0, 3), Err(Error::NotDoubleArray));
    assert_eq!(doubles.get_double(&arena, 0).map(f64::from_bits), Ok(2.0));
}
