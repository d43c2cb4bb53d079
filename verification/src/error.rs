//! Errors, and how each one leaves native code as an OCaml exception.
//!
//! Nothing here raises. [`Error::to_raise`] names the primitive of the runtime
//! that raises an error and what is handed to it; [`boundary`] decides what
//! an exported function does with its result. The outermost frame of an
//! exported function performs what they say.

use crate::conv::{Encoded, ToValue};
use crate::runtime::{extends, Checked, Runtime};
use crate::sys;
use crate::value::Value;
use vstd::prelude::*;
use vstd::std_specs::convert::FromSpecImpl;

verus! {

/// Errors that have an exception of their own in OCaml.
#[derive(Debug, PartialEq, Eq)]
pub enum CamlError {
    /// `Not_found`
    NotFound,
    /// `Failure`
    Failure(&'static str),
    /// `Invalid_argument`
    InvalidArgument(&'static str),
    /// `Out_of_memory`
    OutOfMemory,
    /// `Stack_overflow`
    StackOverflow,
    /// `Sys_error`
    SysError(&'static str),
    /// `End_of_file`
    EndOfFile,
    /// `Division_by_zero`
    ZeroDivide,
    /// An index out of bounds
    ArrayBoundError,
    /// `Sys_blocked_io`
    SysBlockedIo,
    /// An exception value that exists already
    Exception(Value),
    /// An exception and its argument
    WithArg(Value, Value),
}

/// What can go wrong in this crate and in the code that uses it.
#[derive(Debug, PartialEq, Eq)]
pub enum Error {
    /// The value is no closure, so it cannot be called
    NotCallable,
    /// The accessor is not the one for what the array holds: unboxed
    /// doubles were asked of an array of values, or values of an array of
    /// unboxed doubles
    NotDoubleArray,
    /// An error message
    Message(&'static str),
    /// A native error, kept as the text that describes it
    Error(String),
    /// An OCaml exception
    Caml(CamlError),
}

/// The primitive of the runtime that raises an error, with what it is given.
#[derive(Debug, PartialEq, Eq)]
pub enum Raise<'a> {
    /// `caml_raise`, on an exception value
    Exception(Value),
    /// `caml_raise_not_found`
    NotFound,
    /// `caml_array_bound_error`
    ArrayBoundError,
    /// `caml_raise_out_of_memory`
    OutOfMemory,
    /// `caml_raise_end_of_file`
    EndOfFile,
    /// `caml_raise_stack_overflow`
    StackOverflow,
    /// `caml_raise_zero_divide`
    ZeroDivide,
    /// `caml_raise_sys_blocked_io`
    SysBlockedIo,
    /// `caml_invalid_argument`, with the message
    InvalidArgument(&'a str),
    /// `caml_raise_with_arg`, on an exception and its argument
    WithArg(Value, Value),
    /// `caml_raise_sys_error`, with the message as an OCaml string
    SysError(&'a str),
    /// `caml_failwith`, with the message
    Failure(&'a str),
    /// `caml_raise_with_arg`, on an exception and the message as an OCaml
    /// string
    WithMessage(Value, &'a str),
}

/// What an exported function does when its body is done.
#[derive(Debug, PartialEq, Eq)]
pub enum Outcome<'a> {
    /// Return the value to OCaml
    Return(Value),
    /// Raise an exception in OCaml
    Raise(Raise<'a>),
}

/// A [`Raise`] with its message as a sequence of characters.
pub ghost enum RaiseView {
    Exception(Value),
    NotFound,
    ArrayBoundError,
    OutOfMemory,
    EndOfFile,
    StackOverflow,
    ZeroDivide,
    SysBlockedIo,
    InvalidArgument(Seq<char>),
    WithArg(Value, Value),
    SysError(Seq<char>),
    Failure(Seq<char>),
    WithMessage(Value, Seq<char>),
}

/// An [`Outcome`] with its message as a sequence of characters.
pub ghost enum OutcomeView {
    Return(Value),
    Raise(RaiseView),
}

impl<'a> View for Raise<'a> {
    type V = RaiseView;

    open spec fn view(&self) -> RaiseView {
        match *self {
            Raise::Exception(e) => RaiseView::Exception(e),
            Raise::NotFound => RaiseView::NotFound,
            Raise::ArrayBoundError => RaiseView::ArrayBoundError,
            Raise::OutOfMemory => RaiseView::OutOfMemory,
            Raise::EndOfFile => RaiseView::EndOfFile,
            Raise::StackOverflow => RaiseView::StackOverflow,
            Raise::ZeroDivide => RaiseView::ZeroDivide,
            Raise::SysBlockedIo => RaiseView::SysBlockedIo,
            Raise::InvalidArgument(s) => RaiseView::InvalidArgument(s@),
            Raise::WithArg(e, a) => RaiseView::WithArg(e, a),
            Raise::SysError(s) => RaiseView::SysError(s@),
            Raise::Failure(s) => RaiseView::Failure(s@),
            Raise::WithMessage(e, s) => RaiseView::WithMessage(e, s@),
        }
    }
}

impl<'a> View for Outcome<'a> {
    type V = OutcomeView;

    open spec fn view(&self) -> OutcomeView {
        match *self {
            Outcome::Return(v) => OutcomeView::Return(v),
            Outcome::Raise(r) => OutcomeView::Raise(r@),
        }
    }
}

/// The message of an error that asks for a name that OCaml has not
/// registered.
pub open spec fn unregistered() -> &'static str {
    "Value has not been registered with the OCaml runtime"
}

/// The name under which OCaml registers the exception that stands for a
/// native panic.
pub open spec fn panic_exception() -> &'static str {
    "Rust_exception"
}

/// The message of a panic whose payload is no text.
pub open spec fn panic_default() -> &'static str {
    "rust panic"
}

impl From<CamlError> for Error {
    fn from(x: CamlError) -> (e: Error) {
        Error::Caml(x)
    }
}

impl FromSpecImpl<CamlError> for Error {
    open spec fn obeys_from_spec() -> bool {
        true
    }

    open spec fn from_spec(x: CamlError) -> Error {
        Error::Caml(x)
    }
}

impl CamlError {
    /// The primitive that raises this exception.
    pub open spec fn raise_of(self) -> RaiseView {
        match self {
            CamlError::NotFound => RaiseView::NotFound,
            CamlError::Failure(s) => RaiseView::Failure(s@),
            CamlError::InvalidArgument(s) => RaiseView::InvalidArgument(s@),
            CamlError::OutOfMemory => RaiseView::OutOfMemory,
            CamlError::StackOverflow => RaiseView::StackOverflow,
            CamlError::SysError(s) => RaiseView::SysError(s@),
            CamlError::EndOfFile => RaiseView::EndOfFile,
            CamlError::ZeroDivide => RaiseView::ZeroDivide,
            CamlError::ArrayBoundError => RaiseView::ArrayBoundError,
            CamlError::SysBlockedIo => RaiseView::SysBlockedIo,
            CamlError::Exception(e) => RaiseView::Exception(e),
            CamlError::WithArg(e, a) => RaiseView::WithArg(e, a),
        }
    }

    /// The primitive that raises this exception: each kind has its own, so
    /// that OCaml code can match on the exception it knows.
    pub fn to_raise(&self) -> (r: Raise<'static>)
        ensures
            r@ == self.raise_of(),
    {
        match self {
            CamlError::NotFound => Raise::NotFound,
            CamlError::Failure(s) => Raise::Failure(*s),
            CamlError::InvalidArgument(s) => Raise::InvalidArgument(*s),
            CamlError::OutOfMemory => Raise::OutOfMemory,
            CamlError::StackOverflow => Raise::StackOverflow,
            CamlError::SysError(s) => Raise::SysError(*s),
            CamlError::EndOfFile => Raise::EndOfFile,
            CamlError::ZeroDivide => Raise::ZeroDivide,
            CamlError::ArrayBoundError => Raise::ArrayBoundError,
            CamlError::SysBlockedIo => Raise::SysBlockedIo,
            CamlError::Exception(e) => Raise::Exception(*e),
            CamlError::WithArg(e, a) => Raise::WithArg(*e, *a),
        }
    }
}

impl Error {
    /// The error that raises the exception `exc` again, as it is.
    pub fn reraise(exc: Value) -> (r: Result<(), Error>)
        ensures
            r == Err::<(), Error>(Error::Caml(CamlError::Exception(exc))),
    {
        Err(Error::Caml(CamlError::Exception(exc)))
    }

    /// The error that raises the exception that OCaml registered under the
    /// name `exc`; where there is none, an error that says so.
    pub fn raise<R: Runtime>(rt: &R, exc: &str) -> (r: Result<(), Error>)
        requires
            rt.wf(),
        ensures
            r == Err::<(), Error>(
                match Value::named_in(rt.names(), exc@) {
                    Some(v) => Error::Caml(CamlError::Exception(v)),
                    None => Error::Message(unregistered()),
                },
            ),
    {
        match Value::named(rt, exc) {
            Some(v) => Err(Error::Caml(CamlError::Exception(v))),
            None => Err(Error::Message("Value has not been registered with the OCaml runtime")),
        }
    }

    /// The error that raises the exception registered under the name `exc`
    /// with `arg` as its argument; where there is none, an error that says
    /// so, and `arg` is not encoded.
    pub fn raise_with_arg<R: Runtime, T: ToValue>(rt: &mut R, exc: &str, arg: T) -> (r: Result<
        (),
        Error,
    >)
        requires
            old(rt).wf(),
            arg.fits(old(rt).heap()),
        ensures
            final(rt).wf(),
            final(rt).names() == old(rt).names(),
            final(rt).roots() == old(rt).roots(),
            extends(old(rt).heap(), final(rt).heap()),
            match Value::named_in(old(rt).names(), exc@) {
                Some(v) => exists|x: Value|
                    {
                        &&& r == Err::<(), Error>(Error::Caml(CamlError::WithArg(v, x)))
                        &&& T::decode(final(rt).heap(), x) == Some(arg.deep_view())
                    },
                None => r == Err::<(), Error>(Error::Message(unregistered())) && *final(rt) == *old(
                    rt,
                ),
            },
    {
        match Value::named(rt, exc) {
            Some(v) => {
                let x = arg.to_value(rt);
                let r = Err(Error::Caml(CamlError::WithArg(v, x)));
                assert(r == Err::<(), Error>(Error::Caml(CamlError::WithArg(v, x))));
                r
            },
            None => Err(Error::Message("Value has not been registered with the OCaml runtime")),
        }
    }

    /// The error that raises `Not_found`.
    pub fn not_found() -> (r: Result<(), Error>)
        ensures
            r == Err::<(), Error>(Error::Caml(CamlError::NotFound)),
    {
        Err(Error::Caml(CamlError::NotFound))
    }

    /// The error that raises `Out_of_memory`.
    pub fn out_of_memory() -> (r: Result<(), Error>)
        ensures
            r == Err::<(), Error>(Error::Caml(CamlError::OutOfMemory)),
    {
        Err(Error::Caml(CamlError::OutOfMemory))
    }

    /// The error that raises `Failure` with the message `s`.
    pub fn failwith(s: &'static str) -> (r: Result<(), Error>)
        ensures
            r == Err::<(), Error>(Error::Caml(CamlError::Failure(s))),
    {
        Err(Error::Caml(CamlError::Failure(s)))
    }

    /// The error that raises `Invalid_argument` with the message `s`.
    pub fn invalid_argument(s: &'static str) -> (r: Result<(), Error>)
        ensures
            r == Err::<(), Error>(Error::Caml(CamlError::InvalidArgument(s))),
    {
        Err(Error::Caml(CamlError::InvalidArgument(s)))
    }

    /// How a failure with the message `s` is raised.
    pub fn raise_failure<'a>(s: &'a str) -> (r: Raise<'a>)
        ensures
            r@ == RaiseView::Failure(s@),
    {
        Raise::Failure(s)
    }

    /// How the exception `v` is raised with the message `s` as its argument.
    pub fn raise_value<'a>(v: Value, s: &'a str) -> (r: Raise<'a>)
        ensures
            r@ == RaiseView::WithMessage(v, s@),
    {
        Raise::WithMessage(v, s)
    }

    /// The exception that OCaml registered under the name `s`.
    pub fn named<R: Runtime>(rt: &R, s: &str) -> (r: Option<Value>)
        requires
            rt.wf(),
        ensures
            r == Value::named_in(rt.names(), s@),
    {
        Value::named(rt, s)
    }

    /// The error that stands for a native error of which `text` is the
    /// description.
    pub fn wrap(text: String) -> (e: Error)
        ensures
            e == Error::Error(text),
    {
        Error::Error(text)
    }

    /// The primitive that raises this error.
    pub open spec fn raise_of(&self) -> RaiseView {
        match self {
            Error::Caml(c) => c.raise_of(),
            Error::Message(s) => RaiseView::Failure(s@),
            Error::Error(text) => RaiseView::Failure(text@),
            Error::NotDoubleArray => RaiseView::Failure("invalid double array"@),
            Error::NotCallable => RaiseView::Failure("value is not callable"@),
        }
    }

    /// The primitive that raises this error. An OCaml exception goes out
    /// through the primitive of its kind; every other error is a `Failure`
    /// with a message.
    pub fn to_raise(&self) -> (r: Raise<'_>)
        ensures
            r@ == self.raise_of(),
    {
        match self {
            Error::Caml(c) => c.to_raise(),
            Error::Message(s) => Raise::Failure(*s),
            Error::Error(text) => Raise::Failure(text.as_str()),
            Error::NotDoubleArray => Raise::Failure("invalid double array"),
            Error::NotCallable => Raise::Failure("value is not callable"),
        }
    }
}

/// The message of a panic: the text of its payload, or a fixed text where the
/// payload is none.
pub fn panic_message<'a>(payload: Option<&'a str>) -> (m: &'a str)
    ensures
        m@ == panic_message_of(payload),
{
    match payload {
        Some(s) => s,
        None => "rust panic",
    }
}

/// How a native panic with the payload `payload` reaches OCaml: as the
/// exception registered for native panics, with the message as its argument,
/// or, where none is registered, as a `Failure` with the message.
pub fn panic_raise<'a, R: Runtime>(rt: &R, payload: Option<&'a str>) -> (r: Raise<'a>)
    requires
        rt.wf(),
    ensures
        r@ == (match Value::named_in(rt.names(), panic_exception()@) {
            Some(exc) => RaiseView::WithMessage(exc, panic_message_of(payload)),
            None => RaiseView::Failure(panic_message_of(payload)),
        }),
{
    let msg = panic_message(payload);
    match Value::named(rt, "Rust_exception") {
        Some(exc) => Error::raise_value(exc, msg),
        None => Error::raise_failure(msg),
    }
}

/// The message of a panic with the payload `payload`.
pub open spec fn panic_message_of(payload: Option<&str>) -> Seq<char> {
    match payload {
        Some(s) => s@,
        None => panic_default()@,
    }
}

/// What an exported function does with the result of its body. A value goes
/// back to OCaml, unless it carries the mark of a callback that raised: then
/// the exception under the mark is raised again, as it is. An error is raised
/// through the primitive of its kind.
pub fn boundary<'a>(result: &'a Result<Value, Error>) -> (o: Outcome<'a>)
    ensures
        o@ == outcome_of(result),
{
    match result {
        Ok(v) => match v.exception() {
            Some(exc) => Outcome::Raise(Raise::Exception(exc)),
            None => Outcome::Return(*v),
        },
        Err(e) => Outcome::Raise(e.to_raise()),
    }
}

/// What an exported function does with the result of its body.
pub open spec fn outcome_of(result: &Result<Value, Error>) -> OutcomeView {
    match result {
        Ok(v) => if v.exceptional() {
            OutcomeView::Raise(RaiseView::Exception(Value(sys::clear_mark(v.0))))
        } else {
            OutcomeView::Return(*v)
        },
        Err(e) => OutcomeView::Raise(e.raise_of()),
    }
}

} // verus!
