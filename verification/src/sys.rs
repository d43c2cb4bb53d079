//! The word-level predicates of `ocaml-sys`, with the contracts this crate
//! relies on.

use vstd::prelude::*;

verus! {

/// `true` when the lowest bit of the word is clear.
pub open spec fn low_bit_clear(v: isize) -> bool {
    v & 1 == 0
}

/// `true` when the two lowest bits of the word are `10`, the mark the runtime
/// puts on the result of a callback that raised.
pub open spec fn exception_mark(v: isize) -> bool {
    v & 3 == 2
}

/// The word with its two lowest bits cleared.
pub open spec fn clear_mark(v: isize) -> isize {
    v & !3
}

/// Calls `ocaml_sys::is_block`, which tests that the lowest bit of the word is
/// zero.
#[verifier::external_body]
pub(crate) fn is_block(v: isize) -> (r: bool)
    ensures
        r == low_bit_clear(v),
{
    ocaml_sys::is_block(v)
}

/// Calls `ocaml_sys::is_long`, which tests that the lowest bit of the word is
/// set.
#[verifier::external_body]
pub(crate) fn is_long(v: isize) -> (r: bool)
    ensures
        r == !low_bit_clear(v),
{
    ocaml_sys::is_long(v)
}

/// Calls `ocaml_sys::is_exception_result`, which tests that the two lowest
/// bits of the word are `10`.
#[verifier::external_body]
pub(crate) fn is_exception_result(v: isize) -> (r: bool)
    ensures
        r == exception_mark(v),
{
    ocaml_sys::is_exception_result(v)
}

/// Calls `ocaml_sys::extract_exception`, which clears the two lowest bits of
/// the word.
#[verifier::external_body]
pub(crate) fn extract_exception(v: isize) -> (r: isize)
    ensures
        r == clear_mark(v),
{
    ocaml_sys::extract_exception(v)
}

} // verus!
