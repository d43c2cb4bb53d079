//! The tagged word that stands for every OCaml value.

use crate::runtime::{Checked, Runtime};
use crate::sys;
use vstd::prelude::*;
use vstd::string::StrSliceExecFns;

verus! {

/// An OCaml value: one machine word, which is either an immediate integer
/// (lowest bit set) or the address of a block (lowest bit clear).
#[derive(Clone, Copy, Debug, PartialEq, Eq, PartialOrd, Structural)]
pub struct Value(pub isize);

/// Whether the integer `i` can be held in an immediate word.
pub open spec fn fixnum(i: int) -> bool {
    isize::MIN <= 2 * i + 1 <= isize::MAX
}

/// The word that encodes the integer `i`: twice `i` plus one, where the top
/// bit of `i` is lost if `i` is no fixnum.
pub open spec fn int_word(i: isize) -> isize {
    vstd::wrapping::isize_specs::wrapping_add(
        vstd::wrapping::isize_specs::wrapping_add(i, i),
        1isize,
    )
}

/// A word splits into its lowest bit and the rest; an exception mark sits two
/// above the word it was put on, which is a block address.
pub proof fn lemma_word_parts(v: isize)
    ensures
        v == 2 * (v >> 1) + (v & 1),
        v & 1 == 0 || v & 1 == 1,
        sys::exception_mark(v) ==> sys::low_bit_clear(v) && sys::clear_mark(v) + 2 == v
            && sys::low_bit_clear(sys::clear_mark(v)) && !sys::exception_mark(sys::clear_mark(v)),
        sys::low_bit_clear(v) && isize::MIN <= v + 2 <= isize::MAX && v & 3 == 0 ==> {
            &&& sys::exception_mark((v + 2) as isize)
            &&& sys::clear_mark((v + 2) as isize) == v
        },
{
    assert(v == 2 * (v >> 1) + (v & 1)) by (bit_vector);
    assert(v & 1 == 0 || v & 1 == 1) by (bit_vector);
    assert((v & 3 == 2) ==> (v & 1 == 0) && (v & !3) + 2 == v && (v & !3) & 1 == 0 && (v & !3) & 3
        != 2) by (bit_vector);
    let w = (v + 2) as isize;
    if v & 3 == 0 && isize::MIN <= v + 2 <= isize::MAX {
        assert(v & 3 == 0 && w == v + 2 ==> w & 3 == 2 && w & !3 == v) by (bit_vector);
    }
}

/// Whether the text holds the character NUL, which no name that is handed to
/// the runtime may hold.
pub fn has_nul(s: &str) -> (r: bool)
    ensures
        r == s@.contains('\0'),
{
    let n = s.unicode_len();
    let mut i: usize = 0;
    while i < n
        invariant
            n == s@.len(),
            i <= n,
            forall|j: int| 0 <= j < i ==> s@[j] != '\0',
        decreases n - i,
    {
        if s.get_char(i) == '\0' {
            return true;
        }
        i += 1;
    }
    false
}

impl Value {
    /// Whether the word is an immediate integer.
    pub open spec fn immediate(self) -> bool {
        !sys::low_bit_clear(self.0)
    }

    /// The integer that an immediate word encodes: the word shifted right by
    /// one bit, sign kept.
    pub open spec fn int_of(self) -> isize {
        self.0 >> 1
    }

    /// Whether the word carries the mark of a callback that raised.
    pub open spec fn exceptional(self) -> bool {
        sys::exception_mark(self.0)
    }

    /// The value from the raw word `v`.
    pub fn new(v: isize) -> (r: Value)
        ensures
            r.0 == v,
    {
        Value(v)
    }

    /// The OCaml value `None`.
    pub fn none() -> (r: Value)
        ensures
            r.0 == 1,
            r.immediate(),
            r.int_of() == 0,
    {
        proof {
            lemma_word_parts(1);
        }
        Value(1)
    }

    /// The OCaml value `()`.
    pub fn unit() -> (r: Value)
        ensures
            r.0 == 1,
            r.immediate(),
            r.int_of() == 0,
    {
        proof {
            lemma_word_parts(1);
        }
        Value(1)
    }

    /// The immediate word for the integer `i`.
    pub fn val_int(i: isize) -> (r: Value)
        ensures
            r.0 == int_word(i),
            r.immediate(),
            fixnum(i as int) ==> r.0 == 2 * i + 1 && r.int_of() == i,
    {
        let w: isize = i.wrapping_add(i).wrapping_add(1);
        proof {
            lemma_word_parts(w);
        }
        Value(w)
    }

    /// The immediate word for the unsigned integer `i`, read as a signed word.
    pub fn uint(i: usize) -> (r: Value)
        ensures
            r.0 == int_word(i as isize),
            r.immediate(),
            fixnum(i as int) ==> r.0 == 2 * i + 1 && r.int_of() == i,
    {
        Value::val_int(i as isize)
    }

    /// The immediate word for a boolean: `true` is the integer 1, `false` the
    /// integer 0.
    pub fn bool(b: bool) -> (r: Value)
        ensures
            r.0 == (if b { 3isize } else { 1isize }),
            r.immediate(),
            r.int_of() == (if b { 1isize } else { 0isize }),
    {
        if b {
            Value::val_int(1)
        } else {
            Value::val_int(0)
        }
    }

    /// Whether the value is the address of a block.
    pub fn is_block(self) -> (r: bool)
        ensures
            r == !self.immediate(),
    {
        sys::is_block(self.0)
    }

    /// Whether the value is an immediate integer.
    pub fn is_long(self) -> (r: bool)
        ensures
            r == self.immediate(),
    {
        sys::is_long(self.0)
    }

    /// The integer that the word encodes.
    pub fn int_val(self) -> (r: isize)
        ensures
            r == self.int_of(),
            self.immediate() ==> self.0 == 2 * r + 1,
            !self.immediate() ==> self.0 == 2 * r,
    {
        proof {
            lemma_word_parts(self.0);
        }
        self.0 >> 1
    }

    /// The value that OCaml registered under `name`. There is none under a
    /// name that holds the character NUL.
    pub fn named<R: Runtime>(rt: &R, name: &str) -> (r: Option<Value>)
        requires
            rt.wf(),
        ensures
            r == Self::named_in(rt.names(), name@),
    {
        if has_nul(name) {
            return None;
        }
        rt.caml_named_value(name)
    }

    /// The value registered under `name` in `names`, if the name holds no
    /// NUL and is registered.
    pub open spec fn named_in(names: Map<Seq<char>, Value>, name: Seq<char>) -> Option<Value> {
        if !name.contains('\0') && names.contains_key(name) {
            Some(names[name])
        } else {
            None
        }
    }

    /// Whether the value is what a callback returns when the closure raised.
    pub fn is_exception_result(self) -> (r: bool)
        ensures
            r == self.exceptional(),
    {
        sys::is_exception_result(self.0)
    }

    /// The exception that a callback raised, if the value is marked as one.
    pub fn exception(self) -> (r: Option<Value>)
        ensures
            r == (if self.exceptional() {
                Some(Value(sys::clear_mark(self.0)))
            } else {
                None
            }),
    {
        if !self.is_exception_result() {
            return None;
        }
        Some(Value(sys::extract_exception(self.0)))
    }
}

/// Decoding an immediate that was encoded from a fixnum gives the integer
/// back, and encoding what an immediate decodes to gives the word back.
pub proof fn lemma_int_round_trip(i: isize, v: Value)
    ensures
        fixnum(i as int) ==> Value(int_word(i)).int_of() == i,
        v.immediate() ==> fixnum(v.int_of() as int) && int_word(v.int_of()) == v.0,
{
    lemma_word_parts(int_word(i));
    lemma_word_parts(v.0);
}

} // verus!
