//! Boxed numbers: integers of a fixed size and doubles, each in a block of
//! its own.

use crate::bigarray::Float64;
use crate::conv::{Encoded, FromValue, ToValue};
use crate::runtime::{extends, lemma_address, Block, Checked, Runtime};
use crate::tag::{CUSTOM, DOUBLE};
use crate::value::Value;
use vstd::prelude::*;

verus! {

/// Whether `v` is a new block of `g`, the heap `h` with that one block more.
pub open spec fn allocated(h: Map<Value, Block>, g: Map<Value, Block>, v: Value) -> bool {
    &&& extends(h, g)
    &&& g.dom() == h.dom().insert(v)
    &&& !h.contains_key(v)
}

/// Whether `v` is a boxed integer of the heap `h` that holds `i`.
pub open spec fn boxed_int(h: Map<Value, Block>, v: Value, i: int) -> bool {
    h.contains_key(v) && h[v].tag == CUSTOM && h[v].boxed == i
}

/// Whether `v` is a boxed double of the heap `h` with the bits `bits`.
pub open spec fn boxed_double(h: Map<Value, Block>, v: Value, bits: u64) -> bool {
    h.contains_key(v) && h[v].tag == DOUBLE && h[v].boxed == bits
}

impl Value {
    /// A new boxed 64-bit integer that holds `i`.
    pub fn int64<R: Runtime>(rt: &mut R, i: i64) -> (v: Value)
        requires
            old(rt).wf(),
        ensures
            final(rt).wf(),
            allocated(old(rt).heap(), final(rt).heap(), v),
            boxed_int(final(rt).heap(), v, i as int),
            final(rt).names() == old(rt).names(),
            final(rt).roots() == old(rt).roots(),
    {
        let v = rt.caml_copy_int64(i);
        assert(rt.heap().dom().contains(v));
        v
    }

    /// A new boxed 32-bit integer that holds `i`.
    pub fn int32<R: Runtime>(rt: &mut R, i: i32) -> (v: Value)
        requires
            old(rt).wf(),
        ensures
            final(rt).wf(),
            allocated(old(rt).heap(), final(rt).heap(), v),
            boxed_int(final(rt).heap(), v, i as int),
            final(rt).names() == old(rt).names(),
            final(rt).roots() == old(rt).roots(),
    {
        let v = rt.caml_copy_int32(i);
        assert(rt.heap().dom().contains(v));
        v
    }

    /// A new boxed integer of the size of a word that holds `i`.
    pub fn nativeint<R: Runtime>(rt: &mut R, i: isize) -> (v: Value)
        requires
            old(rt).wf(),
        ensures
            final(rt).wf(),
            allocated(old(rt).heap(), final(rt).heap(), v),
            boxed_int(final(rt).heap(), v, i as int),
            final(rt).names() == old(rt).names(),
            final(rt).roots() == old(rt).roots(),
    {
        let v = rt.caml_copy_nativeint(i);
        assert(rt.heap().dom().contains(v));
        v
    }

    /// A new boxed double with the bits `bits`.
    pub fn float<R: Runtime>(rt: &mut R, bits: u64) -> (v: Value)
        requires
            old(rt).wf(),
        ensures
            final(rt).wf(),
            allocated(old(rt).heap(), final(rt).heap(), v),
            boxed_double(final(rt).heap(), v, bits),
            final(rt).names() == old(rt).names(),
            final(rt).roots() == old(rt).roots(),
    {
        let v = rt.caml_copy_double(bits);
        assert(rt.heap().dom().contains(v));
        v
    }

    /// The integer in a boxed 64-bit integer.
    pub fn int64_val<R: Runtime>(self, rt: &R) -> (i: i64)
        requires
            rt.wf(),
            exists|x: i64| boxed_int(rt.heap(), self, x as int),
        ensures
            boxed_int(rt.heap(), self, i as int),
    {
        rt.int64_val(self)
    }

    /// The integer in a boxed 32-bit integer.
    pub fn int32_val<R: Runtime>(self, rt: &R) -> (i: i32)
        requires
            rt.wf(),
            exists|x: i32| boxed_int(rt.heap(), self, x as int),
        ensures
            boxed_int(rt.heap(), self, i as int),
    {
        rt.int32_val(self)
    }

    /// The integer in a boxed integer of the size of a word.
    pub fn nativeint_val<R: Runtime>(self, rt: &R) -> (i: isize)
        requires
            rt.wf(),
            exists|x: isize| boxed_int(rt.heap(), self, x as int),
        ensures
            boxed_int(rt.heap(), self, i as int),
    {
        rt.nativeint_val(self)
    }

    /// The bits of a boxed double.
    pub fn float_val<R: Runtime>(self, rt: &R) -> (bits: u64)
        requires
            rt.wf(),
            rt.heap().contains_key(self),
            rt.heap()[self].tag == DOUBLE,
        ensures
            boxed_double(rt.heap(), self, bits),
    {
        rt.double_val(self)
    }
}

impl DeepView for Float64 {
    type V = Float64;

    open spec fn deep_view(&self) -> Float64 {
        *self
    }
}

impl Encoded for Float64 {
    open spec fn fits(&self, h: Map<Value, Block>) -> bool {
        true
    }

    open spec fn decode(h: Map<Value, Block>, v: Value) -> Option<Float64> {
        if h.contains_key(v) && !v.immediate() && h[v].tag == DOUBLE && 0 <= h[v].boxed
            <= u64::MAX {
            Some(Float64(h[v].boxed as u64))
        } else {
            None
        }
    }

    open spec fn reads(h: Map<Value, Block>, v: Value, b: Value) -> bool {
        b == v
    }

    proof fn lemma_fits_grows(&self, h: Map<Value, Block>, g: Map<Value, Block>) {
    }

    proof fn lemma_decode_frame(h: Map<Value, Block>, g: Map<Value, Block>, v: Value) {
        assert(h.contains_key(v));
        assert(Self::reads(h, v, v));
    }

    proof fn lemma_decode_valid(h: Map<Value, Block>, v: Value) {
    }
}

impl ToValue for Float64 {
    fn to_value<R: Runtime>(&self, rt: &mut R) -> (v: Value) {
        let v = Value::float(rt, self.0);
        proof {
            rt.lemma_wf();
            lemma_address(rt.heap(), v);
        }
        v
    }
}

impl FromValue for Float64 {
    fn from_value<R: Runtime>(rt: &R, v: Value) -> (x: Float64) {
        Float64(v.float_val(rt))
    }
}

} // verus!
