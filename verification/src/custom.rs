//! Custom blocks: blocks of the OCaml heap that hold native data.
//!
//! A custom block starts with the address of a table of operations, among
//! them the finalizer that the collector calls once when the block is no
//! longer reachable. Addresses are carried as plain numbers here: what is at
//! them is native code, which this crate never calls.

use crate::header::max_wosize;
use crate::number::allocated;
use crate::conv::{Encoded, FromValue, ToValue};
use crate::runtime::{custom_wosize, valid, word_bytes, Block, Checked, Runtime};
use crate::tag::CUSTOM;
use crate::value::Value;
use core::marker::PhantomData;
use vstd::prelude::*;

verus! {

/// A native type that can live in a custom block.
pub trait Custom {
    /// The address of the table of operations of the type.
    ///
    /// The three spec functions of the trait have a body only so that the
    /// trait can be implemented outside verified code, where a spec
    /// function cannot be written. Such a type inherits the bodies, and
    /// nothing is proved of it. Of a type that is not known no body is
    /// assumed.
    open spec fn ops_of() -> usize {
        0
    }

    /// How much of a resource one value of the type stands for.
    open spec fn used_of() -> usize {
        0
    }

    /// How much of the resource may be held before the collector is asked
    /// to run.
    open spec fn max_of() -> usize {
        1
    }

    /// The address of the table of operations of the type.
    fn ops() -> (r: usize)
        ensures
            r == Self::ops_of(),
    ;

    /// How much of a resource one value of the type stands for.
    fn used() -> (r: usize)
        ensures
            r == Self::used_of(),
    ;

    /// How much of the resource may be held before the collector is asked
    /// to run.
    fn max() -> (r: usize)
        ensures
            r == Self::max_of(),
    ;
}

/// The two numbers that the collector is told for a finalized block: those
/// given, or none used out of one.
pub open spec fn hints_of(cfg: Option<(usize, usize)>) -> (usize, usize) {
    match cfg {
        Some(p) => p,
        None => (0, 1),
    }
}

/// Whether `v` is a custom block of the heap `h` for `size` bytes of data,
/// with `address` at its head and the numbers `used` and `max` for the
/// collector.
pub open spec fn custom_block(
    h: Map<Value, Block>,
    v: Value,
    address: usize,
    size: usize,
    used: usize,
    max: usize,
) -> bool {
    &&& h.contains_key(v)
    &&& h[v].tag == CUSTOM
    &&& h[v].fields.len() == custom_wosize(size as nat)
    &&& h[v].boxed == address
    &&& h[v].cells == seq![used as u64, max as u64]
}

/// The two numbers that the collector is told for a finalized block.
pub fn final_hints(cfg: Option<(usize, usize)>) -> (r: (usize, usize))
    ensures
        r == hints_of(cfg),
{
    match cfg {
        Some(p) => p,
        None => (0, 1),
    }
}

impl Value {
    /// A new block for `size` bytes of native data, on which the collector
    /// calls the function at the address `finalizer`.
    pub fn alloc_final<R: Runtime>(
        rt: &mut R,
        size: usize,
        finalizer: usize,
        cfg: Option<(usize, usize)>,
    ) -> (v: Value)
        requires
            old(rt).wf(),
            size / (word_bytes() as usize) + 2 <= max_wosize(),
        ensures
            final(rt).wf(),
            allocated(old(rt).heap(), final(rt).heap(), v),
            custom_block(
                final(rt).heap(),
                v,
                finalizer,
                size,
                hints_of(cfg).0,
                hints_of(cfg).1,
            ),
            final(rt).names() == old(rt).names(),
            final(rt).roots() == old(rt).roots(),
    {
        let (used, max) = final_hints(cfg);
        let v = rt.caml_alloc_final(size, finalizer, used, max);
        assert(rt.heap().dom().contains(v));
        v
    }

    /// A new custom block for `size` bytes of native data of the type `T`.
    pub fn alloc_custom<T: Custom, R: Runtime>(rt: &mut R, size: usize) -> (v: Value)
        requires
            old(rt).wf(),
            size / (word_bytes() as usize) + 2 <= max_wosize(),
        ensures
            final(rt).wf(),
            allocated(old(rt).heap(), final(rt).heap(), v),
            custom_block(final(rt).heap(), v, T::ops_of(), size, T::used_of(), T::max_of()),
            final(rt).names() == old(rt).names(),
            final(rt).roots() == old(rt).roots(),
    {
        let v = rt.caml_alloc_custom(T::ops(), size, T::used(), T::max());
        assert(rt.heap().dom().contains(v));
        v
    }
}

/// A native value of the type `T` that lives in a custom block of the OCaml
/// heap.
pub struct Pointer<T> {
    value: Value,
    marker: PhantomData<T>,
}

impl<T> Clone for Pointer<T> {
    fn clone(&self) -> (r: Self)
        ensures
            r == *self,
    {
        Pointer { value: self.value, marker: PhantomData }
    }
}

impl<T> Copy for Pointer<T> {

}

impl<T> View for Pointer<T> {
    type V = Value;

    closed spec fn view(&self) -> Value {
        self.value
    }
}

impl<T> Pointer<T> {
    /// The pointer whose value is `v`.
    pub fn from_raw(v: Value) -> (p: Pointer<T>)
        ensures
            p@ == v,
    {
        Pointer { value: v, marker: PhantomData }
    }

    /// The value of the pointer.
    pub fn raw(&self) -> (v: Value)
        ensures
            v == self@,
    {
        self.value
    }

    /// A new block for `size` bytes of native data. The collector calls the
    /// function at the address `finalizer` on it, or, where none is given,
    /// the function that does nothing, which stands at the address 0.
    pub fn alloc_final<R: Runtime>(
        rt: &mut R,
        size: usize,
        finalizer: Option<usize>,
        used_max: Option<(usize, usize)>,
    ) -> (p: Pointer<T>)
        requires
            old(rt).wf(),
            size / (word_bytes() as usize) + 2 <= max_wosize(),
        ensures
            final(rt).wf(),
            allocated(old(rt).heap(), final(rt).heap(), p@),
            custom_block(
                final(rt).heap(),
                p@,
                match finalizer {
                    Some(f) => f,
                    None => 0,
                },
                size,
                hints_of(used_max).0,
                hints_of(used_max).1,
            ),
            final(rt).names() == old(rt).names(),
            final(rt).roots() == old(rt).roots(),
    {
        let v = match finalizer {
            Some(f) => Value::alloc_final(rt, size, f, used_max),
            None => Value::alloc_final(rt, size, 0, used_max),
        };
        Pointer { value: v, marker: PhantomData }
    }

    /// A new custom block for `size` bytes of native data of the type `T`.
    pub fn alloc_custom<R: Runtime>(rt: &mut R, size: usize) -> (p: Pointer<T>) where T: Custom
        requires
            old(rt).wf(),
            size / (word_bytes() as usize) + 2 <= max_wosize(),
        ensures
            final(rt).wf(),
            allocated(old(rt).heap(), final(rt).heap(), p@),
            custom_block(final(rt).heap(), p@, T::ops_of(), size, T::used_of(), T::max_of()),
            final(rt).names() == old(rt).names(),
            final(rt).roots() == old(rt).roots(),
    {
        Pointer { value: Value::alloc_custom::<T, R>(rt, size), marker: PhantomData }
    }
}

impl<T> DeepView for Pointer<T> {
    type V = Value;

    open spec fn deep_view(&self) -> Value {
        self@
    }
}

impl<T> Encoded for Pointer<T> {
    open spec fn fits(&self, h: Map<Value, Block>) -> bool {
        valid(h, self@)
    }

    open spec fn decode(h: Map<Value, Block>, v: Value) -> Option<Value> {
        if valid(h, v) {
            Some(v)
        } else {
            None
        }
    }

    open spec fn reads(h: Map<Value, Block>, v: Value, b: Value) -> bool {
        false
    }

    proof fn lemma_fits_grows(&self, h: Map<Value, Block>, g: Map<Value, Block>) {
    }

    proof fn lemma_decode_frame(h: Map<Value, Block>, g: Map<Value, Block>, v: Value) {
    }

    proof fn lemma_decode_valid(h: Map<Value, Block>, v: Value) {
    }
}

impl<T> ToValue for Pointer<T> {
    fn to_value<R: Runtime>(&self, rt: &mut R) -> (v: Value)
        ensures
            *final(rt) == *old(rt),
    {
        self.value
    }
}

impl<T> FromValue for Pointer<T> {
    fn from_value<R: Runtime>(rt: &R, v: Value) -> (x: Pointer<T>) {
        Pointer { value: v, marker: PhantomData }
    }
}

} // verus!
