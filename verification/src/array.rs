//! OCaml arrays.
//!
//! An array is a block. Either each field holds a value, or, in a double
//! array, each field holds the bits of an unboxed double. The two kinds are
//! told apart by the tag of the block, and each has its own accessors.

use crate::conv::{Encoded, FromValue, ToValue};
use crate::error::{CamlError, Error};
use crate::header::max_wosize;
use crate::runtime::{array_len, extends, fresh_fields, plain, valid, Block, Checked, Runtime};
use crate::tag::DOUBLE_ARRAY;
use crate::value::Value;
use core::marker::PhantomData;
use vstd::prelude::*;

verus! {

/// The heap `h` with field `i` of the block `a` set to `x`.
pub open spec fn with_field(h: Map<Value, Block>, a: Value, i: int, x: Value) -> Map<Value, Block> {
    h.insert(a, Block { fields: h[a].fields.update(i, x), ..h[a] })
}

/// The heap `h` with double `i` of the double array `a` set to `bits`.
pub open spec fn with_double(h: Map<Value, Block>, a: Value, i: int, bits: u64) -> Map<
    Value,
    Block,
> {
    h.insert(a, Block { cells: h[a].cells.update(i, bits), ..h[a] })
}

/// An OCaml array of values of `T`. The array is a value of the OCaml heap:
/// nothing is copied.
pub struct Array<T> {
    value: Value,
    marker: PhantomData<T>,
}

impl<T> Clone for Array<T> {
    fn clone(&self) -> (r: Self)
        ensures
            r == *self,
    {
        Array { value: self.value, marker: PhantomData }
    }
}

impl<T> Copy for Array<T> {

}

impl<T> View for Array<T> {
    type V = Value;

    closed spec fn view(&self) -> Value {
        self.value
    }
}

impl<T> Array<T> {
    /// Whether the array is a block of the heap `h`.
    pub open spec fn wf(&self, h: Map<Value, Block>) -> bool {
        h.contains_key(self@)
    }

    /// The number of elements of the array in the heap `h`.
    pub open spec fn length(&self, h: Map<Value, Block>) -> nat {
        array_len(h[self@])
    }

    /// Whether the array holds unboxed doubles in the heap `h`.
    pub open spec fn double(&self, h: Map<Value, Block>) -> bool {
        h[self@].tag == DOUBLE_ARRAY
    }

    /// The array whose value is `v`.
    pub fn from_raw(v: Value) -> (a: Array<T>)
        ensures
            a@ == v,
    {
        Array { value: v, marker: PhantomData }
    }

    /// The value of the array.
    pub fn raw(&self) -> (v: Value)
        ensures
            v == self@,
    {
        self.value
    }

    /// An array of `n` elements, each of them `()`.
    pub fn alloc_array<R: Runtime>(rt: &mut R, n: usize) -> (a: Array<T>)
        requires
            old(rt).wf(),
            n <= max_wosize(),
        ensures
            final(rt).wf(),
            extends(old(rt).heap(), final(rt).heap()),
            final(rt).heap().dom() == old(rt).heap().dom().insert(a@),
            final(rt).heap()[a@] == plain(0, fresh_fields(n as nat)),
            old(rt).heap().contains_key(a@) ==> n == 0,
            final(rt).names() == old(rt).names(),
            final(rt).roots() == old(rt).roots(),
    {
        Array { value: Value::alloc_tuple(rt, n), marker: PhantomData }
    }

    /// A new array of `n` unboxed doubles, whose bits are not set yet.
    pub fn alloc_double_array<R: Runtime>(rt: &mut R, n: usize) -> (a: Array<T>)
        requires
            old(rt).wf(),
            1 <= n,
            2 * n <= max_wosize(),
        ensures
            final(rt).wf(),
            extends(old(rt).heap(), final(rt).heap()),
            final(rt).heap().dom() == old(rt).heap().dom().insert(a@),
            !old(rt).heap().contains_key(a@),
            a.wf(final(rt).heap()),
            a.double(final(rt).heap()),
            a.length(final(rt).heap()) == n,
            final(rt).names() == old(rt).names(),
            final(rt).roots() == old(rt).roots(),
    {
        let v = rt.caml_alloc_float_array(n);
        assert(rt.heap().dom().contains(v));
        Array { value: v, marker: PhantomData }
    }

    /// Whether the array holds unboxed doubles, which `get_double` and
    /// `set_double` read and write.
    pub fn is_double_array<R: Runtime>(&self, rt: &R) -> (r: bool)
        requires
            rt.wf(),
            self.wf(rt.heap()),
        ensures
            r == self.double(rt.heap()),
    {
        self.value.tag(rt) == DOUBLE_ARRAY
    }

    /// The number of elements of the array.
    pub fn len<R: Runtime>(&self, rt: &R) -> (n: usize)
        requires
            rt.wf(),
            self.wf(rt.heap()),
        ensures
            n == self.length(rt.heap()),
    {
        self.value.array_length(rt)
    }

    /// Whether the array has no element.
    pub fn is_empty<R: Runtime>(&self, rt: &R) -> (r: bool)
        requires
            rt.wf(),
            self.wf(rt.heap()),
        ensures
            r == (self.length(rt.heap()) == 0),
    {
        self.len(rt) == 0
    }

    /// Writes the bits of a double to element `i` of a double array. An
    /// index that is not below the length is refused first, then an array
    /// that holds no unboxed doubles; a refusal writes nothing.
    pub fn set_double<R: Runtime>(&mut self, rt: &mut R, i: usize, bits: u64) -> (r: Result<
        (),
        Error,
    >)
        requires
            old(rt).wf(),
            old(self).wf(old(rt).heap()),
        ensures
            *final(self) == *old(self),
            final(rt).wf(),
            r == (if i >= old(self).length(old(rt).heap()) {
                Err::<(), Error>(Error::Caml(CamlError::ArrayBoundError))
            } else if !old(self).double(old(rt).heap()) {
                Err::<(), Error>(Error::NotDoubleArray)
            } else {
                Ok::<(), Error>(())
            }),
            r is Err ==> *final(rt) == *old(rt),
            r is Ok ==> final(rt).heap() == with_double(old(rt).heap(), old(self)@, i as int, bits)
                && final(rt).names() == old(rt).names() && final(rt).roots() == old(rt).roots(),
    {
        if i >= self.len(rt) {
            return Err(Error::Caml(CamlError::ArrayBoundError));
        }
        if !self.is_double_array(rt) {
            return Err(Error::NotDoubleArray);
        }
        self.set_double_unchecked(rt, i, bits);
        Ok(())
    }

    /// Writes the bits of a double to element `i` of a double array, which
    /// has more than `i` elements.
    pub fn set_double_unchecked<R: Runtime>(&mut self, rt: &mut R, i: usize, bits: u64)
        requires
            old(rt).wf(),
            old(self).wf(old(rt).heap()),
            old(self).double(old(rt).heap()),
            i < old(self).length(old(rt).heap()),
        ensures
            *final(self) == *old(self),
            final(rt).wf(),
            final(rt).heap() == with_double(old(rt).heap(), old(self)@, i as int, bits),
            final(rt).names() == old(rt).names(),
            final(rt).roots() == old(rt).roots(),
    {
        rt.store_double_field(self.value, i, bits);
    }

    /// The bits of the double that is element `i` of a double array. An
    /// index that is not below the length is refused first, then an array
    /// that holds no unboxed doubles.
    pub fn get_double<R: Runtime>(self, rt: &R, i: usize) -> (r: Result<u64, Error>)
        requires
            rt.wf(),
            self.wf(rt.heap()),
        ensures
            r == (if i >= self.length(rt.heap()) {
                Err::<u64, Error>(Error::Caml(CamlError::ArrayBoundError))
            } else if !self.double(rt.heap()) {
                Err::<u64, Error>(Error::NotDoubleArray)
            } else {
                Ok::<u64, Error>(rt.heap()[self@].cells[i as int])
            }),
    {
        if i >= self.len(rt) {
            return Err(Error::Caml(CamlError::ArrayBoundError));
        }
        if !self.is_double_array(rt) {
            return Err(Error::NotDoubleArray);
        }
        Ok(self.get_double_unchecked(rt, i))
    }

    /// The bits of the double that is element `i` of a double array, which
    /// has more than `i` elements.
    pub fn get_double_unchecked<R: Runtime>(self, rt: &R, i: usize) -> (bits: u64)
        requires
            rt.wf(),
            self.wf(rt.heap()),
            self.double(rt.heap()),
            i < self.length(rt.heap()),
        ensures
            bits == rt.heap()[self@].cells[i as int],
    {
        rt.double_field(self.value, i)
    }
}

impl<T: Encoded> Array<T> {
    /// The elements of the array in the heap `h`, if the array is a block of
    /// values there and each of them encodes a value of `T`.
    pub open spec fn items(&self, h: Map<Value, Block>) -> Option<Seq<T::V>> {
        if self.wf(h) && !self.double(h) && forall|i: int|
            0 <= i < self.length(h) ==> T::decode(h, #[trigger] h[self@].fields[i]) is Some {
            Some(Seq::new(self.length(h), |i: int| T::decode(h, h[self@].fields[i])->0))
        } else {
            None
        }
    }

    /// Writes `v` to element `i`. An index that is not below the length is
    /// refused first, then a double array; a refusal writes nothing and
    /// allocates nothing. Otherwise `v` is encoded, which may allocate, and
    /// stored; no other element and no other block changes.
    pub fn set<R: Runtime>(&mut self, rt: &mut R, i: usize, v: T) -> (r: Result<(), Error>) where
        T: ToValue,

        requires
            old(rt).wf(),
            old(self).wf(old(rt).heap()),
            v.fits(old(rt).heap()),
        ensures
            *final(self) == *old(self),
            final(rt).wf(),
            r == (if i >= old(self).length(old(rt).heap()) {
                Err::<(), Error>(Error::Caml(CamlError::ArrayBoundError))
            } else if old(self).double(old(rt).heap()) {
                Err::<(), Error>(Error::NotDoubleArray)
            } else {
                Ok::<(), Error>(())
            }),
            r is Err ==> *final(rt) == *old(rt),
            r is Ok ==> stored::<T>(old(rt).heap(), final(rt).heap(), old(self)@, i as int, v),
            final(rt).names() == old(rt).names(),
            final(rt).roots() == old(rt).roots(),
    {
        if i >= self.len(rt) {
            return Err(Error::Caml(CamlError::ArrayBoundError));
        }
        if self.is_double_array(rt) {
            return Err(Error::NotDoubleArray);
        }
        self.set_unchecked(rt, i, v);
        Ok(())
    }

    /// Writes `v` to element `i` of an array of values that has more than `i`
    /// elements.
    pub fn set_unchecked<R: Runtime>(&mut self, rt: &mut R, i: usize, v: T) where T: ToValue
        requires
            old(rt).wf(),
            old(self).wf(old(rt).heap()),
            !old(self).double(old(rt).heap()),
            i < old(self).length(old(rt).heap()),
            v.fits(old(rt).heap()),
        ensures
            *final(self) == *old(self),
            final(rt).wf(),
            stored::<T>(old(rt).heap(), final(rt).heap(), old(self)@, i as int, v),
            final(rt).names() == old(rt).names(),
            final(rt).roots() == old(rt).roots(),
    {
        let ghost h0 = rt.heap();
        let x = v.to_value(rt);
        let ghost h1 = rt.heap();
        proof {
            T::lemma_decode_valid(h1, x);
            assert(h0.contains_key(self@));
        }
        self.value.store_field(rt, i, x);
        proof {
            let h2 = rt.heap();
            assert(h2 == with_field(h1, self@, i as int, x));
            T::lemma_decode_valid(h1, x);
            assert forall|b: Value| #[trigger] T::reads(h1, x, b) implies h2[b] == h1[b] by {
                assert(!T::reads(h1, x, self@));
            }
            T::lemma_decode_frame(h1, h2, x);
        }
    }

    /// Element `i` of the array. An index that is not below the length is
    /// refused first, then a double array.
    pub fn get<R: Runtime>(&self, rt: &R, i: usize) -> (r: Result<T, Error>) where T: FromValue
        requires
            rt.wf(),
            self.wf(rt.heap()),
            i < self.length(rt.heap()) && !self.double(rt.heap()) ==> T::decode(
                rt.heap(),
                rt.heap()[self@].fields[i as int],
            ) is Some,
        ensures
            i >= self.length(rt.heap()) ==> r == Err::<T, Error>(
                Error::Caml(CamlError::ArrayBoundError),
            ),
            i < self.length(rt.heap()) && self.double(rt.heap()) ==> r == Err::<T, Error>(
                Error::NotDoubleArray,
            ),
            i < self.length(rt.heap()) && !self.double(rt.heap()) ==> r is Ok && Some(
                r->Ok_0.deep_view(),
            ) == T::decode(rt.heap(), rt.heap()[self@].fields[i as int]),
    {
        if i >= self.len(rt) {
            return Err(Error::Caml(CamlError::ArrayBoundError));
        }
        if self.is_double_array(rt) {
            return Err(Error::NotDoubleArray);
        }
        Ok(self.get_unchecked(rt, i))
    }

    /// Element `i` of an array of values that has more than `i` elements.
    pub fn get_unchecked<R: Runtime>(&self, rt: &R, i: usize) -> (x: T) where T: FromValue
        requires
            rt.wf(),
            self.wf(rt.heap()),
            !self.double(rt.heap()),
            i < self.length(rt.heap()),
            T::decode(rt.heap(), rt.heap()[self@].fields[i as int]) is Some,
        ensures
            Some(x.deep_view()) == T::decode(rt.heap(), rt.heap()[self@].fields[i as int]),
    {
        T::from_value(rt, self.value.field(rt, i))
    }

    /// The elements of the array, first to last.
    pub fn to_vec<R: Runtime>(&self, rt: &R) -> (r: Vec<T>) where T: FromValue
        requires
            rt.wf(),
            self.items(rt.heap()) is Some,
        ensures
            r.deep_view() == self.items(rt.heap())->0,
    {
        let ghost h = rt.heap();
        let n = self.len(rt);
        let mut out: Vec<T> = Vec::new();
        let mut i: usize = 0;
        while i < n
            invariant
                rt.wf(),
                h == rt.heap(),
                self.items(h) is Some,
                n == self.length(h),
                i <= n,
                out.deep_view().len() == i,
                forall|j: int| 0 <= j < i ==> out.deep_view()[j] == self.items(h)->0[j],
            decreases n - i,
        {
            let ghost before = out.deep_view();
            let x = self.get_unchecked(rt, i);
            out.push(x);
            proof {
                assert(out.deep_view() =~= before.push(x.deep_view()));
            }
            i += 1;
        }
        proof {
            assert(out.deep_view() =~= self.items(h)->0);
        }
        out
    }
}

/// What holds of the heap `g` after `v` was written to field `i` of the
/// block `a` of the heap `h`: the block has its tag and its other fields,
/// field `i` encodes `v`, and every other block of `h` is unchanged.
pub open spec fn stored<T: Encoded>(
    h: Map<Value, Block>,
    g: Map<Value, Block>,
    a: Value,
    i: int,
    v: T,
) -> bool {
    &&& g.contains_key(a)
    &&& g[a].tag == h[a].tag
    &&& g[a].fields.len() == h[a].fields.len()
    &&& forall|j: int| 0 <= j < h[a].fields.len() && j != i ==> g[a].fields[j] == h[a].fields[j]
    &&& forall|b: Value| #[trigger] h.contains_key(b) && b != a ==> g.contains_key(b) && g[b] == h[b]
    &&& T::decode(g, g[a].fields[i]) == Some(v.deep_view())
}

impl<T> DeepView for Array<T> {
    type V = Value;

    open spec fn deep_view(&self) -> Value {
        self@
    }
}

impl<T> Encoded for Array<T> {
    open spec fn fits(&self, h: Map<Value, Block>) -> bool {
        valid(h, self@)
    }

    open spec fn decode(h: Map<Value, Block>, v: Value) -> Option<Value> {
        if valid(h, v) {
            Some(v)
        } else {
            None
        }
    }

    open spec fn reads(h: Map<Value, Block>, v: Value, b: Value) -> bool {
        false
    }

    proof fn lemma_fits_grows(&self, h: Map<Value, Block>, g: Map<Value, Block>) {
    }

    proof fn lemma_decode_frame(h: Map<Value, Block>, g: Map<Value, Block>, v: Value) {
    }

    proof fn lemma_decode_valid(h: Map<Value, Block>, v: Value) {
    }
}

impl<T> ToValue for Array<T> {
    fn to_value<R: Runtime>(&self, rt: &mut R) -> (v: Value)
        ensures
            *final(rt) == *old(rt),
    {
        self.value
    }
}

impl<T> FromValue for Array<T> {
    fn from_value<R: Runtime>(rt: &R, v: Value) -> (x: Array<T>) {
        Array { value: v, marker: PhantomData }
    }
}

} // verus!
