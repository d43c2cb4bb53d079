//! Conversion between native values and OCaml values.
//!
//! Each type says, over the picture of the heap, what a word reads as. The
//! two directions are proved against that one statement, so that what was
//! written is what is read.

use crate::block::with_block;
use crate::runtime::{extends, lemma_address, valid, wf_heap, Block, Checked, Runtime};
use crate::value::{fixnum, lemma_int_round_trip, lemma_word_parts, Value};
use vstd::prelude::*;

verus! {

/// A type with an encoding as an OCaml value.
pub trait Encoded: DeepView + Sized {
    /// Whether the value can be encoded in the heap `h`: a number is in
    /// range, a value that it holds is usable in `h`.
    spec fn fits(&self, h: Map<Value, Block>) -> bool;

    /// What the word `v` reads as in the heap `h`, if it encodes a value of
    /// this type there.
    spec fn decode(h: Map<Value, Block>, v: Value) -> Option<Self::V>;

    /// What can be encoded in a heap can be encoded in a heap that holds
    /// the same blocks and more.
    proof fn lemma_fits_grows(&self, h: Map<Value, Block>, g: Map<Value, Block>)
        requires
            self.fits(h),
            extends(h, g),
        ensures
            self.fits(g),
    ;

    /// Whether reading the word `v` in the heap `h` looks into the block
    /// `b`.
    spec fn reads(h: Map<Value, Block>, v: Value, b: Value) -> bool;

    /// What a word reads as depends only on which blocks there are and on
    /// the blocks that reading it looks into.
    proof fn lemma_decode_frame(h: Map<Value, Block>, g: Map<Value, Block>, v: Value)
        requires
            Self::decode(h, v) is Some,
            forall|b: Value| #[trigger] h.contains_key(b) ==> g.contains_key(b),
            forall|b: Value| #[trigger] Self::reads(h, v, b) ==> g[b] == h[b],
        ensures
            Self::decode(g, v) == Self::decode(h, v),
            forall|b: Value| #[trigger] Self::reads(g, v, b) == Self::reads(h, v, b),
    ;

    /// A word that encodes a value is usable, and reading it looks into
    /// blocks of the heap only.
    proof fn lemma_decode_valid(h: Map<Value, Block>, v: Value)
        requires
            Self::decode(h, v) is Some,
        ensures
            valid(h, v),
            forall|b: Value| #[trigger] Self::reads(h, v, b) ==> h.contains_key(b),
    ;
}

/// What a word reads as does not change when the heap gets more blocks.
pub proof fn lemma_decode_grows<T: Encoded>(h: Map<Value, Block>, g: Map<Value, Block>, v: Value)
    requires
        T::decode(h, v) is Some,
        extends(h, g),
    ensures
        T::decode(g, v) == T::decode(h, v),
        forall|b: Value| #[trigger] T::reads(g, v, b) == T::reads(h, v, b),
{
    T::lemma_decode_valid(h, v);
    T::lemma_decode_frame(h, g, v);
}

/// A type whose values can be written to the OCaml heap.
pub trait ToValue: Encoded {
    /// The OCaml value that encodes `self`. It may allocate; the blocks that
    /// were there are unchanged.
    fn to_value<R: Runtime>(&self, rt: &mut R) -> (v: Value)
        requires
            old(rt).wf(),
            self.fits(old(rt).heap()),
        ensures
            final(rt).wf(),
            extends(old(rt).heap(), final(rt).heap()),
            final(rt).names() == old(rt).names(),
            final(rt).roots() == old(rt).roots(),
            Self::decode(final(rt).heap(), v) == Some(self.deep_view()),
            forall|b: Value| #[trigger]
                old(rt).heap().contains_key(b) ==> !Self::reads(final(rt).heap(), v, b),
    ;
}

/// A type whose values can be read from the OCaml heap.
pub trait FromValue: Encoded {
    /// The native value that `v` encodes.
    fn from_value<R: Runtime>(rt: &R, v: Value) -> (x: Self)
        requires
            rt.wf(),
            Self::decode(rt.heap(), v) is Some,
        ensures
            Some(x.deep_view()) == Self::decode(rt.heap(), v),
            x.fits(rt.heap()),
    ;
}

/// Reading gives back what was written, also after the heap has got more
/// blocks: if `v` encodes `x` in `h`, and `y` was read from `v` in a heap `g`
/// that holds the blocks of `h`, then `y` is `x`.
pub proof fn lemma_round_trip<T: Encoded>(
    x: T,
    y: T,
    h: Map<Value, Block>,
    g: Map<Value, Block>,
    v: Value,
)
    requires
        T::decode(h, v) == Some(x.deep_view()),
        extends(h, g),
        Some(y.deep_view()) == T::decode(g, v),
    ensures
        y.deep_view() == x.deep_view(),
{
    lemma_decode_grows::<T>(h, g, v);
}

impl DeepView for Value {
    type V = Value;

    open spec fn deep_view(&self) -> Value {
        *self
    }
}

impl Encoded for Value {
    open spec fn fits(&self, h: Map<Value, Block>) -> bool {
        valid(h, *self)
    }

    open spec fn decode(h: Map<Value, Block>, v: Value) -> Option<Value> {
        if valid(h, v) {
            Some(v)
        } else {
            None
        }
    }

    proof fn lemma_fits_grows(&self, h: Map<Value, Block>, g: Map<Value, Block>) {
    }

    open spec fn reads(h: Map<Value, Block>, v: Value, b: Value) -> bool {
        false
    }

    proof fn lemma_decode_frame(h: Map<Value, Block>, g: Map<Value, Block>, v: Value) {
    }

    proof fn lemma_decode_valid(h: Map<Value, Block>, v: Value) {
    }
}

impl ToValue for Value {
    fn to_value<R: Runtime>(&self, rt: &mut R) -> (v: Value)
        ensures
            *final(rt) == *old(rt),
    {
        *self
    }
}

impl FromValue for Value {
    fn from_value<R: Runtime>(rt: &R, v: Value) -> (x: Value) {
        v
    }
}

impl Encoded for isize {
    open spec fn fits(&self, h: Map<Value, Block>) -> bool {
        fixnum(*self as int)
    }

    open spec fn decode(h: Map<Value, Block>, v: Value) -> Option<isize> {
        if v.immediate() {
            Some(v.int_of())
        } else {
            None
        }
    }

    proof fn lemma_fits_grows(&self, h: Map<Value, Block>, g: Map<Value, Block>) {
    }

    open spec fn reads(h: Map<Value, Block>, v: Value, b: Value) -> bool {
        false
    }

    proof fn lemma_decode_frame(h: Map<Value, Block>, g: Map<Value, Block>, v: Value) {
    }

    proof fn lemma_decode_valid(h: Map<Value, Block>, v: Value) {
    }
}

impl ToValue for isize {
    fn to_value<R: Runtime>(&self, rt: &mut R) -> (v: Value)
        ensures
            *final(rt) == *old(rt),
    {
        Value::val_int(*self)
    }
}

impl FromValue for isize {
    fn from_value<R: Runtime>(rt: &R, v: Value) -> (x: isize) {
        proof {
            lemma_int_round_trip(0, v);
        }
        v.int_val()
    }
}

impl Encoded for i64 {
    open spec fn fits(&self, h: Map<Value, Block>) -> bool {
        fixnum(*self as int)
    }

    proof fn lemma_fits_grows(&self, h: Map<Value, Block>, g: Map<Value, Block>) {
    }

    open spec fn decode(h: Map<Value, Block>, v: Value) -> Option<i64> {
        if v.immediate() && i64::MIN <= v.int_of() <= i64::MAX {
            Some(v.int_of() as i64)
        } else {
            None
        }
    }

    open spec fn reads(h: Map<Value, Block>, v: Value, b: Value) -> bool {
        false
    }

    proof fn lemma_decode_frame(h: Map<Value, Block>, g: Map<Value, Block>, v: Value) {
    }

    proof fn lemma_decode_valid(h: Map<Value, Block>, v: Value) {
    }
}

impl ToValue for i64 {
    fn to_value<R: Runtime>(&self, rt: &mut R) -> (v: Value)
        ensures
            *final(rt) == *old(rt),
    {
        Value::val_int(*self as isize)
    }
}

impl FromValue for i64 {
    fn from_value<R: Runtime>(rt: &R, v: Value) -> (x: i64) {
        proof {
            lemma_int_round_trip(0, v);
        }
        v.int_val() as i64
    }
}

impl Encoded for i32 {
    open spec fn fits(&self, h: Map<Value, Block>) -> bool {
        fixnum(*self as int)
    }

    proof fn lemma_fits_grows(&self, h: Map<Value, Block>, g: Map<Value, Block>) {
    }

    open spec fn decode(h: Map<Value, Block>, v: Value) -> Option<i32> {
        if v.immediate() && i32::MIN <= v.int_of() <= i32::MAX {
            Some(v.int_of() as i32)
        } else {
            None
        }
    }

    open spec fn reads(h: Map<Value, Block>, v: Value, b: Value) -> bool {
        false
    }

    proof fn lemma_decode_frame(h: Map<Value, Block>, g: Map<Value, Block>, v: Value) {
    }

    proof fn lemma_decode_valid(h: Map<Value, Block>, v: Value) {
    }
}

impl ToValue for i32 {
    fn to_value<R: Runtime>(&self, rt: &mut R) -> (v: Value)
        ensures
            *final(rt) == *old(rt),
    {
        Value::val_int(*self as isize)
    }
}

impl FromValue for i32 {
    fn from_value<R: Runtime>(rt: &R, v: Value) -> (x: i32) {
        proof {
            lemma_int_round_trip(0, v);
        }
        v.int_val() as i32
    }
}

impl Encoded for bool {
    open spec fn fits(&self, h: Map<Value, Block>) -> bool {
        true
    }

    open spec fn decode(h: Map<Value, Block>, v: Value) -> Option<bool> {
        if v.immediate() {
            Some(v.int_of() != 0)
        } else {
            None
        }
    }

    proof fn lemma_fits_grows(&self, h: Map<Value, Block>, g: Map<Value, Block>) {
    }

    open spec fn reads(h: Map<Value, Block>, v: Value, b: Value) -> bool {
        false
    }

    proof fn lemma_decode_frame(h: Map<Value, Block>, g: Map<Value, Block>, v: Value) {
    }

    proof fn lemma_decode_valid(h: Map<Value, Block>, v: Value) {
    }
}

impl ToValue for bool {
    fn to_value<R: Runtime>(&self, rt: &mut R) -> (v: Value)
        ensures
            *final(rt) == *old(rt),
    {
        Value::bool(*self)
    }
}

impl FromValue for bool {
    fn from_value<R: Runtime>(rt: &R, v: Value) -> (x: bool) {
        v.int_val() != 0
    }
}

impl Encoded for () {
    open spec fn fits(&self, h: Map<Value, Block>) -> bool {
        true
    }

    open spec fn decode(h: Map<Value, Block>, v: Value) -> Option<()> {
        if v.immediate() {
            Some(())
        } else {
            None
        }
    }

    proof fn lemma_fits_grows(&self, h: Map<Value, Block>, g: Map<Value, Block>) {
    }

    open spec fn reads(h: Map<Value, Block>, v: Value, b: Value) -> bool {
        false
    }

    proof fn lemma_decode_frame(h: Map<Value, Block>, g: Map<Value, Block>, v: Value) {
    }

    proof fn lemma_decode_valid(h: Map<Value, Block>, v: Value) {
    }
}

impl ToValue for () {
    fn to_value<R: Runtime>(&self, rt: &mut R) -> (v: Value)
        ensures
            *final(rt) == *old(rt),
    {
        Value::unit()
    }
}

impl FromValue for () {
    fn from_value<R: Runtime>(rt: &R, v: Value) -> (x: ()) {
        ()
    }
}

/// What a block with the tag 0 and the fields `fields` reads as, where each
/// field is read by the type in its place: an OCaml tuple or record.
pub open spec fn is_tuple(h: Map<Value, Block>, v: Value, n: nat) -> bool {
    h.contains_key(v) && h[v].tag == 0 && h[v].fields.len() == n
}

impl<T: Encoded> Encoded for Option<T> {
    open spec fn fits(&self, h: Map<Value, Block>) -> bool {
        match self {
            Some(x) => x.fits(h),
            None => true,
        }
    }

    open spec fn decode(h: Map<Value, Block>, v: Value) -> Option<Option<T::V>> {
        if v == Value(1) {
            Some(None)
        } else if is_tuple(h, v, 1) && !v.immediate() {
            match T::decode(h, h[v].fields[0]) {
                Some(x) => Some(Some(x)),
                None => None,
            }
        } else {
            None
        }
    }

    proof fn lemma_fits_grows(&self, h: Map<Value, Block>, g: Map<Value, Block>) {
        match self {
            Some(x) => x.lemma_fits_grows(h, g),
            None => {},
        }
    }

    open spec fn reads(h: Map<Value, Block>, v: Value, b: Value) -> bool {
        v != Value(1) && (b == v || T::reads(h, h[v].fields[0], b))
    }

    proof fn lemma_decode_frame(h: Map<Value, Block>, g: Map<Value, Block>, v: Value) {
        if v != Value(1) {
            assert(h.contains_key(v));
            assert(Self::reads(h, v, v));
            assert forall|b: Value| #[trigger] T::reads(h, h[v].fields[0], b) implies g[b]
                == h[b] by {
                assert(Self::reads(h, v, b));
            }
            T::lemma_decode_frame(h, g, h[v].fields[0]);
        }
    }

    proof fn lemma_decode_valid(h: Map<Value, Block>, v: Value) {
        lemma_word_parts(1);
        if v != Value(1) {
            T::lemma_decode_valid(h, h[v].fields[0]);
        }
    }
}

impl<T: ToValue> ToValue for Option<T> {
    fn to_value<R: Runtime>(&self, rt: &mut R) -> (v: Value) {
        match self {
            Some(x) => {
                let inner = x.to_value(rt);
                let ghost mid = rt.heap();
                proof {
                    T::lemma_decode_valid(mid, inner);
                }
                let v = inner.some(rt);
                proof {
                    rt.lemma_wf();
                    lemma_address(rt.heap(), v);
                    lemma_word_parts(1);
                    assert(extends(mid, rt.heap()));
                    T::lemma_decode_valid(mid, inner);
                    lemma_decode_grows::<T>(mid, rt.heap(), inner);
                    assert(rt.heap()[v].fields[0] == inner);
                }
                v
            },
            None => Value::none(),
        }
    }
}

impl<T: FromValue> FromValue for Option<T> {
    fn from_value<R: Runtime>(rt: &R, v: Value) -> (x: Option<T>) {
        if v.0 == 1 {
            None
        } else {
            Some(T::from_value(rt, v.field(rt, 0)))
        }
    }
}

impl<A: Encoded, B: Encoded> Encoded for (A, B) {
    open spec fn fits(&self, h: Map<Value, Block>) -> bool {
        self.0.fits(h) && self.1.fits(h)
    }

    open spec fn decode(h: Map<Value, Block>, v: Value) -> Option<(A::V, B::V)> {
        if is_tuple(h, v, 2) && !v.immediate() {
            match (A::decode(h, h[v].fields[0]), B::decode(h, h[v].fields[1])) {
                (Some(a), Some(b)) => Some((a, b)),
                _ => None,
            }
        } else {
            None
        }
    }

    proof fn lemma_fits_grows(&self, h: Map<Value, Block>, g: Map<Value, Block>) {
        self.0.lemma_fits_grows(h, g);
        self.1.lemma_fits_grows(h, g);
    }

    open spec fn reads(h: Map<Value, Block>, v: Value, b: Value) -> bool {
        b == v || A::reads(h, h[v].fields[0], b) || B::reads(h, h[v].fields[1], b)
    }

    proof fn lemma_decode_frame(h: Map<Value, Block>, g: Map<Value, Block>, v: Value) {
        assert(h.contains_key(v));
        assert(Self::reads(h, v, v));
        assert forall|b: Value| #[trigger] A::reads(h, h[v].fields[0], b) implies g[b] == h[b] by {
            assert(Self::reads(h, v, b));
        }
        assert forall|b: Value| #[trigger] B::reads(h, h[v].fields[1], b) implies g[b] == h[b] by {
            assert(Self::reads(h, v, b));
        }
        A::lemma_decode_frame(h, g, h[v].fields[0]);
        B::lemma_decode_frame(h, g, h[v].fields[1]);
    }

    proof fn lemma_decode_valid(h: Map<Value, Block>, v: Value) {
        A::lemma_decode_valid(h, h[v].fields[0]);
        B::lemma_decode_valid(h, h[v].fields[1]);
    }
}

impl<A: ToValue, B: ToValue> ToValue for (A, B) {
    fn to_value<R: Runtime>(&self, rt: &mut R) -> (v: Value) {
        let ghost h0 = rt.heap();
        let a = self.0.to_value(rt);
        let ghost h1 = rt.heap();
        proof {
            self.1.lemma_fits_grows(h0, h1);
        }
        let b = self.1.to_value(rt);
        let ghost h2 = rt.heap();
        let mut fields: Vec<Value> = Vec::new();
        fields.push(a);
        fields.push(b);
        proof {
            lemma_decode_grows::<A>(h1, h2, a);
            A::lemma_decode_valid(h2, a);
            B::lemma_decode_valid(h2, b);
            assert(2usize <= !0usize >> 10) by (bit_vector);
        }
        let v = Value::block(rt, 0, &fields);
        proof {
            rt.lemma_wf();
            lemma_address(rt.heap(), v);
            assert(extends(h2, rt.heap()));
            lemma_decode_grows::<A>(h2, rt.heap(), a);
            lemma_decode_grows::<B>(h2, rt.heap(), b);
            assert(extends(h0, rt.heap()));
        }
        v
    }
}

impl<A: FromValue, B: FromValue> FromValue for (A, B) {
    fn from_value<R: Runtime>(rt: &R, v: Value) -> (x: (A, B)) {
        let a = A::from_value(rt, v.field(rt, 0));
        let b = B::from_value(rt, v.field(rt, 1));
        (a, b)
    }
}

impl<A: Encoded, B: Encoded, C: Encoded> Encoded for (A, B, C) {
    open spec fn fits(&self, h: Map<Value, Block>) -> bool {
        self.0.fits(h) && self.1.fits(h) && self.2.fits(h)
    }

    open spec fn decode(h: Map<Value, Block>, v: Value) -> Option<(A::V, B::V, C::V)> {
        if is_tuple(h, v, 3) && !v.immediate() {
            match (
                A::decode(h, h[v].fields[0]),
                B::decode(h, h[v].fields[1]),
                C::decode(h, h[v].fields[2]),
            ) {
                (Some(a), Some(b), Some(c)) => Some((a, b, c)),
                _ => None,
            }
        } else {
            None
        }
    }

    proof fn lemma_fits_grows(&self, h: Map<Value, Block>, g: Map<Value, Block>) {
        self.0.lemma_fits_grows(h, g);
        self.1.lemma_fits_grows(h, g);
        self.2.lemma_fits_grows(h, g);
    }

    open spec fn reads(h: Map<Value, Block>, v: Value, b: Value) -> bool {
        b == v || A::reads(h, h[v].fields[0], b) || B::reads(h, h[v].fields[1], b) || C::reads(
            h,
            h[v].fields[2],
            b,
        )
    }

    proof fn lemma_decode_frame(h: Map<Value, Block>, g: Map<Value, Block>, v: Value) {
        assert(h.contains_key(v));
        assert(Self::reads(h, v, v));
        assert forall|b: Value| #[trigger] A::reads(h, h[v].fields[0], b) implies g[b] == h[b] by {
            assert(Self::reads(h, v, b));
        }
        assert forall|b: Value| #[trigger] B::reads(h, h[v].fields[1], b) implies g[b] == h[b] by {
            assert(Self::reads(h, v, b));
        }
        assert forall|b: Value| #[trigger] C::reads(h, h[v].fields[2], b) implies g[b] == h[b] by {
            assert(Self::reads(h, v, b));
        }
        A::lemma_decode_frame(h, g, h[v].fields[0]);
        B::lemma_decode_frame(h, g, h[v].fields[1]);
        C::lemma_decode_frame(h, g, h[v].fields[2]);
    }

    proof fn lemma_decode_valid(h: Map<Value, Block>, v: Value) {
        A::lemma_decode_valid(h, h[v].fields[0]);
        B::lemma_decode_valid(h, h[v].fields[1]);
        C::lemma_decode_valid(h, h[v].fields[2]);
    }
}

impl<A: ToValue, B: ToValue, C: ToValue> ToValue for (A, B, C) {
    fn to_value<R: Runtime>(&self, rt: &mut R) -> (v: Value) {
        let ghost h0 = rt.heap();
        let a = self.0.to_value(rt);
        let ghost h1 = rt.heap();
        proof {
            self.1.lemma_fits_grows(h0, h1);
            self.2.lemma_fits_grows(h0, h1);
        }
        let b = self.1.to_value(rt);
        let ghost h2 = rt.heap();
        proof {
            self.2.lemma_fits_grows(h1, h2);
        }
        let c = self.2.to_value(rt);
        let ghost h3 = rt.heap();
        let mut fields: Vec<Value> = Vec::new();
        fields.push(a);
        fields.push(b);
        fields.push(c);
        proof {
            lemma_decode_grows::<A>(h1, h2, a);
            lemma_decode_grows::<A>(h2, h3, a);
            lemma_decode_grows::<B>(h2, h3, b);
            A::lemma_decode_valid(h3, a);
            B::lemma_decode_valid(h3, b);
            C::lemma_decode_valid(h3, c);
            assert(3usize <= !0usize >> 10) by (bit_vector);
        }
        let v = Value::block(rt, 0, &fields);
        proof {
            rt.lemma_wf();
            lemma_address(rt.heap(), v);
            assert(extends(h3, rt.heap()));
            lemma_decode_grows::<A>(h3, rt.heap(), a);
            lemma_decode_grows::<B>(h3, rt.heap(), b);
            lemma_decode_grows::<C>(h3, rt.heap(), c);
            assert(extends(h0, rt.heap()));
        }
        v
    }
}

impl<A: FromValue, B: FromValue, C: FromValue> FromValue for (A, B, C) {
    fn from_value<R: Runtime>(rt: &R, v: Value) -> (x: (A, B, C)) {
        let a = A::from_value(rt, v.field(rt, 0));
        let b = B::from_value(rt, v.field(rt, 1));
        let c = C::from_value(rt, v.field(rt, 2));
        (a, b, c)
    }
}

impl<A: Encoded, B: Encoded, C: Encoded, D: Encoded> Encoded for (A, B, C, D) {
    open spec fn fits(&self, h: Map<Value, Block>) -> bool {
        self.0.fits(h) && self.1.fits(h) && self.2.fits(h) && self.3.fits(h)
    }

    open spec fn decode(h: Map<Value, Block>, v: Value) -> Option<(A::V, B::V, C::V, D::V)> {
        if is_tuple(h, v, 4) && !v.immediate() {
            match (
                A::decode(h, h[v].fields[0]),
                B::decode(h, h[v].fields[1]),
                C::decode(h, h[v].fields[2]),
                D::decode(h, h[v].fields[3]),
            ) {
                (Some(a), Some(b), Some(c), Some(d)) => Some((a, b, c, d)),
                _ => None,
            }
        } else {
            None
        }
    }

    open spec fn reads(h: Map<Value, Block>, v: Value, b: Value) -> bool {
        b == v || A::reads(h, h[v].fields[0], b) || B::reads(h, h[v].fields[1], b) || C::reads(
            h,
            h[v].fields[2],
            b,
        ) || D::reads(h, h[v].fields[3], b)
    }

    proof fn lemma_fits_grows(&self, h: Map<Value, Block>, g: Map<Value, Block>) {
        self.0.lemma_fits_grows(h, g);
        self.1.lemma_fits_grows(h, g);
        self.2.lemma_fits_grows(h, g);
        self.3.lemma_fits_grows(h, g);
    }

    proof fn lemma_decode_frame(h: Map<Value, Block>, g: Map<Value, Block>, v: Value) {
        assert(h.contains_key(v));
        assert(Self::reads(h, v, v));
        assert forall|b: Value| #[trigger] A::reads(h, h[v].fields[0], b) implies g[b] == h[b] by {
            assert(Self::reads(h, v, b));
        }
        assert forall|b: Value| #[trigger] B::reads(h, h[v].fields[1], b) implies g[b] == h[b] by {
            assert(Self::reads(h, v, b));
        }
        assert forall|b: Value| #[trigger] C::reads(h, h[v].fields[2], b) implies g[b] == h[b] by {
            assert(Self::reads(h, v, b));
        }
        assert forall|b: Value| #[trigger] D::reads(h, h[v].fields[3], b) implies g[b] == h[b] by {
            assert(Self::reads(h, v, b));
        }
        A::lemma_decode_frame(h, g, h[v].fields[0]);
        B::lemma_decode_frame(h, g, h[v].fields[1]);
        C::lemma_decode_frame(h, g, h[v].fields[2]);
        D::lemma_decode_frame(h, g, h[v].fields[3]);
    }

    proof fn lemma_decode_valid(h: Map<Value, Block>, v: Value) {
        A::lemma_decode_valid(h, h[v].fields[0]);
        B::lemma_decode_valid(h, h[v].fields[1]);
        C::lemma_decode_valid(h, h[v].fields[2]);
        D::lemma_decode_valid(h, h[v].fields[3]);
    }
}

impl<A: ToValue, B: ToValue, C: ToValue, D: ToValue> ToValue for (A, B, C, D) {
    fn to_value<R: Runtime>(&self, rt: &mut R) -> (v: Value) {
        let ghost h0 = rt.heap();
        let a = self.0.to_value(rt);
        let ghost h1 = rt.heap();
        proof {
            self.1.lemma_fits_grows(h0, h1);
            self.2.lemma_fits_grows(h0, h1);
            self.3.lemma_fits_grows(h0, h1);
        }
        let b = self.1.to_value(rt);
        let ghost h2 = rt.heap();
        proof {
            self.2.lemma_fits_grows(h1, h2);
            self.3.lemma_fits_grows(h1, h2);
        }
        let c = self.2.to_value(rt);
        let ghost h3 = rt.heap();
        proof {
            self.3.lemma_fits_grows(h2, h3);
        }
        let d = self.3.to_value(rt);
        let ghost h4 = rt.heap();
        let mut fields: Vec<Value> = Vec::new();
        fields.push(a);
        fields.push(b);
        fields.push(c);
        fields.push(d);
        proof {
            lemma_decode_grows::<A>(h1, h2, a);
            lemma_decode_grows::<A>(h2, h3, a);
            lemma_decode_grows::<A>(h3, h4, a);
            lemma_decode_grows::<B>(h2, h3, b);
            lemma_decode_grows::<B>(h3, h4, b);
            lemma_decode_grows::<C>(h3, h4, c);
            A::lemma_decode_valid(h4, a);
            B::lemma_decode_valid(h4, b);
            C::lemma_decode_valid(h4, c);
            D::lemma_decode_valid(h4, d);
            assert(4usize <= !0usize >> 10) by (bit_vector);
        }
        let v = Value::block(rt, 0, &fields);
        proof {
            rt.lemma_wf();
            lemma_address(rt.heap(), v);
            assert(extends(h4, rt.heap()));
            lemma_decode_grows::<A>(h4, rt.heap(), a);
            lemma_decode_grows::<B>(h4, rt.heap(), b);
            lemma_decode_grows::<C>(h4, rt.heap(), c);
            lemma_decode_grows::<D>(h4, rt.heap(), d);
            assert(extends(h0, rt.heap()));
        }
        v
    }
}

impl<A: FromValue, B: FromValue, C: FromValue, D: FromValue> FromValue for (A, B, C, D) {
    fn from_value<R: Runtime>(rt: &R, v: Value) -> (x: (A, B, C, D)) {
        let a = A::from_value(rt, v.field(rt, 0));
        let b = B::from_value(rt, v.field(rt, 1));
        let c = C::from_value(rt, v.field(rt, 2));
        let d = D::from_value(rt, v.field(rt, 3));
        (a, b, c, d)
    }
}

} // verus!
