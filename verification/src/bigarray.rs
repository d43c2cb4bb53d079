//! Numeric buffers: OCaml's `Bigarray.Array1`.
//!
//! A buffer is a custom block that points to memory outside the heap, which
//! holds numbers of one kind side by side. The flags of the buffer say which
//! kind, and whether the runtime owns the memory or native code does. Here
//! the elements are reached one by one through the runtime, each as the
//! bits that it is made of.

use crate::number::allocated;
use crate::conv::{Encoded, FromValue, ToValue};
use crate::runtime::{valid, Block, Checked, Runtime};
use crate::tag::CUSTOM;
use crate::value::Value;
use core::marker::PhantomData;
use vstd::prelude::*;

verus! {

/// The kinds of elements that a numeric buffer can hold.
#[derive(Clone, Copy, Debug, PartialEq, Eq, Structural)]
pub enum Element {
    /// Single-precision floats
    Float32,
    /// Double-precision floats
    Float64,
    /// Signed 8-bit integers
    Sint8,
    /// Unsigned 8-bit integers
    Uint8,
    /// Signed 16-bit integers
    Sint16,
    /// Unsigned 16-bit integers
    Uint16,
    /// Signed 32-bit integers
    Int32,
    /// Signed 64-bit integers
    Int64,
    /// Characters
    Char,
}

/// The number that stands for a kind of element in the flags of a numeric
/// buffer.
pub open spec fn element_code(e: Element) -> i32 {
    match e {
        Element::Float32 => 0x00,
        Element::Float64 => 0x01,
        Element::Sint8 => 0x02,
        Element::Uint8 => 0x03,
        Element::Sint16 => 0x04,
        Element::Uint16 => 0x05,
        Element::Int32 => 0x06,
        Element::Int64 => 0x07,
        Element::Char => 0x0c,
    }
}

/// The flag of a numeric buffer whose memory the runtime owns.
pub open spec fn managed_flag() -> i32 {
    0x200
}

/// The flag of a numeric buffer whose memory native code owns.
pub open spec fn external_flag() -> i32 {
    0
}

/// The number that stands for a kind of element in the flags of a numeric
/// buffer.
pub fn code(e: Element) -> (r: i32)
    ensures
        r == element_code(e),
{
    match e {
        Element::Float32 => 0x00,
        Element::Float64 => 0x01,
        Element::Sint8 => 0x02,
        Element::Uint8 => 0x03,
        Element::Sint16 => 0x04,
        Element::Uint16 => 0x05,
        Element::Int32 => 0x06,
        Element::Int64 => 0x07,
        Element::Char => 0x0c,
    }
}

/// The number of bytes that one element of a kind takes.
pub open spec fn element_width(e: Element) -> nat {
    match e {
        Element::Sint8 | Element::Uint8 | Element::Char => 1,
        Element::Sint16 | Element::Uint16 => 2,
        Element::Float32 | Element::Int32 => 4,
        Element::Float64 | Element::Int64 => 8,
    }
}

/// The kind of element that the flags `flags` of a buffer name in their
/// lowest byte, if it is one whose elements have 64 bits or fewer.
pub open spec fn element_of(flags: i32) -> Option<Element> {
    let kind = flags & 0xff;
    if kind == 0x00 {
        Some(Element::Float32)
    } else if kind == 0x01 {
        Some(Element::Float64)
    } else if kind == 0x02 {
        Some(Element::Sint8)
    } else if kind == 0x03 {
        Some(Element::Uint8)
    } else if kind == 0x04 {
        Some(Element::Sint16)
    } else if kind == 0x05 {
        Some(Element::Uint16)
    } else if kind == 0x06 {
        Some(Element::Int32)
    } else if kind == 0x07 {
        Some(Element::Int64)
    } else if kind == 0x0c {
        Some(Element::Char)
    } else {
        None
    }
}

/// The number of bytes that one element of the kind `e` takes.
pub fn width(e: Element) -> (n: usize)
    ensures
        n == element_width(e),
        1 <= n <= 8,
{
    match e {
        Element::Sint8 | Element::Uint8 | Element::Char => 1,
        Element::Sint16 | Element::Uint16 => 2,
        Element::Float32 | Element::Int32 => 4,
        Element::Float64 | Element::Int64 => 8,
    }
}

/// The kind of element of a buffer with the flags `flags`.
pub fn element(flags: i32) -> (e: Option<Element>)
    ensures
        e == element_of(flags),
{
    let kind = flags & 0xff;
    if kind == 0x00 {
        Some(Element::Float32)
    } else if kind == 0x01 {
        Some(Element::Float64)
    } else if kind == 0x02 {
        Some(Element::Sint8)
    } else if kind == 0x03 {
        Some(Element::Uint8)
    } else if kind == 0x04 {
        Some(Element::Sint16)
    } else if kind == 0x05 {
        Some(Element::Uint16)
    } else if kind == 0x06 {
        Some(Element::Int32)
    } else if kind == 0x07 {
        Some(Element::Int64)
    } else if kind == 0x0c {
        Some(Element::Char)
    } else {
        None
    }
}

/// The flags of a buffer name the kind that they were made of, whoever owns
/// the memory.
pub proof fn lemma_element_of_flags(e: Element, managed: bool)
    ensures
        element_of(
            element_code(e) | (if managed {
                managed_flag()
            } else {
                external_flag()
            }),
        ) == Some(e),
{
    let c = element_code(e);
    assert(0 <= c <= 0x0c ==> (c | 0x200) & 0xff == c && (c | 0) & 0xff == c) by (bit_vector);
}

/// A type of numbers that a buffer can hold.
pub trait Kind: Copy + Sized {
    /// The kind of element that the type is.
    spec fn element() -> Element;

    /// The bits that the number is made of.
    spec fn bits(self) -> u64;

    /// The number that is made of the bits `bits`.
    spec fn of_bits(bits: u64) -> Self;

    /// The number that stands for the type in the flags of a buffer.
    fn kind() -> (k: i32)
        ensures
            k == element_code(Self::element()),
    ;

    /// The number of bytes of one element.
    fn size() -> (n: usize)
        ensures
            n == element_width(Self::element()),
            1 <= n <= 8,
    ;

    /// The bits that the number is made of.
    fn to_bits(self) -> (b: u64)
        ensures
            b == self.bits(),
    ;

    /// The number that is made of the bits `b`.
    fn from_bits(b: u64) -> (x: Self)
        ensures
            x == Self::of_bits(b),
    ;

    /// A number is made of its bits.
    proof fn lemma_bits(x: Self)
        ensures
            Self::of_bits(x.bits()) == x,
    ;
}

/// The bits of a single-precision float, as an element of a buffer.
#[derive(Clone, Copy, Debug, PartialEq, Eq, Structural)]
pub struct Float32(pub u32);

/// The bits of a double-precision float, as an element of a buffer.
#[derive(Clone, Copy, Debug, PartialEq, Eq, Structural)]
pub struct Float64(pub u64);

/// A character of one byte, as an element of a buffer. A buffer of
/// characters holds one byte for each, so a `char` of four bytes is no
/// element of it.
#[derive(Clone, Copy, Debug, PartialEq, Eq, Structural)]
pub struct Char(pub u8);

impl Kind for Char {
    open spec fn element() -> Element {
        Element::Char
    }

    open spec fn bits(self) -> u64 {
        self.0 as u64
    }

    open spec fn of_bits(bits: u64) -> Char {
        Char(bits as u8)
    }

    fn kind() -> (k: i32) {
        code(Element::Char)
    }

    fn size() -> (n: usize) {
        1
    }

    fn to_bits(self) -> (b: u64) {
        self.0 as u64
    }

    fn from_bits(b: u64) -> (x: Char) {
        Char(b as u8)
    }

    proof fn lemma_bits(x: Char) {
        let w = x.0;
        assert((w as u64) as u8 == w) by (bit_vector);
    }
}

impl Kind for u8 {
    open spec fn element() -> Element {
        Element::Uint8
    }

    open spec fn bits(self) -> u64 {
        self as u64
    }

    open spec fn of_bits(bits: u64) -> u8 {
        bits as u8
    }

    fn kind() -> (k: i32) {
        code(Element::Uint8)
    }

    fn size() -> (n: usize) {
        1
    }

    fn to_bits(self) -> (b: u64) {
        self as u64
    }

    fn from_bits(b: u64) -> (x: u8) {
        b as u8
    }

    proof fn lemma_bits(x: u8) {
        assert((x as u64) as u8 == x) by (bit_vector);
    }
}

impl Kind for i8 {
    open spec fn element() -> Element {
        Element::Sint8
    }

    open spec fn bits(self) -> u64 {
        (self as u8) as u64
    }

    open spec fn of_bits(bits: u64) -> i8 {
        (bits as u8) as i8
    }

    fn kind() -> (k: i32) {
        code(Element::Sint8)
    }

    fn size() -> (n: usize) {
        1
    }

    fn to_bits(self) -> (b: u64) {
        (self as u8) as u64
    }

    fn from_bits(b: u64) -> (x: i8) {
        (b as u8) as i8
    }

    proof fn lemma_bits(x: i8) {
        assert((((x as u8) as u64) as u8) as i8 == x) by (bit_vector);
    }
}

impl Kind for u16 {
    open spec fn element() -> Element {
        Element::Uint16
    }

    open spec fn bits(self) -> u64 {
        self as u64
    }

    open spec fn of_bits(bits: u64) -> u16 {
        bits as u16
    }

    fn kind() -> (k: i32) {
        code(Element::Uint16)
    }

    fn size() -> (n: usize) {
        2
    }

    fn to_bits(self) -> (b: u64) {
        self as u64
    }

    fn from_bits(b: u64) -> (x: u16) {
        b as u16
    }

    proof fn lemma_bits(x: u16) {
        assert((x as u64) as u16 == x) by (bit_vector);
    }
}

impl Kind for i16 {
    open spec fn element() -> Element {
        Element::Sint16
    }

    open spec fn bits(self) -> u64 {
        (self as u16) as u64
    }

    open spec fn of_bits(bits: u64) -> i16 {
        (bits as u16) as i16
    }

    fn kind() -> (k: i32) {
        code(Element::Sint16)
    }

    fn size() -> (n: usize) {
        2
    }

    fn to_bits(self) -> (b: u64) {
        (self as u16) as u64
    }

    fn from_bits(b: u64) -> (x: i16) {
        (b as u16) as i16
    }

    proof fn lemma_bits(x: i16) {
        assert((((x as u16) as u64) as u16) as i16 == x) by (bit_vector);
    }
}

impl Kind for i32 {
    open spec fn element() -> Element {
        Element::Int32
    }

    open spec fn bits(self) -> u64 {
        (self as u32) as u64
    }

    open spec fn of_bits(bits: u64) -> i32 {
        (bits as u32) as i32
    }

    fn kind() -> (k: i32) {
        code(Element::Int32)
    }

    fn size() -> (n: usize) {
        4
    }

    fn to_bits(self) -> (b: u64) {
        (self as u32) as u64
    }

    fn from_bits(b: u64) -> (x: i32) {
        (b as u32) as i32
    }

    proof fn lemma_bits(x: i32) {
        assert((((x as u32) as u64) as u32) as i32 == x) by (bit_vector);
    }
}

impl Kind for i64 {
    open spec fn element() -> Element {
        Element::Int64
    }

    open spec fn bits(self) -> u64 {
        self as u64
    }

    open spec fn of_bits(bits: u64) -> i64 {
        bits as i64
    }

    fn kind() -> (k: i32) {
        code(Element::Int64)
    }

    fn size() -> (n: usize) {
        8
    }

    fn to_bits(self) -> (b: u64) {
        self as u64
    }

    fn from_bits(b: u64) -> (x: i64) {
        b as i64
    }

    proof fn lemma_bits(x: i64) {
        assert((x as u64) as i64 == x) by (bit_vector);
    }
}

impl Kind for Float32 {
    open spec fn element() -> Element {
        Element::Float32
    }

    open spec fn bits(self) -> u64 {
        self.0 as u64
    }

    open spec fn of_bits(bits: u64) -> Float32 {
        Float32(bits as u32)
    }

    fn kind() -> (k: i32) {
        code(Element::Float32)
    }

    fn size() -> (n: usize) {
        4
    }

    fn to_bits(self) -> (b: u64) {
        self.0 as u64
    }

    fn from_bits(b: u64) -> (x: Float32) {
        Float32(b as u32)
    }

    proof fn lemma_bits(x: Float32) {
        let w = x.0;
        assert((w as u64) as u32 == w) by (bit_vector);
    }
}

impl Kind for Float64 {
    open spec fn element() -> Element {
        Element::Float64
    }

    open spec fn bits(self) -> u64 {
        self.0
    }

    open spec fn of_bits(bits: u64) -> Float64 {
        Float64(bits)
    }

    fn kind() -> (k: i32) {
        code(Element::Float64)
    }

    fn size() -> (n: usize) {
        8
    }

    fn to_bits(self) -> (b: u64) {
        self.0
    }

    fn from_bits(b: u64) -> (x: Float64) {
        Float64(b)
    }

    proof fn lemma_bits(x: Float64) {
    }
}

/// The flags of a buffer of elements of `T`: the kind of the elements, and
/// the mark of who owns the memory.
pub open spec fn flags_of<T: Kind>(managed: bool) -> i32 {
    element_code(T::element()) | (if managed {
        managed_flag()
    } else {
        external_flag()
    })
}

/// The flags of a buffer of elements of `T`.
pub fn flags<T: Kind>(managed: bool) -> (f: i32)
    ensures
        f == flags_of::<T>(managed),
{
    let k = T::kind();
    assert(k | 0 == k) by (bit_vector);
    if managed {
        k | 0x200
    } else {
        k
    }
}

/// The number of bytes that `n` elements of `T` take, if a word can hold
/// that number.
pub fn byte_size<T: Kind>(n: usize) -> (r: Option<usize>)
    ensures
        r == (if n * element_width(T::element()) <= usize::MAX {
            Some((n * element_width(T::element())) as usize)
        } else {
            None
        }),
{
    n.checked_mul(T::size())
}

/// An OCaml `Bigarray.Array1` of elements of `T`. The buffer is a value of
/// the OCaml heap.
pub struct Array1<T> {
    value: Value,
    marker: PhantomData<T>,
}

impl<T> Clone for Array1<T> {
    fn clone(&self) -> (r: Self)
        ensures
            r == *self,
    {
        Array1 { value: self.value, marker: PhantomData }
    }
}

impl<T> Copy for Array1<T> {

}

impl<T> View for Array1<T> {
    type V = Value;

    closed spec fn view(&self) -> Value {
        self.value
    }
}

impl<T: Kind> Array1<T> {
    /// Whether the buffer is a custom block of the heap `h`.
    pub open spec fn wf(&self, h: Map<Value, Block>) -> bool {
        h.contains_key(self@) && h[self@].tag == CUSTOM
    }

    /// The elements of the buffer in the heap `h`.
    pub open spec fn items(&self, h: Map<Value, Block>) -> Seq<T> {
        h[self@].cells.map_values(|b: u64| T::of_bits(b))
    }

    /// The heap `h` with element `i` of the buffer set to `x`.
    pub open spec fn with_item(&self, h: Map<Value, Block>, i: int, x: T) -> Map<Value, Block> {
        h.insert(self@, Block { cells: h[self@].cells.update(i, x.bits()), ..h[self@] })
    }

    /// The buffer whose value is `v`.
    pub fn from_raw(v: Value) -> (a: Array1<T>)
        ensures
            a@ == v,
    {
        Array1 { value: v, marker: PhantomData }
    }

    /// The value of the buffer.
    pub fn raw(&self) -> (v: Value)
        ensures
            v == self@,
    {
        self.value
    }

    /// A new buffer of `n` elements of `T`. The runtime is asked for as many
    /// bytes as `n` elements take, which it owns and frees. The elements are
    /// not set yet.
    pub fn create<R: Runtime>(rt: &mut R, n: usize) -> (a: Array1<T>)
        requires
            old(rt).wf(),
            n * element_width(T::element()) <= usize::MAX,
        ensures
            final(rt).wf(),
            allocated(old(rt).heap(), final(rt).heap(), a@),
            a.wf(final(rt).heap()),
            final(rt).heap()[a@].boxed == flags_of::<T>(true),
            a.items(final(rt).heap()).len() == n,
            final(rt).names() == old(rt).names(),
            final(rt).roots() == old(rt).roots(),
    {
        let size = n * T::size();
        proof {
            lemma_element_of_flags(T::element(), true);
        }
        let v = rt.caml_ba_alloc(flags::<T>(true), n, size);
        assert(rt.heap().dom().contains(v));
        Array1 { value: v, marker: PhantomData }
    }

    /// A new buffer that holds a copy of the elements of `x`, on memory that
    /// the runtime owns.
    pub fn from_vec<R: Runtime>(rt: &mut R, x: Vec<T>) -> (a: Array1<T>)
        requires
            old(rt).wf(),
            x@.len() * element_width(T::element()) <= usize::MAX,
        ensures
            final(rt).wf(),
            allocated(old(rt).heap(), final(rt).heap(), a@),
            a.wf(final(rt).heap()),
            final(rt).heap()[a@].boxed == flags_of::<T>(true),
            a.items(final(rt).heap()) == x@,
            final(rt).names() == old(rt).names(),
            final(rt).roots() == old(rt).roots(),
    {
        Array1::from_slice(rt, x.as_slice())
    }

    /// A new buffer that holds a copy of the elements of `data`, on memory
    /// that the runtime owns.
    pub fn from_slice<R: Runtime>(rt: &mut R, data: &[T]) -> (a: Array1<T>)
        requires
            old(rt).wf(),
            data@.len() * element_width(T::element()) <= usize::MAX,
        ensures
            final(rt).wf(),
            allocated(old(rt).heap(), final(rt).heap(), a@),
            a.wf(final(rt).heap()),
            final(rt).heap()[a@].boxed == flags_of::<T>(true),
            a.items(final(rt).heap()) == data@,
            final(rt).names() == old(rt).names(),
            final(rt).roots() == old(rt).roots(),
    {
        let ghost before = rt.heap();
        let n = data.len();
        let mut a = Array1::<T>::create(rt, n);
        let mut i: usize = 0;
        while i < n
            invariant
                i <= n,
                n == data@.len(),
                rt.wf(),
                allocated(before, rt.heap(), a@),
                a.wf(rt.heap()),
                rt.heap()[a@].boxed == flags_of::<T>(true),
                rt.heap()[a@].cells.len() == n,
                forall|j: int| 0 <= j < i ==> rt.heap()[a@].cells[j] == data@[j].bits(),
                rt.names() == old(rt).names(),
                rt.roots() == old(rt).roots(),
            decreases n - i,
        {
            a.set(rt, i, data[i]);
            proof {
                assert(rt.heap().dom() =~= before.dom().insert(a@));
            }
            i += 1;
        }
        proof {
            assert forall|j: int| 0 <= j < n implies a.items(rt.heap())[j] == data@[j] by {
                T::lemma_bits(data@[j]);
            }
            assert(a.items(rt.heap()) =~= data@);
        }
        a
    }

    /// The number of elements of the buffer.
    pub fn len<R: Runtime>(self, rt: &R) -> (n: usize)
        requires
            rt.wf(),
            self.wf(rt.heap()),
        ensures
            n == self.items(rt.heap()).len(),
    {
        rt.ba_dim(self.value)
    }

    /// Whether the buffer has no element.
    pub fn is_empty<R: Runtime>(self, rt: &R) -> (r: bool)
        requires
            rt.wf(),
            self.wf(rt.heap()),
        ensures
            r == (self.items(rt.heap()).len() == 0),
    {
        self.len(rt) == 0
    }

    /// Element `i` of the buffer.
    pub fn get<R: Runtime>(&self, rt: &R, i: usize) -> (x: T)
        requires
            rt.wf(),
            self.wf(rt.heap()),
            i < self.items(rt.heap()).len(),
        ensures
            x == self.items(rt.heap())[i as int],
    {
        T::from_bits(rt.ba_get(self.value, i))
    }

    /// Writes `x` to element `i` of the buffer. No other element and no
    /// other block changes.
    pub fn set<R: Runtime>(&mut self, rt: &mut R, i: usize, x: T)
        requires
            old(rt).wf(),
            old(self).wf(old(rt).heap()),
            i < old(self).items(old(rt).heap()).len(),
        ensures
            *final(self) == *old(self),
            final(rt).wf(),
            final(rt).heap() == old(self).with_item(old(rt).heap(), i as int, x),
            final(rt).names() == old(rt).names(),
            final(rt).roots() == old(rt).roots(),
    {
        rt.ba_set(self.value, i, x.to_bits());
    }

    /// The elements of the buffer, first to last.
    pub fn data<R: Runtime>(&self, rt: &R) -> (r: Vec<T>)
        requires
            rt.wf(),
            self.wf(rt.heap()),
        ensures
            r@ == self.items(rt.heap()),
    {
        let n = self.len(rt);
        let mut out: Vec<T> = Vec::new();
        let mut i: usize = 0;
        while i < n
            invariant
                i <= n,
                rt.wf(),
                self.wf(rt.heap()),
                n == self.items(rt.heap()).len(),
                out@.len() == i,
                forall|j: int| 0 <= j < i ==> out@[j] == self.items(rt.heap())[j],
            decreases n - i,
        {
            out.push(self.get(rt, i));
            i += 1;
        }
        proof {
            assert(out@ =~= self.items(rt.heap()));
        }
        out
    }

    /// Writes the elements of `data` over those of the buffer, which has as
    /// many.
    pub fn data_mut<R: Runtime>(&mut self, rt: &mut R, data: &[T])
        requires
            old(rt).wf(),
            old(self).wf(old(rt).heap()),
            data@.len() == old(self).items(old(rt).heap()).len(),
        ensures
            *final(self) == *old(self),
            final(rt).wf(),
            final(self).wf(final(rt).heap()),
            final(self).items(final(rt).heap()) == data@,
            final(rt).heap().dom() == old(rt).heap().dom(),
            forall|b: Value| #[trigger]
                old(rt).heap().contains_key(b) && b != old(self)@ ==> final(rt).heap()[b] == old(
                    rt,
                ).heap()[b],
            final(rt).heap()[old(self)@].boxed == old(rt).heap()[old(self)@].boxed,
            final(rt).names() == old(rt).names(),
            final(rt).roots() == old(rt).roots(),
    {
        let ghost before = rt.heap();
        let n = data.len();
        let mut i: usize = 0;
        while i < n
            invariant
                i <= n,
                n == data@.len(),
                *self == *old(self),
                rt.wf(),
                self.wf(rt.heap()),
                rt.heap().dom() == before.dom(),
                rt.heap()[self@].cells.len() == n,
                rt.heap()[self@].boxed == before[self@].boxed,
                forall|b: Value| #[trigger]
                    before.contains_key(b) && b != self@ ==> rt.heap()[b] == before[b],
                forall|j: int| 0 <= j < i ==> rt.heap()[self@].cells[j] == data@[j].bits(),
                rt.names() == old(rt).names(),
                rt.roots() == old(rt).roots(),
            decreases n - i,
        {
            self.set(rt, i, data[i]);
            proof {
                assert(rt.heap().dom() =~= before.dom());
            }
            i += 1;
        }
        proof {
            assert forall|j: int| 0 <= j < n implies self.items(rt.heap())[j] == data@[j] by {
                T::lemma_bits(data@[j]);
            }
            assert(self.items(rt.heap()) =~= data@);
        }
    }
}

impl<T> DeepView for Array1<T> {
    type V = Value;

    open spec fn deep_view(&self) -> Value {
        self@
    }
}

impl<T> Encoded for Array1<T> {
    open spec fn fits(&self, h: Map<Value, Block>) -> bool {
        valid(h, self@)
    }

    open spec fn decode(h: Map<Value, Block>, v: Value) -> Option<Value> {
        if valid(h, v) {
            Some(v)
        } else {
            None
        }
    }

    open spec fn reads(h: Map<Value, Block>, v: Value, b: Value) -> bool {
        false
    }

    proof fn lemma_fits_grows(&self, h: Map<Value, Block>, g: Map<Value, Block>) {
    }

    proof fn lemma_decode_frame(h: Map<Value, Block>, g: Map<Value, Block>, v: Value) {
    }

    proof fn lemma_decode_valid(h: Map<Value, Block>, v: Value) {
    }
}

impl<T> ToValue for Array1<T> {
    fn to_value<R: Runtime>(&self, rt: &mut R) -> (v: Value)
        ensures
            *final(rt) == *old(rt),
    {
        self.value
    }
}

impl<T> FromValue for Array1<T> {
    fn from_value<R: Runtime>(rt: &R, v: Value) -> (x: Array1<T>) {
        Array1 { value: v, marker: PhantomData }
    }
}

} // verus!
