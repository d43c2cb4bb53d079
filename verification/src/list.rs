//! OCaml lists.

use crate::block::with_block;
use crate::conv::{is_tuple, lemma_decode_grows, Encoded, FromValue, ToValue};
use crate::runtime::{extends, lemma_address, valid, Block, Checked, Runtime};
use crate::value::{lemma_word_parts, Value};
use core::marker::PhantomData;
use vstd::prelude::*;

verus! {

/// What `v` reads as in `h`, if it is a list of `n` cells whose heads encode
/// values of `T`: the empty list is the immediate 0, and a cell is a block
/// with the tag 0 that holds its head and the rest of the list.
pub open spec fn list_of<T: Encoded>(h: Map<Value, Block>, v: Value, n: nat) -> Option<Seq<T::V>>
    decreases n,
{
    if n == 0 {
        if v == Value(1) {
            Some(Seq::empty())
        } else {
            None
        }
    } else if v != Value(1) && is_tuple(h, v, 2) {
        match (T::decode(h, h[v].fields[0]), list_of::<T>(h, h[v].fields[1], (n - 1) as nat)) {
            (Some(x), Some(rest)) => Some(seq![x] + rest),
            _ => None,
        }
    } else {
        None
    }
}

/// A list of `n` cells has `n` elements.
pub proof fn lemma_list_len<T: Encoded>(h: Map<Value, Block>, v: Value, n: nat)
    requires
        list_of::<T>(h, v, n) is Some,
    ensures
        list_of::<T>(h, v, n)->0.len() == n,
    decreases n,
{
    if n > 0 {
        lemma_list_len::<T>(h, h[v].fields[1], (n - 1) as nat);
    }
}

/// A value is a list of one length only.
pub proof fn lemma_list_unique<T: Encoded>(h: Map<Value, Block>, v: Value, n: nat, m: nat)
    requires
        list_of::<T>(h, v, n) is Some,
        list_of::<T>(h, v, m) is Some,
    ensures
        n == m,
    decreases n,
{
    if n > 0 && m > 0 {
        lemma_list_unique::<T>(h, h[v].fields[1], (n - 1) as nat, (m - 1) as nat);
    }
}

/// A list stays what it is when the heap gets more blocks.
pub proof fn lemma_list_grows<T: Encoded>(
    h: Map<Value, Block>,
    g: Map<Value, Block>,
    v: Value,
    n: nat,
)
    requires
        list_of::<T>(h, v, n) is Some,
        extends(h, g),
    ensures
        list_of::<T>(g, v, n) == list_of::<T>(h, v, n),
    decreases n,
{
    if n > 0 {
        assert(h.contains_key(v));
        lemma_decode_grows::<T>(h, g, h[v].fields[0]);
        lemma_list_grows::<T>(h, g, h[v].fields[1], (n - 1) as nat);
    }
}

/// An OCaml list of values of `T`. The list is a value of the OCaml heap:
/// nothing is copied.
pub struct List<T> {
    value: Value,
    marker: PhantomData<T>,
}

impl<T> Clone for List<T> {
    fn clone(&self) -> (r: Self)
        ensures
            r == *self,
    {
        List { value: self.value, marker: PhantomData }
    }
}

impl<T> Copy for List<T> {

}

impl<T> View for List<T> {
    type V = Value;

    closed spec fn view(&self) -> Value {
        self.value
    }
}

impl<T: Encoded> List<T> {
    /// The elements of the list in the heap `h`, first to last, if the value
    /// is a list of values of `T` there.
    pub open spec fn items(&self, h: Map<Value, Block>) -> Option<Seq<T::V>> {
        if exists|n: nat| list_of::<T>(h, self@, n) is Some {
            list_of::<T>(h, self@, choose|n: nat| list_of::<T>(h, self@, n) is Some)
        } else {
            None
        }
    }

    /// The elements of a list of `n` cells are what `list_of` says.
    pub proof fn lemma_items(&self, h: Map<Value, Block>, n: nat)
        requires
            list_of::<T>(h, self@, n) is Some,
        ensures
            self.items(h) == list_of::<T>(h, self@, n),
            self.items(h)->0.len() == n,
    {
        let m = choose|m: nat| list_of::<T>(h, self@, m) is Some;
        lemma_list_unique::<T>(h, self@, n, m);
        lemma_list_len::<T>(h, self@, n);
    }

    /// The list whose value is `v`.
    pub fn from_raw(v: Value) -> (l: List<T>)
        ensures
            l@ == v,
    {
        List { value: v, marker: PhantomData }
    }

    /// The value of the list.
    pub fn raw(&self) -> (v: Value)
        ensures
            v == self@,
    {
        self.value
    }

    /// The empty list.
    pub fn empty() -> (l: List<T>)
        ensures
            l@ == Value(1),
            forall|h: Map<Value, Block>| #[trigger] l.items(h) == Some(Seq::<T::V>::empty()),
    {
        let l = List { value: Value::unit(), marker: PhantomData };
        assert forall|h: Map<Value, Block>| #[trigger] l.items(h) == Some(Seq::<T::V>::empty()) by {
            assert(list_of::<T>(h, l@, 0) is Some);
            l.lemma_items(h, 0);
        }
        l
    }

    /// Whether the list is empty.
    pub fn is_empty(&self) -> (r: bool)
        ensures
            r == (self@ == Value(1)),
            forall|h: Map<Value, Block>| #[trigger]
                self.items(h) is Some ==> r == (self.items(h)->0.len() == 0),
    {
        assert forall|h: Map<Value, Block>| #[trigger] self.items(h) is Some implies (self@
            == Value(1)) == (self.items(h)->0.len() == 0) by {
            let n = choose|n: nat| list_of::<T>(h, self@, n) is Some;
            self.lemma_items(h, n);
        }
        self.value.0 == 1
    }

    /// The number of elements of the list, found by walking it.
    pub fn len<R: Runtime>(&self, rt: &R) -> (n: usize)
        requires
            rt.wf(),
            self.items(rt.heap()) is Some,
            self.items(rt.heap())->0.len() <= usize::MAX,
        ensures
            n == self.items(rt.heap())->0.len(),
    {
        let ghost h = rt.heap();
        let ghost total = choose|n: nat| list_of::<T>(h, self@, n) is Some;
        proof {
            self.lemma_items(h, total);
        }
        let mut length: usize = 0;
        let mut tmp = self.value;
        while tmp.0 != 1
            invariant
                rt.wf(),
                h == rt.heap(),
                length <= total <= usize::MAX,
                list_of::<T>(h, tmp, (total - length) as nat) is Some,
            decreases total - length,
        {
            tmp = tmp.field(rt, 1);
            length += 1;
        }
        length
    }

    /// The list with `v` put in front. The cell is a new block with the tag
    /// 0 whose two fields are the encoding of `v` and the value of `self`:
    /// the rest of the new list is the old list itself, not a copy. The list
    /// `self` and every other list of the heap are what they were.
    pub fn add<R: Runtime>(self, rt: &mut R, v: T) -> (l: List<T>) where T: ToValue
        requires
            old(rt).wf(),
            valid(old(rt).heap(), self@),
            v.fits(old(rt).heap()),
        ensures
            final(rt).wf(),
            extends(old(rt).heap(), final(rt).heap()),
            !old(rt).heap().contains_key(l@),
            l@ != Value(1),
            is_tuple(final(rt).heap(), l@, 2),
            T::decode(final(rt).heap(), final(rt).heap()[l@].fields[0]) == Some(v.deep_view()),
            final(rt).heap()[l@].fields[1] == self@,
            final(rt).names() == old(rt).names(),
            final(rt).roots() == old(rt).roots(),
            self.items(old(rt).heap()) is Some ==> {
                &&& self.items(final(rt).heap()) == self.items(old(rt).heap())
                &&& l.items(final(rt).heap()) == Some(
                    seq![v.deep_view()] + self.items(old(rt).heap())->0,
                )
                &&& l.items(final(rt).heap())->0.len() == self.items(old(rt).heap())->0.len() + 1
            },
    {
        let ghost h0 = rt.heap();
        let head = v.to_value(rt);
        let ghost h1 = rt.heap();
        let mut fields: Vec<Value> = Vec::new();
        fields.push(head);
        fields.push(self.value);
        proof {
            T::lemma_decode_valid(h1, head);
            assert(2usize <= !0usize >> 10) by (bit_vector);
        }
        let cell = Value::block(rt, 0, &fields);
        let l = List { value: cell, marker: PhantomData };
        proof {
            let h2 = rt.heap();
            rt.lemma_wf();
            lemma_address(h2, cell);
            lemma_word_parts(1);
            assert(extends(h1, h2));
            assert(extends(h0, h2));
            lemma_decode_grows::<T>(h1, h2, head);
            if self.items(h0) is Some {
                let n = choose|n: nat| list_of::<T>(h0, self@, n) is Some;
                self.lemma_items(h0, n);
                lemma_list_grows::<T>(h0, h2, self@, n);
                self.lemma_items(h2, n);
                assert(h2[cell].fields[0] == head);
                assert(h2[cell].fields[1] == self@);
                assert(list_of::<T>(h2, cell, n + 1) == Some(
                    seq![v.deep_view()] + self.items(h0)->0,
                ));
                l.lemma_items(h2, n + 1);
            }
        }
        l
    }

    /// The first element of the list, if it has one.
    pub fn hd<R: Runtime>(&self, rt: &R) -> (r: Option<T>) where T: FromValue
        requires
            rt.wf(),
            self.items(rt.heap()) is Some,
        ensures
            r.deep_view() == (if self.items(rt.heap())->0.len() == 0 {
                None
            } else {
                Some(self.items(rt.heap())->0[0])
            }),
    {
        let ghost h = rt.heap();
        let ghost n = choose|n: nat| list_of::<T>(h, self@, n) is Some;
        proof {
            self.lemma_items(h, n);
        }
        if self.is_empty() {
            return None;
        }
        let x = T::from_value(rt, self.value.field(rt, 0));
        Some(x)
    }

    /// The list without its first element: the second field of its first
    /// cell, as it is. The empty list where it has none.
    pub fn tl<R: Runtime>(&self, rt: &R) -> (r: List<T>)
        requires
            rt.wf(),
            self.items(rt.heap()) is Some,
        ensures
            r@ == (if self@ == Value(1) {
                Value(1)
            } else {
                rt.heap()[self@].fields[1]
            }),
            r.items(rt.heap()) == Some(
                if self.items(rt.heap())->0.len() == 0 {
                    Seq::<T::V>::empty()
                } else {
                    self.items(rt.heap())->0.drop_first()
                },
            ),
    {
        let ghost h = rt.heap();
        let ghost n = choose|n: nat| list_of::<T>(h, self@, n) is Some;
        proof {
            self.lemma_items(h, n);
        }
        if self.is_empty() {
            return List::empty();
        }
        let r = List { value: self.value.field(rt, 1), marker: PhantomData };
        proof {
            r.lemma_items(h, (n - 1) as nat);
            assert(self.items(h)->0.drop_first() =~= r.items(h)->0);
        }
        r
    }

    /// The elements of the list, first to last.
    pub fn to_vec<R: Runtime>(&self, rt: &R) -> (r: Vec<T>) where T: FromValue
        requires
            rt.wf(),
            self.items(rt.heap()) is Some,
        ensures
            r.deep_view() == self.items(rt.heap())->0,
    {
        let ghost h = rt.heap();
        let ghost all = self.items(h)->0;
        let mut out: Vec<T> = Vec::new();
        let mut rest = *self;
        proof {
            assert(out.deep_view() =~= Seq::<T::V>::empty());
            assert(out.deep_view() + all =~= all);
        }
        while !rest.is_empty()
            invariant
                rt.wf(),
                h == rt.heap(),
                rest.items(h) is Some,
                out.deep_view() + rest.items(h)->0 == all,
            decreases rest.items(h)->0.len(),
        {
            let ghost before = out.deep_view();
            let ghost tail = rest.items(h)->0;
            let x = rest.hd(rt);
            let next = rest.tl(rt);
            match x {
                Some(x) => {
                    out.push(x);
                    proof {
                        assert(out.deep_view() =~= before.push(tail[0]));
                        assert(before.push(tail[0]) + tail.drop_first() =~= before + tail);
                    }
                },
                None => {},
            }
            rest = next;
        }
        proof {
            assert(out.deep_view() + rest.items(h)->0 =~= out.deep_view());
        }
        out
    }

    /// A walk over the list that starts at its first element.
    pub fn iter(&self) -> (it: ListIterator<T>)
        ensures
            it.rest() == *self,
    {
        ListIterator { inner: *self }
    }
}

/// A walk over a list: each step gives the next element, once.
pub struct ListIterator<T> {
    inner: List<T>,
}

impl<T: Encoded> ListIterator<T> {
    /// The part of the list that the walk has not given yet.
    pub closed spec fn rest(&self) -> List<T> {
        self.inner
    }

    /// The next element, if one is left, and the walk moves past it.
    pub fn next<R: Runtime>(&mut self, rt: &R) -> (r: Option<T>) where T: FromValue
        requires
            rt.wf(),
            old(self).rest().items(rt.heap()) is Some,
        ensures
            final(self).rest().items(rt.heap()) is Some,
            r.deep_view() == (if old(self).rest().items(rt.heap())->0.len() == 0 {
                None
            } else {
                Some(old(self).rest().items(rt.heap())->0[0])
            }),
            final(self).rest().items(rt.heap())->0 == (if old(self).rest().items(
                rt.heap(),
            )->0.len() == 0 {
                Seq::<T::V>::empty()
            } else {
                old(self).rest().items(rt.heap())->0.drop_first()
            }),
    {
        let x = self.inner.hd(rt);
        self.inner = self.inner.tl(rt);
        x
    }
}

impl<T> DeepView for List<T> {
    type V = Value;

    open spec fn deep_view(&self) -> Value {
        self@
    }
}

impl<T> Encoded for List<T> {
    open spec fn fits(&self, h: Map<Value, Block>) -> bool {
        valid(h, self@)
    }

    open spec fn decode(h: Map<Value, Block>, v: Value) -> Option<Value> {
        if valid(h, v) {
            Some(v)
        } else {
            None
        }
    }

    open spec fn reads(h: Map<Value, Block>, v: Value, b: Value) -> bool {
        false
    }

    proof fn lemma_fits_grows(&self, h: Map<Value, Block>, g: Map<Value, Block>) {
    }

    proof fn lemma_decode_frame(h: Map<Value, Block>, g: Map<Value, Block>, v: Value) {
    }

    proof fn lemma_decode_valid(h: Map<Value, Block>, v: Value) {
    }
}

impl<T> ToValue for List<T> {
    fn to_value<R: Runtime>(&self, rt: &mut R) -> (v: Value)
        ensures
            *final(rt) == *old(rt),
    {
        self.value
    }
}

impl<T> FromValue for List<T> {
    fn from_value<R: Runtime>(rt: &R, v: Value) -> (x: List<T>) {
        List { value: v, marker: PhantomData }
    }
}

} // verus!
