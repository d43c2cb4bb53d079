//! The values of variant types.
//!
//! A constructor without arguments is an immediate: the number of the
//! constructor among those without arguments. A constructor with arguments
//! is a block whose tag is the number of the constructor among those with
//! arguments and whose fields are the arguments in order.

use crate::conv::{Encoded, FromValue, ToValue};
use crate::error::Error;
use crate::header::max_wosize;
use crate::runtime::{extends, lemma_address, valid, Block, Checked, Runtime};
use crate::tag::LAZY;
use crate::value::{fixnum, lemma_int_round_trip, Value};
use vstd::prelude::*;

verus! {

/// A value of a variant type, one level deep.
#[derive(Debug, PartialEq, Eq)]
pub enum Variant {
    /// A constructor without arguments, by its number
    Constant(isize),
    /// A constructor with arguments, by its tag, and its arguments
    Block(u8, Vec<Value>),
}

/// A [`Variant`] with its arguments as a sequence.
pub ghost enum VariantView {
    Constant(isize),
    Block(u8, Seq<Value>),
}

/// The message of the error for a block that is no constructor.
pub open spec fn unknown_tag() -> &'static str {
    "unknown tag"
}

impl DeepView for Variant {
    type V = VariantView;

    open spec fn deep_view(&self) -> VariantView {
        match self {
            Variant::Constant(i) => VariantView::Constant(*i),
            Variant::Block(tag, fields) => VariantView::Block(*tag, fields@),
        }
    }
}

impl Encoded for Variant {
    open spec fn fits(&self, h: Map<Value, Block>) -> bool {
        match self {
            Variant::Constant(i) => fixnum(*i as int),
            Variant::Block(tag, fields) => {
                &&& *tag < LAZY
                &&& 1 <= fields@.len() <= max_wosize()
                &&& forall|i: int| 0 <= i < fields@.len() ==> valid(h, #[trigger] fields@[i])
            },
        }
    }

    open spec fn decode(h: Map<Value, Block>, v: Value) -> Option<VariantView> {
        if v.immediate() {
            Some(VariantView::Constant(v.int_of()))
        } else if h.contains_key(v) && h[v].tag < LAZY && h[v].fields.len() >= 1 {
            Some(VariantView::Block(h[v].tag, h[v].fields))
        } else {
            None
        }
    }

    open spec fn reads(h: Map<Value, Block>, v: Value, b: Value) -> bool {
        b == v && !v.immediate()
    }

    proof fn lemma_fits_grows(&self, h: Map<Value, Block>, g: Map<Value, Block>) {
        match self {
            Variant::Constant(i) => {},
            Variant::Block(tag, fields) => {
                assert forall|i: int| 0 <= i < fields@.len() implies valid(
                    g,
                    #[trigger] fields@[i],
                ) by {
                    assert(valid(h, fields@[i]));
                }
            },
        }
    }

    proof fn lemma_decode_frame(h: Map<Value, Block>, g: Map<Value, Block>, v: Value) {
        if !v.immediate() {
            assert(h.contains_key(v));
            assert(Self::reads(h, v, v));
        }
    }

    proof fn lemma_decode_valid(h: Map<Value, Block>, v: Value) {
    }
}

impl ToValue for Variant {
    fn to_value<R: Runtime>(&self, rt: &mut R) -> (v: Value) {
        match self {
            Variant::Constant(i) => Value::val_int(*i),
            Variant::Block(tag, fields) => {
                let v = Value::block(rt, *tag, fields);
                proof {
                    rt.lemma_wf();
                    lemma_address(rt.heap(), v);
                }
                v
            },
        }
    }
}

impl FromValue for Variant {
    fn from_value<R: Runtime>(rt: &R, v: Value) -> (x: Variant) {
        proof {
            rt.lemma_wf();
            lemma_int_round_trip(0, v);
        }
        if v.is_long() {
            return Variant::Constant(v.int_val());
        }
        let tag = v.tag(rt);
        let n = rt.wosize_val(v);
        let mut fields: Vec<Value> = Vec::new();
        let mut i: usize = 0;
        while i < n
            invariant
                i <= n,
                rt.wf(),
                rt.heap().contains_key(v),
                n == rt.heap()[v].fields.len(),
                rt.heap()[v].tag < LAZY,
                fields@.len() == i,
                forall|j: int| 0 <= j < i ==> fields@[j] == rt.heap()[v].fields[j],
                forall|j: int| 0 <= j < i ==> valid(rt.heap(), #[trigger] fields@[j]),
            decreases n - i,
        {
            fields.push(v.field(rt, i));
            i += 1;
        }
        assert(fields@ =~= rt.heap()[v].fields);
        Variant::Block(tag, fields)
    }
}

impl Value {
    /// The value read as a value of a variant type. A block that is no
    /// constructor (a closure, a string, a block without a field and the
    /// like) gives an error that says so.
    pub fn variant_of<R: Runtime>(self, rt: &R) -> (r: Result<Variant, Error>)
        requires
            rt.wf(),
            valid(rt.heap(), self),
        ensures
            match Variant::decode(rt.heap(), self) {
                Some(x) => r is Ok && r->Ok_0.deep_view() == x,
                None => r == Err::<Variant, Error>(Error::Message(unknown_tag())),
            },
    {
        if !self.is_long() {
            if self.tag(rt) >= LAZY || rt.wosize_val(self) == 0 {
                return Err(Error::Message("unknown tag"));
            }
        }
        Ok(Variant::from_value(rt, self))
    }
}

} // verus!
