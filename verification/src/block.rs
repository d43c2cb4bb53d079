//! Reading, building and calling the blocks that values point to.

use crate::error::{CamlError, Error};
use crate::header::max_wosize;
use crate::runtime::{
    array_len, extends, fresh_fields, plain, roots_after_modify, survives, valid, Block, Checked,
    Runtime,
};
use crate::sys;
use crate::tag::{scannable, Tag, CLOSURE, OBJECT};
use crate::value::{int_word, lemma_word_parts, Value};
use vstd::prelude::*;
use vstd::string::StringSliceAdditionalSpecFns;

verus! {

/// Whether `v` is an object of the heap `h`.
pub open spec fn is_object(h: Map<Value, Block>, v: Value) -> bool {
    h.contains_key(v) && h[v].tag == OBJECT
}

/// What the lookup of a method gives for the word `raw` that the runtime
/// handed back.
pub open spec fn method_of(raw: Value) -> Option<Value> {
    if raw == Value(0) {
        None
    } else {
        Some(raw)
    }
}

/// Whether `v` is a closure of the heap `h`.
pub open spec fn callable(h: Map<Value, Block>, v: Value) -> bool {
    h.contains_key(v) && h[v].tag == CLOSURE
}

/// What a call gives for the word `raw` that the runtime handed back: the
/// exception under the mark where there is one, the value itself where
/// there is none.
pub open spec fn call_result_of(raw: Value) -> Result<Value, Error> {
    if raw.exceptional() {
        Err(Error::Caml(CamlError::Exception(Value(sys::clear_mark(raw.0)))))
    } else {
        Ok(raw)
    }
}

/// Whether `r` is what a call may give in the heap `h`: a usable value that
/// carries no exception mark, or the error that holds an exception that is
/// a block of `h`.
pub open spec fn call_outcome(h: Map<Value, Block>, r: Result<Value, Error>) -> bool {
    match r {
        Ok(v) => valid(h, v) && !v.exceptional(),
        Err(Error::Caml(CamlError::Exception(e))) => h.contains_key(e),
        Err(_) => false,
    }
}

/// The heap `h` with one more block at `v`, which the collector scans, of
/// the tag `tag` and the fields `fields`.
pub open spec fn with_block(h: Map<Value, Block>, v: Value, tag: u8, fields: Seq<Value>) -> Map<
    Value,
    Block,
> {
    h.insert(v, plain(tag, fields))
}

impl Value {
    /// The tag of the block that the value points to.
    pub fn tag<R: Runtime>(self, rt: &R) -> (t: Tag)
        requires
            rt.wf(),
            rt.heap().contains_key(self),
        ensures
            t == rt.heap()[self].tag,
    {
        rt.tag_val(self)
    }

    /// Field `i` of the block that the value points to.
    pub fn field<R: Runtime>(self, rt: &R, i: usize) -> (x: Value)
        requires
            rt.wf(),
            rt.heap().contains_key(self),
            i < rt.heap()[self].fields.len(),
        ensures
            x == rt.heap()[self].fields[i as int],
            scannable(rt.heap()[self].tag) ==> valid(rt.heap(), x),
    {
        proof {
            rt.lemma_wf();
        }
        rt.field(self, i)
    }

    /// Stores `val` in field `i` of the block that the value points to,
    /// through the write barrier. No other field of the heap changes.
    pub fn store_field<R: Runtime>(&mut self, rt: &mut R, i: usize, val: Value)
        requires
            old(rt).wf(),
            old(rt).heap().contains_key(*old(self)),
            i < old(rt).heap()[*old(self)].fields.len(),
            scannable(old(rt).heap()[*old(self)].tag) ==> valid(old(rt).heap(), val),
        ensures
            *final(self) == *old(self),
            final(rt).wf(),
            final(rt).heap() == old(rt).heap().insert(
                *old(self),
                (Block {
                    fields: old(rt).heap()[*old(self)].fields.update(i as int, val),
                    ..old(rt).heap()[*old(self)]
                }),
            ),
            final(rt).names() == old(rt).names(),
            final(rt).roots() == old(rt).roots(),
    {
        rt.store_field(*self, i, val);
    }

    /// A block of `n` fields with the tag `tag`. Where the collector scans
    /// the block, every field is `()`. The blocks that were there are
    /// unchanged.
    pub fn alloc_block<R: Runtime>(rt: &mut R, n: usize, tag: Tag) -> (v: Value)
        requires
            old(rt).wf(),
            n <= max_wosize(),
        ensures
            final(rt).wf(),
            extends(old(rt).heap(), final(rt).heap()),
            final(rt).heap().dom() == old(rt).heap().dom().insert(v),
            final(rt).heap()[v].tag == tag,
            final(rt).heap()[v].fields.len() == n,
            scannable(tag) ==> final(rt).heap()[v].fields == fresh_fields(n as nat),
            old(rt).heap().contains_key(v) ==> n == 0,
            final(rt).names() == old(rt).names(),
            final(rt).roots() == old(rt).roots(),
    {
        rt.caml_alloc(n, tag)
    }

    /// A block of `n` fields with the tag 0, every field `()`.
    pub fn alloc_tuple<R: Runtime>(rt: &mut R, n: usize) -> (v: Value)
        requires
            old(rt).wf(),
            n <= max_wosize(),
        ensures
            final(rt).wf(),
            extends(old(rt).heap(), final(rt).heap()),
            final(rt).heap().dom() == old(rt).heap().dom().insert(v),
            final(rt).heap()[v] == plain(0, fresh_fields(n as nat)),
            old(rt).heap().contains_key(v) ==> n == 0,
            final(rt).names() == old(rt).names(),
            final(rt).roots() == old(rt).roots(),
    {
        let v = rt.caml_alloc(n, 0);
        proof {
            rt.lemma_wf();
            assert(rt.heap().dom().contains(v));
            assert(rt.heap().contains_key(v));
        }
        v
    }

    /// A new block of `n` fields with the tag `tag`, made in the young
    /// generation.
    pub fn alloc_small<R: Runtime>(rt: &mut R, n: usize, tag: Tag) -> (v: Value)
        requires
            old(rt).wf(),
            1 <= n <= 256,
        ensures
            final(rt).wf(),
            extends(old(rt).heap(), final(rt).heap()),
            final(rt).heap().dom() == old(rt).heap().dom().insert(v),
            final(rt).heap()[v].tag == tag,
            final(rt).heap()[v].fields.len() == n,
            scannable(tag) ==> final(rt).heap()[v].fields == fresh_fields(n as nat),
            !old(rt).heap().contains_key(v),
            final(rt).names() == old(rt).names(),
            final(rt).roots() == old(rt).roots(),
    {
        rt.caml_alloc_small(n, tag)
    }

    /// The number of elements of the array that the value points to: its
    /// doubles where it is a double array, its fields where it is not.
    pub fn array_length<R: Runtime>(self, rt: &R) -> (n: usize)
        requires
            rt.wf(),
            rt.heap().contains_key(self),
        ensures
            n == array_len(rt.heap()[self]),
    {
        rt.caml_array_length(self)
    }

    /// Registers the value as a global root.
    pub fn register_global_root<R: Runtime>(&mut self, rt: &mut R)
        requires
            old(rt).wf(),
        ensures
            *final(self) == *old(self),
            final(rt).wf(),
            final(rt).roots() == old(rt).roots().insert(*old(self)),
            final(rt).heap() == old(rt).heap(),
            final(rt).names() == old(rt).names(),
    {
        rt.caml_register_global_root(*self);
    }

    /// Takes the value out of the global roots; where it is none of them,
    /// nothing changes.
    pub fn remove_global_root<R: Runtime>(&mut self, rt: &mut R)
        requires
            old(rt).wf(),
        ensures
            *final(self) == *old(self),
            final(rt).wf(),
            final(rt).roots() == old(rt).roots().remove(*old(self)),
            final(rt).heap() == old(rt).heap(),
            final(rt).names() == old(rt).names(),
    {
        rt.caml_remove_global_root(*self);
    }

    /// The OCaml value `Some self`: a new block with the tag 0 whose one
    /// field is the value.
    pub fn some<R: Runtime>(self, rt: &mut R) -> (v: Value)
        requires
            old(rt).wf(),
            valid(old(rt).heap(), self),
        ensures
            final(rt).wf(),
            !old(rt).heap().contains_key(v),
            final(rt).heap() == with_block(old(rt).heap(), v, 0, seq![self]),
            final(rt).names() == old(rt).names(),
            final(rt).roots() == old(rt).roots(),
    {
        Value::variant(rt, 0, Some(self))
    }

    /// The value of a constructor with the number `tag`: with one argument,
    /// a new block with that tag and the argument as its one field; without
    /// an argument, the immediate of that number, and nothing is allocated.
    pub fn variant<R: Runtime>(rt: &mut R, tag: u8, value: Option<Value>) -> (v: Value)
        requires
            old(rt).wf(),
            value is Some ==> valid(old(rt).heap(), value->0),
        ensures
            final(rt).wf(),
            final(rt).names() == old(rt).names(),
            final(rt).roots() == old(rt).roots(),
            match value {
                Some(x) => {
                    &&& !old(rt).heap().contains_key(v)
                    &&& extends(old(rt).heap(), final(rt).heap())
                    &&& final(rt).heap().dom() == old(rt).heap().dom().insert(v)
                    &&& final(rt).heap()[v].tag == tag
                    &&& final(rt).heap()[v].fields == seq![x]
                    &&& scannable(tag) ==> final(rt).heap() == with_block(
                        old(rt).heap(),
                        v,
                        tag,
                        seq![x],
                    )
                },
                None => {
                    &&& v == Value(int_word(tag as isize))
                    &&& v.immediate()
                    &&& v.int_of() == tag
                    &&& *final(rt) == *old(rt)
                },
            },
    {
        let ghost before = rt.heap();
        assert(1usize <= !0usize >> 10) by (bit_vector);
        match value {
            Some(x) => {
                let mut v = Value::alloc_block(rt, 1, tag);
                let ghost mid = rt.heap();
                v.store_field(rt, 0, x);
                proof {
                    rt.lemma_wf();
                    assert(mid[v].fields.update(0, x) =~= seq![x]);
                    assert(rt.heap().dom() =~= before.dom().insert(v));
                    if scannable(tag) {
                        assert(rt.heap() =~= with_block(before, v, tag, seq![x]));
                    }
                }
                v
            },
            None => Value::val_int(tag as isize),
        }
    }

    /// A new block with the tag `tag` and the fields `fields`.
    pub fn block<R: Runtime>(rt: &mut R, tag: Tag, fields: &Vec<Value>) -> (v: Value)
        requires
            old(rt).wf(),
            1 <= fields@.len() <= max_wosize(),
            scannable(tag) ==> forall|i: int|
                0 <= i < fields@.len() ==> valid(old(rt).heap(), #[trigger] fields@[i]),
        ensures
            final(rt).wf(),
            !old(rt).heap().contains_key(v),
            extends(old(rt).heap(), final(rt).heap()),
            final(rt).heap().dom() == old(rt).heap().dom().insert(v),
            final(rt).heap()[v].tag == tag,
            final(rt).heap()[v].fields == fields@,
            scannable(tag) ==> final(rt).heap() == with_block(old(rt).heap(), v, tag, fields@),
            final(rt).names() == old(rt).names(),
            final(rt).roots() == old(rt).roots(),
    {
        let ghost before = rt.heap();
        let n = fields.len();
        let mut v = Value::alloc_block(rt, n, tag);
        let ghost start = rt.heap()[v].fields;
        let mut i: usize = 0;
        while i < n
            invariant
                i <= n,
                n == fields@.len(),
                rt.wf(),
                !before.contains_key(v),
                extends(before, rt.heap()),
                rt.heap().dom() == before.dom().insert(v),
                rt.heap()[v].tag == tag,
                rt.heap()[v].fields.len() == n,
                forall|j: int| 0 <= j < i ==> rt.heap()[v].fields[j] == fields@[j],
                rt.names() == old(rt).names(),
                rt.roots() == old(rt).roots(),
                scannable(tag) ==> forall|j: int|
                    0 <= j < fields@.len() ==> valid(before, #[trigger] fields@[j]),
            decreases n - i,
        {
            let ghost mid = rt.heap();
            v.store_field(rt, i, fields[i]);
            proof {
                assert(rt.heap().dom() =~= before.dom().insert(v));
                assert(extends(before, rt.heap()));
            }
            i += 1;
        }
        proof {
            rt.lemma_wf();
            assert(rt.heap()[v].fields =~= fields@);
            if scannable(tag) {
                assert(rt.heap() =~= with_block(before, v, tag, fields@));
            }
        }
        v
    }

    /// The OCaml value `Ok value`.
    pub fn result_ok<R: Runtime>(rt: &mut R, value: Value) -> (v: Value)
        requires
            old(rt).wf(),
            valid(old(rt).heap(), value),
        ensures
            final(rt).wf(),
            !old(rt).heap().contains_key(v),
            final(rt).heap() == with_block(old(rt).heap(), v, 0, seq![value]),
            final(rt).names() == old(rt).names(),
            final(rt).roots() == old(rt).roots(),
    {
        Value::variant(rt, 0, Some(value))
    }

    /// The OCaml value `Error value`.
    pub fn result_error<R: Runtime>(rt: &mut R, value: Value) -> (v: Value)
        requires
            old(rt).wf(),
            valid(old(rt).heap(), value),
        ensures
            final(rt).wf(),
            !old(rt).heap().contains_key(v),
            final(rt).heap() == with_block(old(rt).heap(), v, 1, seq![value]),
            final(rt).names() == old(rt).names(),
            final(rt).roots() == old(rt).roots(),
    {
        Value::variant(rt, 1, Some(value))
    }

    /// Puts `v` in the place of the value, through the write barrier. Where
    /// the value that was there is a global root, the root now holds `v`.
    pub fn modify<R: Runtime>(&mut self, rt: &mut R, v: Value)
        requires
            old(rt).wf(),
        ensures
            *final(self) == v,
            final(rt).wf(),
            final(rt).roots() == roots_after_modify(old(rt).roots(), *old(self), v),
            final(rt).heap() == old(rt).heap(),
            final(rt).names() == old(rt).names(),
    {
        rt.caml_modify(self, v);
    }

    /// Puts `value` in the place of the value, which held nothing that the
    /// collector knew. The runtime stays as it is.
    pub fn initialize<R: Runtime>(&mut self, rt: &mut R, value: Value)
        requires
            old(rt).wf(),
        ensures
            *final(self) == value,
            final(rt).wf(),
            final(rt).roots() == old(rt).roots(),
            final(rt).heap() == old(rt).heap(),
            final(rt).names() == old(rt).names(),
    {
        rt.caml_initialize(self, value);
    }

    /// The hash of the polymorphic variant `name`, which holds no NUL: the
    /// hash itself where the variant has no argument, a new block of the
    /// hash and the argument where it has one.
    pub fn hash_variant<R: Runtime>(rt: &mut R, name: &str, a: Option<Value>) -> (v: Value)
        requires
            old(rt).wf(),
            !name@.contains('\0'),
            a is Some ==> valid(old(rt).heap(), a->0),
        ensures
            final(rt).wf(),
            final(rt).names() == old(rt).names(),
            final(rt).roots() == old(rt).roots(),
            match a {
                Some(x) => !old(rt).heap().contains_key(v) && final(rt).heap() == with_block(
                    old(rt).heap(),
                    v,
                    0,
                    seq![R::variant_hash(name.spec_bytes()), x],
                ),
                None => v == R::variant_hash(name.spec_bytes()) && final(rt).heap() == old(
                    rt,
                ).heap(),
            },
    {
        let hash = rt.caml_hash_variant(name);
        match a {
            Some(x) => {
                let mut fields: Vec<Value> = Vec::new();
                fields.push(hash);
                fields.push(x);
                assert(2usize <= !0usize >> 10) by (bit_vector);
                assert(fields@ =~= seq![hash, x]);
                Value::block(rt, 0, &fields)
            },
            None => hash,
        }
    }

    /// What the lookup of a method gives for the word `raw` that the runtime
    /// handed back: no method for the word 0, the method for any other.
    pub fn method_result(raw: Value) -> (m: Option<Value>)
        ensures
            m == method_of(raw),
    {
        if raw.0 == 0 {
            None
        } else {
            Some(raw)
        }
    }

    /// The method `name` of the object: what the runtime finds under the
    /// hash of the name, and none where it finds the word 0. A value that is
    /// no object has none, and the runtime is not asked.
    pub fn method<R: Runtime>(self, rt: &R, name: &str) -> (m: Option<Value>)
        requires
            rt.wf(),
            valid(rt.heap(), self),
            !name@.contains('\0'),
        ensures
            !is_object(rt.heap(), self) ==> m is None,
            is_object(rt.heap(), self) ==> m == method_of(
                rt.public_method(self, R::variant_hash(name.spec_bytes())),
            ),
            m is Some ==> valid(rt.heap(), m->0),
    {
        proof {
            rt.lemma_wf();
            if rt.heap().contains_key(self) {
                crate::runtime::lemma_address(rt.heap(), self);
            }
        }
        if self.is_long() {
            return None;
        }
        if self.tag(rt) != OBJECT {
            return None;
        }
        let raw = rt.caml_get_public_method(self, rt.caml_hash_variant(name));
        let m = Value::method_result(raw);
        assert(m == method_of(raw));
        m
    }

    /// Whether the value is a closure.
    pub fn is_closure<R: Runtime>(self, rt: &R) -> (r: bool)
        requires
            rt.wf(),
            valid(rt.heap(), self),
        ensures
            r == callable(rt.heap(), self),
    {
        proof {
            rt.lemma_wf();
            if rt.heap().contains_key(self) {
                crate::runtime::lemma_address(rt.heap(), self);
            }
        }
        if self.is_long() {
            return false;
        }
        self.tag(rt) == CLOSURE
    }

    /// What a call gives for the word `raw` that the runtime handed back.
    pub fn call_result(raw: Value) -> (r: Result<Value, Error>)
        ensures
            r == call_result_of(raw),
    {
        match raw.exception() {
            Some(exc) => Err(Error::Caml(CamlError::Exception(exc))),
            None => Ok(raw),
        }
    }

    /// Calls the closure with the arguments `args`. A value that is no
    /// closure gives `NotCallable`: the runtime is not touched and the
    /// arguments are not looked at. A closure is applied once, to the
    /// arguments in their order; what it returns is the result, and what it
    /// raises comes back as the error that holds that very exception. The
    /// runtime applies a closure to one argument at least, so a closure
    /// needs `args` not to be empty.
    pub fn call_n<R: Runtime>(self, rt: &mut R, args: &Vec<Value>) -> (r: Result<Value, Error>)
        requires
            old(rt).wf(),
            valid(old(rt).heap(), self),
            callable(old(rt).heap(), self) ==> args@.len() >= 1,
            callable(old(rt).heap(), self) ==> forall|i: int|
                0 <= i < args@.len() ==> valid(old(rt).heap(), #[trigger] args@[i]),
        ensures
            final(rt).wf(),
            !callable(old(rt).heap(), self) ==> r == Err::<Value, Error>(Error::NotCallable)
                && *final(rt) == *old(rt),
            callable(old(rt).heap(), self) ==> {
                &&& r == call_result_of(old(rt).reply(self, args@))
                &&& call_outcome(final(rt).heap(), r)
                &&& survives(old(rt).heap(), final(rt).heap())
                &&& final(rt).roots() == old(rt).roots()
            },
    {
        if !self.is_closure(rt) {
            return Err(Error::NotCallable);
        }
        let raw = rt.caml_callback_exn(self, args);
        proof {
            lemma_word_parts(raw.0);
        }
        Value::call_result(raw)
    }

    /// Calls the closure with the one argument `arg`. See [`Value::call_n`].
    pub fn call<R: Runtime>(self, rt: &mut R, arg: Value) -> (r: Result<Value, Error>)
        requires
            old(rt).wf(),
            valid(old(rt).heap(), self),
            callable(old(rt).heap(), self) ==> valid(old(rt).heap(), arg),
        ensures
            final(rt).wf(),
            !callable(old(rt).heap(), self) ==> r == Err::<Value, Error>(Error::NotCallable)
                && *final(rt) == *old(rt),
            callable(old(rt).heap(), self) ==> {
                &&& r == call_result_of(old(rt).reply(self, seq![arg]))
                &&& call_outcome(final(rt).heap(), r)
                &&& survives(old(rt).heap(), final(rt).heap())
                &&& final(rt).roots() == old(rt).roots()
            },
    {
        if !self.is_closure(rt) {
            return Err(Error::NotCallable);
        }
        let mut args: Vec<Value> = Vec::new();
        args.push(arg);
        assert(args@ =~= seq![arg]);
        self.call_n(rt, &args)
    }

    /// Calls the closure with the two arguments `arg1` and `arg2`, in this
    /// order. See [`Value::call_n`].
    pub fn call2<R: Runtime>(self, rt: &mut R, arg1: Value, arg2: Value) -> (r: Result<
        Value,
        Error,
    >)
        requires
            old(rt).wf(),
            valid(old(rt).heap(), self),
            callable(old(rt).heap(), self) ==> valid(old(rt).heap(), arg1) && valid(
                old(rt).heap(),
                arg2,
            ),
        ensures
            final(rt).wf(),
            !callable(old(rt).heap(), self) ==> r == Err::<Value, Error>(Error::NotCallable)
                && *final(rt) == *old(rt),
            callable(old(rt).heap(), self) ==> {
                &&& r == call_result_of(old(rt).reply(self, seq![arg1, arg2]))
                &&& call_outcome(final(rt).heap(), r)
                &&& survives(old(rt).heap(), final(rt).heap())
                &&& final(rt).roots() == old(rt).roots()
            },
    {
        if !self.is_closure(rt) {
            return Err(Error::NotCallable);
        }
        let mut args: Vec<Value> = Vec::new();
        args.push(arg1);
        args.push(arg2);
        assert(args@ =~= seq![arg1, arg2]);
        self.call_n(rt, &args)
    }

    /// Calls the closure with the three arguments `arg1`, `arg2` and `arg3`,
    /// in this order. See [`Value::call_n`].
    pub fn call3<R: Runtime>(self, rt: &mut R, arg1: Value, arg2: Value, arg3: Value) -> (r:
        Result<Value, Error>)
        requires
            old(rt).wf(),
            valid(old(rt).heap(), self),
            callable(old(rt).heap(), self) ==> valid(old(rt).heap(), arg1) && valid(
                old(rt).heap(),
                arg2,
            ) && valid(old(rt).heap(), arg3),
        ensures
            final(rt).wf(),
            !callable(old(rt).heap(), self) ==> r == Err::<Value, Error>(Error::NotCallable)
                && *final(rt) == *old(rt),
            callable(old(rt).heap(), self) ==> {
                &&& r == call_result_of(old(rt).reply(self, seq![arg1, arg2, arg3]))
                &&& call_outcome(final(rt).heap(), r)
                &&& survives(old(rt).heap(), final(rt).heap())
                &&& final(rt).roots() == old(rt).roots()
            },
    {
        if !self.is_closure(rt) {
            return Err(Error::NotCallable);
        }
        let mut args: Vec<Value> = Vec::new();
        args.push(arg1);
        args.push(arg2);
        args.push(arg3);
        assert(args@ =~= seq![arg1, arg2, arg3]);
        self.call_n(rt, &args)
    }
}

/// What a closure raises comes back as it is: where the answer of the
/// runtime carries the exception mark, the call gives the error that holds
/// the exception under the mark, which carries no mark itself, and raising
/// that error again raises that very exception. Where the answer carries no
/// mark, the call gives the answer.
pub proof fn lemma_raised_comes_back(raw: Value)
    ensures
        raw.exceptional() ==> {
            let exn = Value(crate::sys::clear_mark(raw.0));
            &&& call_result_of(raw) == Err::<Value, Error>(
                Error::Caml(CamlError::Exception(exn)),
            )
            &&& exn.0 + 2 == raw.0
            &&& !exn.exceptional()
            &&& !exn.immediate()
            &&& Error::Caml(CamlError::Exception(exn)).raise_of()
                == crate::error::RaiseView::Exception(exn)
        },
        !raw.exceptional() ==> call_result_of(raw) == Ok::<Value, Error>(raw),
{
    lemma_word_parts(raw.0);
}

} // verus!
