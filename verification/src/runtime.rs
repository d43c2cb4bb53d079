//! The OCaml runtime as this crate sees it: a heap of tagged blocks, reached
//! through a small set of primitives.
//!
//! The contracts of [`Runtime`] speak of a mathematical picture of the heap, a
//! map from block addresses to blocks. A value that the runtime has handed out
//! keeps naming the same block for as long as the runtime is borrowed: an
//! implementation roots what it hands out. What may allocate, and so may run
//! the collector, takes the runtime by `&mut`; what only reads takes it by `&`.

use crate::bigarray::{element_of, element_width};
use crate::header::max_wosize;
use crate::tag::{scannable, CLOSURE, CUSTOM, DOUBLE, DOUBLE_ARRAY, OBJECT, STRING};
use crate::value::Value;
use vstd::prelude::*;
use vstd::string::StringSliceAdditionalSpecFns;

verus! {

/// A block of the heap: the tag of its header and what it holds. A block
/// that the collector scans holds `fields`, one value a word. A string holds
/// `bytes`; a double array holds `cells`, one for the bits of each double; a
/// boxed number holds `boxed`; a numeric buffer holds its flags in `boxed`
/// and the bits of its elements in `cells`. These are other readings of the
/// memory of the block, and `fields` then only says how many words the block
/// has.
pub ghost struct Block {
    pub tag: u8,
    pub fields: Seq<Value>,
    pub bytes: Seq<u8>,
    pub cells: Seq<u64>,
    pub boxed: int,
}

/// The number of bytes in a word.
pub open spec fn word_bytes() -> nat {
    (usize::BITS / 8) as nat
}

/// The number of bytes in a word.
pub fn word_size() -> (w: usize)
    ensures
        w == word_bytes(),
        w == 4 || w == 8,
{
    (usize::BITS / 8) as usize
}

/// The block with the tag `tag` and the fields `fields` that the collector
/// scans.
pub open spec fn plain(tag: u8, fields: Seq<Value>) -> Block {
    Block { tag, fields, bytes: Seq::empty(), cells: Seq::empty(), boxed: 0 }
}

/// The number of words of a custom block for `size` bytes of native data:
/// one for the operations table, and the words that the data takes.
pub open spec fn custom_wosize(size: nat) -> nat {
    (1 + (size + word_bytes() - 1) / (word_bytes() as int)) as nat
}

/// The number of elements of the array that the block is: its doubles where
/// it is a double array, its fields where it is not.
pub open spec fn array_len(b: Block) -> nat {
    if b.tag == DOUBLE_ARRAY {
        b.cells.len()
    } else {
        b.fields.len()
    }
}

/// Whether `v` can be used in the heap `h`: it is an immediate, or the address
/// of one of the blocks of `h`.
pub open spec fn valid(h: Map<Value, Block>, v: Value) -> bool {
    v.immediate() || h.contains_key(v)
}

/// What holds of every heap: no block is at the address 0, block addresses
/// are aligned words, no block is
/// larger than a header can say, and every field that the collector scans is
/// itself usable.
pub open spec fn wf_heap(h: Map<Value, Block>) -> bool {
    &&& !h.contains_key(Value(0))
    &&& forall|a: Value| #[trigger]
        h.contains_key(a) ==> a.0 & 3 == 0 && h[a].fields.len() <= max_wosize() && wf_block(h[a])
    &&& forall|a: Value, i: int|
        h.contains_key(a) && scannable(h[a].tag) && 0 <= i < h[a].fields.len() ==> valid(
            h,
            #[trigger] h[a].fields[i],
        )
}

/// What holds of every block: one that the collector scans holds fields
/// only; a string has as many bytes as its words hold; a double array has
/// no more doubles than words; a boxed double holds 64 bits; a custom block
/// has no more cells than a word can count.
pub open spec fn wf_block(b: Block) -> bool {
    &&& scannable(b.tag) ==> b == plain(b.tag, b.fields)
    &&& b.tag == STRING ==> b.bytes.len() == b.fields.len() * word_bytes()
    &&& b.tag == DOUBLE_ARRAY ==> b.cells.len() <= b.fields.len()
    &&& b.tag == DOUBLE ==> 0 <= b.boxed <= u64::MAX
    &&& b.tag == CUSTOM ==> b.cells.len() <= usize::MAX
}

/// Whether every block of `h` is in `g`, unchanged.
pub open spec fn extends(h: Map<Value, Block>, g: Map<Value, Block>) -> bool {
    forall|a: Value| #[trigger] h.contains_key(a) ==> g.contains_key(a) && g[a] == h[a]
}

/// Whether every block of `h` is still there in `g`, with the tag and the
/// number of fields that it had.
pub open spec fn survives(h: Map<Value, Block>, g: Map<Value, Block>) -> bool {
    forall|a: Value| #[trigger]
        h.contains_key(a) ==> g.contains_key(a) && g[a].tag == h[a].tag && g[a].fields.len()
            == h[a].fields.len()
}

/// The fields of a new block where the collector scans it: every field is
/// `()`.
pub open spec fn fresh_fields(n: nat) -> Seq<Value> {
    Seq::new(n, |i: int| Value(1))
}

/// The address of a block is neither an immediate nor marked as an exception.
pub proof fn lemma_address(h: Map<Value, Block>, a: Value)
    requires
        wf_heap(h),
        h.contains_key(a),
    ensures
        !a.immediate(),
        !a.exceptional(),
        a.0 & 3 == 0,
{
    let w = a.0;
    assert(w & 3 == 0 ==> w & 1 == 0 && w & 3 != 2) by (bit_vector);
}

/// The global roots after a place that held `was` was given `now` through
/// the write barrier: a root that held `was` holds `now`.
pub open spec fn roots_after_modify(roots: Set<Value>, was: Value, now: Value) -> Set<Value> {
    if roots.contains(was) {
        roots.remove(was).insert(now)
    } else {
        roots
    }
}

/// The primitives of the OCaml runtime.
pub trait Runtime {
    /// The blocks of the heap, by address.
    ///
    /// This function and the other spec functions of the trait have a body
    /// only so that the trait can be implemented outside verified code,
    /// where a spec function cannot be written. Such an implementation
    /// inherits the bodies, and nothing is proved of it. A verified
    /// implementation states its own. Of a runtime that is not known no
    /// body is assumed.
    open spec fn heap(&self) -> Map<Value, Block> {
        Map::empty()
    }

    /// The values that OCaml has registered under a name.
    open spec fn names(&self) -> Map<Seq<char>, Value> {
        Map::empty()
    }

    /// The values registered as global roots.
    open spec fn roots(&self) -> Set<Value> {
        Set::empty()
    }

    /// What the implementation needs to hold of itself.
    open spec fn inv(&self) -> bool {
        true
    }

    /// The hash of the name of a polymorphic variant, given as its bytes.
    open spec fn variant_hash(name: Seq<u8>) -> Value {
        Value(1)
    }

    /// What the closure `closure` answers in this state when it is applied
    /// to the arguments `args`: the word that the callback hands back, with
    /// the exception mark on it where the closure raises.
    open spec fn reply(&self, closure: Value, args: Seq<Value>) -> Value {
        Value(1)
    }

    /// What the lookup of the method with the hash `tag` in the object `obj`
    /// gives in this state: the method, or the word 0.
    open spec fn public_method(&self, obj: Value, tag: Value) -> Value {
        Value(0)
    }

    /// The tag in the header of the block `v`.
    fn tag_val(&self, v: Value) -> (t: u8)
        requires
            self.inv(),
            wf_heap(self.heap()),
            self.heap().contains_key(v),
        ensures
            t == self.heap()[v].tag,
    ;

    /// The number of fields of the block `v`.
    fn wosize_val(&self, v: Value) -> (n: usize)
        requires
            self.inv(),
            wf_heap(self.heap()),
            self.heap().contains_key(v),
        ensures
            n == self.heap()[v].fields.len(),
    ;

    /// Field `i` of the block `v`.
    fn field(&self, v: Value, i: usize) -> (x: Value)
        requires
            self.inv(),
            wf_heap(self.heap()),
            self.heap().contains_key(v),
            i < self.heap()[v].fields.len(),
        ensures
            x == self.heap()[v].fields[i as int],
    ;

    /// Stores `x` in field `i` of the block `v`, through the write barrier.
    fn store_field(&mut self, v: Value, i: usize, x: Value)
        requires
            old(self).inv(),
            wf_heap(old(self).heap()),
            old(self).heap().contains_key(v),
            i < old(self).heap()[v].fields.len(),
            scannable(old(self).heap()[v].tag) ==> valid(old(self).heap(), x),
        ensures
            final(self).inv(),
            wf_heap(final(self).heap()),
            final(self).heap() == old(self).heap().insert(
                v,
                (Block {
                    fields: old(self).heap()[v].fields.update(i as int, x),
                    ..old(self).heap()[v]
                }),
            ),
            final(self).names() == old(self).names(),
            final(self).roots() == old(self).roots(),
    ;

    /// Allocates a block of `n` fields with the tag `tag`. Where the
    /// collector scans the block, every field is `()`. Every block that was
    /// there is still there, unchanged. The block is new, unless it has no
    /// field: the runtime may share one empty block among all that ask for
    /// its tag.
    fn caml_alloc(&mut self, n: usize, tag: u8) -> (v: Value)
        requires
            old(self).inv(),
            wf_heap(old(self).heap()),
            n <= max_wosize(),
        ensures
            final(self).inv(),
            wf_heap(final(self).heap()),
            extends(old(self).heap(), final(self).heap()),
            final(self).heap().dom() == old(self).heap().dom().insert(v),
            final(self).heap()[v].tag == tag,
            final(self).heap()[v].fields.len() == n,
            scannable(tag) ==> final(self).heap()[v].fields == fresh_fields(n as nat),
            old(self).heap().contains_key(v) ==> n == 0,
            final(self).names() == old(self).names(),
            final(self).roots() == old(self).roots(),
    ;

    /// Allocates a block of `n` fields with the tag `tag` in the young
    /// generation, which takes blocks of one to 256 fields. The block and the
    /// heap are as after `caml_alloc`.
    fn caml_alloc_small(&mut self, n: usize, tag: u8) -> (v: Value)
        requires
            old(self).inv(),
            wf_heap(old(self).heap()),
            1 <= n <= 256,
        ensures
            final(self).inv(),
            wf_heap(final(self).heap()),
            extends(old(self).heap(), final(self).heap()),
            final(self).heap().dom() == old(self).heap().dom().insert(v),
            final(self).heap()[v].tag == tag,
            final(self).heap()[v].fields.len() == n,
            scannable(tag) ==> final(self).heap()[v].fields == fresh_fields(n as nat),
            !old(self).heap().contains_key(v),
            final(self).names() == old(self).names(),
            final(self).roots() == old(self).roots(),
    ;

    /// Applies the closure to the arguments, in their order, and hands back
    /// its answer. OCaml code runs, and may allocate and may change the
    /// fields of any block; the blocks that were there stay. The answer is a
    /// usable value, or, where the closure raised, the exception with the
    /// exception mark on it.
    fn caml_callback_exn(&mut self, closure: Value, args: &Vec<Value>) -> (r: Value)
        requires
            old(self).inv(),
            wf_heap(old(self).heap()),
            old(self).heap().contains_key(closure),
            old(self).heap()[closure].tag == CLOSURE,
            args@.len() >= 1,
            forall|i: int| 0 <= i < args@.len() ==> valid(old(self).heap(), #[trigger] args@[i]),
        ensures
            r == old(self).reply(closure, args@),
            final(self).inv(),
            wf_heap(final(self).heap()),
            survives(old(self).heap(), final(self).heap()),
            final(self).roots() == old(self).roots(),
            r.exceptional() ==> final(self).heap().contains_key(
                Value(crate::sys::clear_mark(r.0)),
            ),
            !r.exceptional() ==> valid(final(self).heap(), r),
    ;

    /// The number of elements of the array `v`.
    fn caml_array_length(&self, v: Value) -> (n: usize)
        requires
            self.inv(),
            wf_heap(self.heap()),
            self.heap().contains_key(v),
        ensures
            n == array_len(self.heap()[v]),
    ;

    /// Allocates a string of `len` bytes, whose bytes are not set yet. The
    /// block has one word more than `len` bytes fill, and its last byte says
    /// how many bytes lie between the string and that byte.
    fn caml_alloc_string(&mut self, len: usize) -> (v: Value)
        requires
            old(self).inv(),
            wf_heap(old(self).heap()),
            len / (word_bytes() as usize) < max_wosize(),
        ensures
            final(self).inv(),
            wf_heap(final(self).heap()),
            extends(old(self).heap(), final(self).heap()),
            final(self).heap().dom() == old(self).heap().dom().insert(v),
            !old(self).heap().contains_key(v),
            final(self).heap()[v].tag == STRING,
            final(self).heap()[v].fields.len() == len / (word_bytes() as usize) + 1,
            final(self).heap()[v].bytes.last() == word_bytes() - 1 - len % (word_bytes() as usize),
            final(self).names() == old(self).names(),
            final(self).roots() == old(self).roots(),
    ;

    /// Byte `i` of the string `v`.
    fn byte_u(&self, v: Value, i: usize) -> (b: u8)
        requires
            self.inv(),
            wf_heap(self.heap()),
            self.heap().contains_key(v),
            self.heap()[v].tag == STRING,
            i < self.heap()[v].bytes.len(),
        ensures
            b == self.heap()[v].bytes[i as int],
    ;

    /// Stores `b` in byte `i` of the string `v`.
    fn store_byte(&mut self, v: Value, i: usize, b: u8)
        requires
            old(self).inv(),
            wf_heap(old(self).heap()),
            old(self).heap().contains_key(v),
            old(self).heap()[v].tag == STRING,
            i < old(self).heap()[v].bytes.len(),
        ensures
            final(self).inv(),
            wf_heap(final(self).heap()),
            final(self).heap() == old(self).heap().insert(
                v,
                (Block {
                    bytes: old(self).heap()[v].bytes.update(i as int, b),
                    ..old(self).heap()[v]
                }),
            ),
            final(self).names() == old(self).names(),
            final(self).roots() == old(self).roots(),
    ;

    /// Allocates a boxed double with the bits `bits`.
    fn caml_copy_double(&mut self, bits: u64) -> (v: Value)
        requires
            old(self).inv(),
            wf_heap(old(self).heap()),
        ensures
            final(self).inv(),
            wf_heap(final(self).heap()),
            extends(old(self).heap(), final(self).heap()),
            final(self).heap().dom() == old(self).heap().dom().insert(v),
            !old(self).heap().contains_key(v),
            final(self).heap()[v].tag == DOUBLE,
            final(self).heap()[v].boxed == bits,
            final(self).names() == old(self).names(),
            final(self).roots() == old(self).roots(),
    ;

    /// The bits of the boxed double `v`.
    fn double_val(&self, v: Value) -> (bits: u64)
        requires
            self.inv(),
            wf_heap(self.heap()),
            self.heap().contains_key(v),
            self.heap()[v].tag == DOUBLE,
        ensures
            bits == self.heap()[v].boxed,
    ;

    /// Allocates an array of `n` unboxed doubles, whose bits are not set
    /// yet. An array of no double is an empty block with the tag 0, which
    /// the runtime may share.
    fn caml_alloc_float_array(&mut self, n: usize) -> (v: Value)
        requires
            old(self).inv(),
            wf_heap(old(self).heap()),
            2 * n <= max_wosize(),
        ensures
            final(self).inv(),
            wf_heap(final(self).heap()),
            extends(old(self).heap(), final(self).heap()),
            final(self).heap().dom() == old(self).heap().dom().insert(v),
            n > 0 ==> !old(self).heap().contains_key(v) && final(self).heap()[v].tag
                == DOUBLE_ARRAY && final(self).heap()[v].cells.len() == n,
            n == 0 ==> final(self).heap()[v] == plain(0, Seq::empty()),
            final(self).names() == old(self).names(),
            final(self).roots() == old(self).roots(),
    ;

    /// The bits of double `i` of the double array `v`.
    fn double_field(&self, v: Value, i: usize) -> (bits: u64)
        requires
            self.inv(),
            wf_heap(self.heap()),
            self.heap().contains_key(v),
            self.heap()[v].tag == DOUBLE_ARRAY,
            i < self.heap()[v].cells.len(),
        ensures
            bits == self.heap()[v].cells[i as int],
    ;

    /// Stores the bits `bits` in double `i` of the double array `v`.
    fn store_double_field(&mut self, v: Value, i: usize, bits: u64)
        requires
            old(self).inv(),
            wf_heap(old(self).heap()),
            old(self).heap().contains_key(v),
            old(self).heap()[v].tag == DOUBLE_ARRAY,
            i < old(self).heap()[v].cells.len(),
        ensures
            final(self).inv(),
            wf_heap(final(self).heap()),
            final(self).heap() == old(self).heap().insert(
                v,
                (Block {
                    cells: old(self).heap()[v].cells.update(i as int, bits),
                    ..old(self).heap()[v]
                }),
            ),
            final(self).names() == old(self).names(),
            final(self).roots() == old(self).roots(),
    ;

    /// Allocates a boxed 32-bit integer.
    fn caml_copy_int32(&mut self, i: i32) -> (v: Value)
        requires
            old(self).inv(),
            wf_heap(old(self).heap()),
        ensures
            final(self).inv(),
            wf_heap(final(self).heap()),
            extends(old(self).heap(), final(self).heap()),
            final(self).heap().dom() == old(self).heap().dom().insert(v),
            !old(self).heap().contains_key(v),
            final(self).heap()[v].tag == CUSTOM,
            final(self).heap()[v].boxed == i,
            final(self).names() == old(self).names(),
            final(self).roots() == old(self).roots(),
    ;

    /// Allocates a boxed 64-bit integer.
    fn caml_copy_int64(&mut self, i: i64) -> (v: Value)
        requires
            old(self).inv(),
            wf_heap(old(self).heap()),
        ensures
            final(self).inv(),
            wf_heap(final(self).heap()),
            extends(old(self).heap(), final(self).heap()),
            final(self).heap().dom() == old(self).heap().dom().insert(v),
            !old(self).heap().contains_key(v),
            final(self).heap()[v].tag == CUSTOM,
            final(self).heap()[v].boxed == i,
            final(self).names() == old(self).names(),
            final(self).roots() == old(self).roots(),
    ;

    /// Allocates a boxed integer of the size of a word.
    fn caml_copy_nativeint(&mut self, i: isize) -> (v: Value)
        requires
            old(self).inv(),
            wf_heap(old(self).heap()),
        ensures
            final(self).inv(),
            wf_heap(final(self).heap()),
            extends(old(self).heap(), final(self).heap()),
            final(self).heap().dom() == old(self).heap().dom().insert(v),
            !old(self).heap().contains_key(v),
            final(self).heap()[v].tag == CUSTOM,
            final(self).heap()[v].boxed == i,
            final(self).names() == old(self).names(),
            final(self).roots() == old(self).roots(),
    ;

    /// The integer in the custom block `v`, which holds a boxed 32-bit
    /// integer.
    fn int32_val(&self, v: Value) -> (i: i32)
        requires
            self.inv(),
            wf_heap(self.heap()),
            self.heap().contains_key(v),
            self.heap()[v].tag == CUSTOM,
            i32::MIN <= self.heap()[v].boxed <= i32::MAX,
        ensures
            i == self.heap()[v].boxed,
    ;

    /// The integer in the custom block `v`, which holds a boxed 64-bit
    /// integer.
    fn int64_val(&self, v: Value) -> (i: i64)
        requires
            self.inv(),
            wf_heap(self.heap()),
            self.heap().contains_key(v),
            self.heap()[v].tag == CUSTOM,
            i64::MIN <= self.heap()[v].boxed <= i64::MAX,
        ensures
            i == self.heap()[v].boxed,
    ;

    /// The integer in the custom block `v`, which holds a boxed integer of
    /// the size of a word.
    fn nativeint_val(&self, v: Value) -> (i: isize)
        requires
            self.inv(),
            wf_heap(self.heap()),
            self.heap().contains_key(v),
            self.heap()[v].tag == CUSTOM,
            isize::MIN <= self.heap()[v].boxed <= isize::MAX,
        ensures
            i == self.heap()[v].boxed,
    ;

    /// Allocates a custom block for `size` bytes of native data, with the
    /// operations table at the address `ops`, and tells the collector that
    /// the block stands for `used` out of `max` units of a resource. The
    /// block has one word for the table and the words that `size` bytes
    /// take; it records the address in `boxed` and the two numbers in
    /// `cells`.
    fn caml_alloc_custom(&mut self, ops: usize, size: usize, used: usize, max: usize) -> (v: Value)
        requires
            old(self).inv(),
            wf_heap(old(self).heap()),
            size / (word_bytes() as usize) + 2 <= max_wosize(),
        ensures
            final(self).inv(),
            wf_heap(final(self).heap()),
            extends(old(self).heap(), final(self).heap()),
            final(self).heap().dom() == old(self).heap().dom().insert(v),
            !old(self).heap().contains_key(v),
            final(self).heap()[v].tag == CUSTOM,
            final(self).heap()[v].fields.len() == custom_wosize(size as nat),
            final(self).heap()[v].boxed == ops,
            final(self).heap()[v].cells == seq![used as u64, max as u64],
            final(self).names() == old(self).names(),
            final(self).roots() == old(self).roots(),
    ;

    /// Allocates a custom block for `size` bytes of native data on which the
    /// collector calls the function at the address `finalizer` when the
    /// block is no longer reachable. The block is as after
    /// `caml_alloc_custom`, with the address of the function in `boxed`.
    fn caml_alloc_final(&mut self, size: usize, finalizer: usize, used: usize, max: usize) -> (v:
        Value)
        requires
            old(self).inv(),
            wf_heap(old(self).heap()),
            size / (word_bytes() as usize) + 2 <= max_wosize(),
        ensures
            final(self).inv(),
            wf_heap(final(self).heap()),
            extends(old(self).heap(), final(self).heap()),
            final(self).heap().dom() == old(self).heap().dom().insert(v),
            !old(self).heap().contains_key(v),
            final(self).heap()[v].tag == CUSTOM,
            final(self).heap()[v].fields.len() == custom_wosize(size as nat),
            final(self).heap()[v].boxed == finalizer,
            final(self).heap()[v].cells == seq![used as u64, max as u64],
            final(self).names() == old(self).names(),
            final(self).roots() == old(self).roots(),
    ;

    /// Allocates a numeric buffer of one dimension with `n` elements, whose
    /// kind and layout are in `flags`, on `size` bytes of memory that the
    /// runtime owns and frees: as many bytes as `n` elements of that kind
    /// take. The elements are not set yet.
    fn caml_ba_alloc(&mut self, flags: i32, n: usize, size: usize) -> (v: Value)
        requires
            old(self).inv(),
            wf_heap(old(self).heap()),
            element_of(flags) is Some,
            size == n * element_width(element_of(flags)->0),
        ensures
            final(self).inv(),
            wf_heap(final(self).heap()),
            extends(old(self).heap(), final(self).heap()),
            final(self).heap().dom() == old(self).heap().dom().insert(v),
            !old(self).heap().contains_key(v),
            final(self).heap()[v].tag == CUSTOM,
            final(self).heap()[v].boxed == flags,
            final(self).heap()[v].cells.len() == n,
            final(self).names() == old(self).names(),
            final(self).roots() == old(self).roots(),
    ;

    /// The number of elements of the numeric buffer `v`.
    fn ba_dim(&self, v: Value) -> (n: usize)
        requires
            self.inv(),
            wf_heap(self.heap()),
            self.heap().contains_key(v),
            self.heap()[v].tag == CUSTOM,
        ensures
            n == self.heap()[v].cells.len(),
    ;

    /// The bits of element `i` of the numeric buffer `v`.
    fn ba_get(&self, v: Value, i: usize) -> (bits: u64)
        requires
            self.inv(),
            wf_heap(self.heap()),
            self.heap().contains_key(v),
            self.heap()[v].tag == CUSTOM,
            i < self.heap()[v].cells.len(),
        ensures
            bits == self.heap()[v].cells[i as int],
    ;

    /// Stores the bits `bits` in element `i` of the numeric buffer `v`.
    fn ba_set(&mut self, v: Value, i: usize, bits: u64)
        requires
            old(self).inv(),
            wf_heap(old(self).heap()),
            old(self).heap().contains_key(v),
            old(self).heap()[v].tag == CUSTOM,
            i < old(self).heap()[v].cells.len(),
        ensures
            final(self).inv(),
            wf_heap(final(self).heap()),
            final(self).heap() == old(self).heap().insert(
                v,
                (Block {
                    cells: old(self).heap()[v].cells.update(i as int, bits),
                    ..old(self).heap()[v]
                }),
            ),
            final(self).names() == old(self).names(),
            final(self).roots() == old(self).roots(),
    ;

    /// The hash of the name `name` of a polymorphic variant, an immediate.
    fn caml_hash_variant(&self, name: &str) -> (h: Value)
        requires
            self.inv(),
            wf_heap(self.heap()),
            !name@.contains('\0'),
        ensures
            h == Self::variant_hash(name.spec_bytes()),
            h.immediate(),
    ;

    /// The method of the object `obj` whose name has the hash `tag`, or the
    /// word 0 where the object has no such method.
    fn caml_get_public_method(&self, obj: Value, tag: Value) -> (m: Value)
        requires
            self.inv(),
            wf_heap(self.heap()),
            self.heap().contains_key(obj),
            self.heap()[obj].tag == OBJECT,
            tag.immediate(),
        ensures
            m == self.public_method(obj, tag),
            m.0 != 0 ==> valid(self.heap(), m),
    ;

    /// Allocates a block that holds what the block `v` holds, word for
    /// word. The collector does not scan `v`.
    fn copy_block(&mut self, v: Value) -> (r: Value)
        requires
            old(self).inv(),
            wf_heap(old(self).heap()),
            old(self).heap().contains_key(v),
            !scannable(old(self).heap()[v].tag),
        ensures
            final(self).inv(),
            wf_heap(final(self).heap()),
            extends(old(self).heap(), final(self).heap()),
            final(self).heap().dom() == old(self).heap().dom().insert(r),
            !old(self).heap().contains_key(r),
            final(self).heap()[r] == old(self).heap()[v],
            final(self).names() == old(self).names(),
            final(self).roots() == old(self).roots(),
    ;

    /// The value that OCaml registered under `name`, if there is one.
    fn caml_named_value(&self, name: &str) -> (r: Option<Value>)
        requires
            self.inv(),
            wf_heap(self.heap()),
            !name@.contains('\0'),
        ensures
            r == (if self.names().contains_key(name@) {
                Some(self.names()[name@])
            } else {
                None
            }),
    ;

    /// Registers `v` as a global root.
    fn caml_register_global_root(&mut self, v: Value)
        requires
            old(self).inv(),
            wf_heap(old(self).heap()),
        ensures
            final(self).inv(),
            wf_heap(final(self).heap()),
            final(self).roots() == old(self).roots().insert(v),
            final(self).heap() == old(self).heap(),
            final(self).names() == old(self).names(),
    ;

    /// Takes `v` out of the global roots; where it is none of them, nothing
    /// changes.
    fn caml_remove_global_root(&mut self, v: Value)
        requires
            old(self).inv(),
            wf_heap(old(self).heap()),
        ensures
            final(self).inv(),
            wf_heap(final(self).heap()),
            final(self).roots() == old(self).roots().remove(v),
            final(self).heap() == old(self).heap(),
            final(self).names() == old(self).names(),
    ;

    /// Puts `v` in the place `place` through the write barrier. Where the
    /// value that the place held is a global root, the root now holds `v`.
    fn caml_modify(&mut self, place: &mut Value, v: Value)
        requires
            old(self).inv(),
            wf_heap(old(self).heap()),
        ensures
            *final(place) == v,
            final(self).inv(),
            wf_heap(final(self).heap()),
            final(self).roots() == roots_after_modify(old(self).roots(), *old(place), v),
            final(self).heap() == old(self).heap(),
            final(self).names() == old(self).names(),
    ;

    /// Puts `v` in the place `place`, which held nothing that the collector
    /// knew. The runtime stays as it is.
    fn caml_initialize(&mut self, place: &mut Value, v: Value)
        requires
            old(self).inv(),
            wf_heap(old(self).heap()),
        ensures
            *final(place) == v,
            final(self).inv(),
            wf_heap(final(self).heap()),
            final(self).roots() == old(self).roots(),
            final(self).heap() == old(self).heap(),
            final(self).names() == old(self).names(),
    ;
}

/// What every verified function asks of a runtime and leaves behind.
pub trait Checked: Runtime {
    /// The runtime meets its invariant and its heap is well-formed.
    spec fn wf(&self) -> bool;

    /// A runtime that is well-formed has a well-formed heap.
    proof fn lemma_wf(&self)
        requires
            self.wf(),
        ensures
            self.inv(),
            wf_heap(self.heap()),
    ;
}

impl<R: Runtime> Checked for R {
    open spec fn wf(&self) -> bool {
        self.inv() && wf_heap(self.heap())
    }

    proof fn lemma_wf(&self) {
    }
}

} // verus!
