//! A heap held in native memory that follows the contract of [`Runtime`].
//!
//! An [`Arena`] keeps its blocks in vectors and never moves them, so it needs
//! no collector. It lets code written against [`Runtime`] run where no OCaml
//! runtime is linked.

use crate::header::{
    header_tag, lemma_header, lemma_wosize_bytes, make_header, max_wosize, tag_of, wosize_of,
};
use crate::runtime::{
    array_len, custom_wosize, extends, fresh_fields, plain, valid, wf_block, wf_heap, word_bytes,
    word_size, Block, Checked, Runtime,
};
use crate::tag::{scannable, CUSTOM, DOUBLE, DOUBLE_ARRAY, STRING};
use crate::value::{int_word, lemma_word_parts, Value};
use vstd::prelude::*;
use vstd::string::StringSliceAdditionalSpecFns;

verus! {

/// Calls `Vec::len`. A vector never holds more than `isize::MAX` bytes, and a
/// `usize` takes at least four of them.
#[verifier::external_body]
fn header_count(headers: &Vec<usize>) -> (n: usize)
    ensures
        n == headers@.len(),
        4 * n <= isize::MAX,
{
    headers.len()
}

/// The values registered under a name, the later registration of a name
/// hiding the earlier ones.
pub open spec fn names_of(s: Seq<(String, Value)>) -> Map<Seq<char>, Value>
    decreases s.len(),
{
    if s.len() == 0 {
        Map::empty()
    } else {
        names_of(s.drop_last()).insert(s.last().0@, s.last().1)
    }
}

/// An aligned positive word is four times its index, and the other way round.
proof fn lemma_slot_word(w: isize, m: isize)
    ensures
        w == 4 * m && m >= 0 ==> w & 3 == 0 && w >> 2 == m,
        w & 3 == 0 ==> w == 4 * (w >> 2),
        w & 3 == 0 ==> w & 1 == 0,
{
    assert(w == 4 * m && m >= 0 ==> w & 3 == 0 && w >> 2 == m) by (bit_vector);
    assert(w & 3 == 0 ==> w == 4 * (w >> 2)) by (bit_vector);
    assert(w & 3 == 0 ==> w & 1 == 0) by (bit_vector);
}

/// The words of a custom block are the table and the data, rounded up to
/// words.
proof fn lemma_custom_wosize(size: usize)
    requires
        size / (word_bytes() as usize) + 2 <= max_wosize(),
    ensures
        custom_wosize(size as nat) == 1 + (size / (word_bytes() as usize) + (if size % (
        word_bytes() as usize) == 0 {
            0int
        } else {
            1int
        })),
        custom_wosize(size as nat) <= max_wosize(),
{
    let w = word_bytes() as int;
    let s = size as int;
    assert(w == 4 || w == 8);
    vstd::arithmetic::div_mod::lemma_fundamental_div_mod(s, w);
    vstd::arithmetic::div_mod::lemma_fundamental_div_mod(s + w - 1, w);
    if s % w == 0 {
        assert((s + w - 1) / w == s / w) by (nonlinear_arith)
            requires
                s == w * (s / w),
                s + w - 1 == w * ((s + w - 1) / w) + (s + w - 1) % w,
                0 <= (s + w - 1) % w < w,
                w > 0,
        ;
    } else {
        assert((s + w - 1) / w == s / w + 1) by (nonlinear_arith)
            requires
                s == w * (s / w) + s % w,
                0 < s % w < w,
                s + w - 1 == w * ((s + w - 1) / w) + (s + w - 1) % w,
                0 <= (s + w - 1) % w < w,
                w > 0,
        ;
    }
}

/// The sum that the hash of a name is made of: for each byte, 223 times the
/// sum so far plus the byte, in 32 bits.
pub open spec fn hash_sum(name: Seq<u8>) -> u32
    decreases name.len(),
{
    if name.len() == 0 {
        0
    } else {
        vstd::wrapping::u32_specs::wrapping_add(
            vstd::wrapping::u32_specs::wrapping_mul(hash_sum(name.drop_last()), 223),
            name.last() as u32,
        )
    }
}

/// The lowest 31 bits of `sum`, read as a signed number of 31 bits.
pub open spec fn signed_hash(sum: u32) -> i32 {
    if sum & 0x7fff_ffff >= 0x4000_0000 {
        ((sum & 0x7fff_ffff) - 0x8000_0000) as i32
    } else {
        (sum & 0x7fff_ffff) as i32
    }
}

/// A vector with the elements of `v`.
fn copy<T: Copy>(v: &Vec<T>) -> (r: Vec<T>)
    ensures
        r@ == v@,
{
    let mut r: Vec<T> = Vec::new();
    let mut i: usize = 0;
    while i < v.len()
        invariant
            i <= v@.len(),
            r@.len() == i,
            forall|j: int| 0 <= j < i ==> r@[j] == v@[j],
        decreases v@.len() - i,
    {
        r.push(v[i]);
        i += 1;
    }
    assert(r@ =~= v@);
    r
}

/// A vector of `n` times `x`.
fn repeat<T: Copy>(n: usize, x: T) -> (r: Vec<T>)
    ensures
        r@ == Seq::new(n as nat, |i: int| x),
{
    let mut r: Vec<T> = Vec::new();
    let mut i: usize = 0;
    while i < n
        invariant
            i <= n,
            r@.len() == i,
            forall|j: int| 0 <= j < i ==> r@[j] == x,
        decreases n - i,
    {
        r.push(x);
        i += 1;
    }
    assert(r@ =~= Seq::new(n as nat, |i: int| x));
    r
}

/// A heap in native memory.
pub struct Arena {
    headers: Vec<usize>,
    fields: Vec<Vec<Value>>,
    bytes: Vec<Vec<u8>>,
    cells: Vec<Vec<u64>>,
    boxed: Vec<i128>,
    named: Vec<(String, Value)>,
    replies: Vec<Value>,
    rooted: Ghost<Set<Value>>,
}

impl Arena {
    /// The blocks of the arena, by address.
    pub closed spec fn blocks(&self) -> Map<Value, Block> {
        Map::new(|a: Value| self.slot(a), |a: Value| self.block(Self::index(a)))
    }

    /// The values registered under a name.
    pub closed spec fn registered(&self) -> Map<Seq<char>, Value> {
        names_of(self.named@)
    }

    /// The values registered as global roots.
    pub closed spec fn pinned(&self) -> Set<Value> {
        self.rooted@
    }

    /// The invariant of the arena: the vectors that hold its blocks are of
    /// one length, each block is as its header says, and every field that a
    /// collector would scan is an immediate or the address of a block.
    pub closed spec fn sound(&self) -> bool {
        &&& self.headers@.len() == self.fields@.len()
        &&& self.headers@.len() == self.bytes@.len()
        &&& self.headers@.len() == self.cells@.len()
        &&& self.headers@.len() == self.boxed@.len()
        &&& 4 * self.headers@.len() <= isize::MAX
        &&& forall|k: int|
            0 <= k < self.headers@.len() ==> wosize_of(#[trigger] self.headers@[k])
                == self.fields@[k]@.len() && wf_block(self.block(k))
        &&& forall|k: int, i: int|
            0 <= k < self.headers@.len() && scannable(tag_of(self.headers@[k])) && 0 <= i
                < self.fields@[k]@.len() ==> self.usable(#[trigger] self.fields@[k]@[i])
    }

    /// Whether `a` is the address of a block of the arena: block `k` lives at
    /// four times `k + 1`.
    pub closed spec fn slot(&self, a: Value) -> bool {
        a.0 & 3 == 0 && 1 <= (a.0 >> 2) <= self.headers@.len()
    }

    /// The index of the block at the address `a`.
    pub closed spec fn index(a: Value) -> int {
        (a.0 >> 2) - 1
    }

    /// The block with the index `k`.
    pub closed spec fn block(&self, k: int) -> Block {
        Block {
            tag: tag_of(self.headers@[k]),
            fields: self.fields@[k]@,
            bytes: self.bytes@[k]@,
            cells: self.cells@[k]@,
            boxed: self.boxed@[k] as int,
        }
    }

    /// Whether `v` is an immediate or the address of a block of the arena.
    pub closed spec fn usable(&self, v: Value) -> bool {
        v.immediate() || self.slot(v)
    }

    /// The results that the next callbacks give, the last one first.
    pub closed spec fn replies(&self) -> Seq<Value> {
        self.replies@
    }

    /// What the next callback gives: `()` where no reply is left; the reply
    /// that was pushed last where it is a usable value, or an exception mark
    /// on a block of the arena; `()` in its place where it is neither.
    pub open spec fn next_reply(&self) -> Value {
        if self.replies().len() == 0 {
            Value(1)
        } else {
            let r = self.replies().last();
            if r.exceptional() {
                if self.blocks().contains_key(Value(crate::sys::clear_mark(r.0))) {
                    r
                } else {
                    Value(1)
                }
            } else if valid(self.blocks(), r) {
                r
            } else {
                Value(1)
            }
        }
    }

    /// The replies that are left after the next callback.
    pub open spec fn replies_left(&self) -> Seq<Value> {
        if self.replies().len() == 0 {
            self.replies()
        } else {
            self.replies().drop_last()
        }
    }

    /// An arena without blocks, names, roots or replies.
    pub fn new() -> (a: Arena)
        ensures
            a.sound(),
            a.blocks() == Map::<Value, Block>::empty(),
            a.registered() == Map::<Seq<char>, Value>::empty(),
            a.pinned() == Set::<Value>::empty(),
            a.replies() == Seq::<Value>::empty(),
    {
        let a = Arena {
            headers: Vec::new(),
            fields: Vec::new(),
            bytes: Vec::new(),
            cells: Vec::new(),
            boxed: Vec::new(),
            named: Vec::new(),
            replies: Vec::new(),
            rooted: Ghost(Set::empty()),
        };
        assert(a.blocks() =~= Map::<Value, Block>::empty());
        a
    }

    /// Whether `v` is an immediate or the address of a block of the arena.
    pub fn is_valid(&self, v: Value) -> (r: bool)
        requires
            self.sound(),
        ensures
            r == valid(self.blocks(), v),
    {
        if v.is_long() {
            return true;
        }
        let n = self.headers.len();
        let w: isize = v.0;
        let m: isize = w >> 2;
        (w & 3) == 0 && 1 <= m && m <= (n as isize)
    }

    /// Registers `v` under `name`, as OCaml's `Callback.register` does.
    pub fn register(&mut self, name: &str, v: Value)
        requires
            old(self).sound(),
        ensures
            final(self).sound(),
            final(self).registered() == old(self).registered().insert(name@, v),
            final(self).blocks() == old(self).blocks(),
            final(self).pinned() == old(self).pinned(),
            final(self).replies() == old(self).replies(),
    {
        let ghost before = self.named@;
        self.named.push((name.to_owned(), v));
        assert(self.named@.drop_last() =~= before);
    }

    /// Makes `r` the result of the next callback. A word that is no usable
    /// value when the callback is made gives `()` in its place.
    pub fn push_reply(&mut self, r: Value)
        requires
            old(self).sound(),
        ensures
            final(self).sound(),
            final(self).replies() == old(self).replies().push(r),
            final(self).blocks() == old(self).blocks(),
            final(self).registered() == old(self).registered(),
            final(self).pinned() == old(self).pinned(),
    {
        self.replies.push(r);
    }

    /// Makes the next callback raise the exception `exn`, which is a block of
    /// the arena.
    pub fn push_raise(&mut self, exn: Value)
        requires
            old(self).sound(),
            old(self).blocks().contains_key(exn),
        ensures
            final(self).sound(),
            final(self).replies() == old(self).replies().push(Value((exn.0 + 2) as isize)),
            Value((exn.0 + 2) as isize).exceptional(),
            crate::sys::clear_mark((exn.0 + 2) as isize) == exn.0,
            final(self).blocks() == old(self).blocks(),
            final(self).registered() == old(self).registered(),
            final(self).pinned() == old(self).pinned(),
    {
        proof {
            lemma_slot_word(exn.0, 0);
            lemma_word_parts(exn.0);
        }
        self.replies.push(Value(exn.0 + 2));
    }

    /// Where the headers and the fields of the arena `before` were kept,
    /// every field that a collector would scan is still usable.
    proof fn lemma_fields_kept(&self, before: Arena)
        requires
            before.sound(),
            self.headers@ == before.headers@,
            self.fields@ == before.fields@,
        ensures
            forall|j: int, l: int|
                0 <= j < self.headers@.len() && scannable(tag_of(self.headers@[j])) && 0 <= l
                    < self.fields@[j]@.len() ==> self.usable(#[trigger] self.fields@[j]@[l]),
    {
        assert forall|j: int, l: int|
            0 <= j < self.headers@.len() && scannable(tag_of(self.headers@[j])) && 0 <= l
                < self.fields@[j]@.len() implies self.usable(#[trigger] self.fields@[j]@[l]) by {
            assert(before.usable(before.fields@[j]@[l]));
        }
    }

    /// The heap after one block of the arena `before` was changed in place.
    proof fn lemma_changed(&self, before: Arena, v: Value)
        requires
            before.slot(v),
            self.headers@ == before.headers@,
            self.fields@.len() == before.fields@.len(),
            self.bytes@.len() == before.bytes@.len(),
            self.cells@.len() == before.cells@.len(),
            self.boxed@ == before.boxed@,
            forall|j: int|
                0 <= j < self.headers@.len() && j != Self::index(v) ==> self.block(j)
                    == before.block(j),
        ensures
            self.blocks() == before.blocks().insert(v, self.block(Self::index(v))),
            forall|a: Value| self.slot(a) == before.slot(a),
    {
        assert forall|a: Value| self.slot(a) && a != v implies Self::index(a) != Self::index(v) by {
            lemma_slot_word(a.0, 0);
            lemma_slot_word(v.0, 0);
        }
        assert(self.blocks() =~= before.blocks().insert(v, self.block(Self::index(v))));
    }

    /// Puts one more block in the arena.
    fn push_block(
        &mut self,
        tag: u8,
        fields: Vec<Value>,
        bytes: Vec<u8>,
        cells: Vec<u64>,
        boxed: i128,
    ) -> (v: Value)
        requires
            old(self).sound(),
            fields@.len() <= max_wosize(),
            wf_block(
                (Block {
                    tag,
                    fields: fields@,
                    bytes: bytes@,
                    cells: cells@,
                    boxed: boxed as int,
                }),
            ),
            scannable(tag) ==> forall|i: int|
                0 <= i < fields@.len() ==> old(self).usable(#[trigger] fields@[i]),
        ensures
            final(self).sound(),
            !old(self).blocks().contains_key(v),
            final(self).blocks() == old(self).blocks().insert(
                v,
                (Block {
                    tag,
                    fields: fields@,
                    bytes: bytes@,
                    cells: cells@,
                    boxed: boxed as int,
                }),
            ),
            extends(old(self).blocks(), final(self).blocks()),
            final(self).blocks().dom() == old(self).blocks().dom().insert(v),
            final(self).registered() == old(self).registered(),
            final(self).pinned() == old(self).pinned(),
            final(self).replies() == old(self).replies(),
            wf_heap(final(self).blocks()),
    {
        let ghost before = *self;
        let ghost made = Block {
            tag,
            fields: fields@,
            bytes: bytes@,
            cells: cells@,
            boxed: boxed as int,
        };
        let n = fields.len();
        self.headers.push(make_header(n, tag));
        self.fields.push(fields);
        self.bytes.push(bytes);
        self.cells.push(cells);
        self.boxed.push(boxed);
        let count = header_count(&self.headers);
        let v = Value((count * 4) as isize);
        proof {
            lemma_slot_word(v.0, count as isize);
            assert(self.slot(v));
            assert(Self::index(v) == count - 1);
            assert(!before.slot(v));
            assert(self.block(count - 1) == made);
            assert forall|k: int| 0 <= k < count - 1 implies self.block(k) == before.block(k) by {}
            assert forall|a: Value| before.slot(a) implies self.slot(a) && Self::index(a) < count
                - 1 by {}
            assert forall|a: Value| self.slot(a) && a != v implies before.slot(a) by {
                lemma_slot_word(a.0, 0);
            }
            assert forall|k: int| 0 <= k < self.headers@.len() implies wosize_of(
                #[trigger] self.headers@[k],
            ) == self.fields@[k]@.len() && wf_block(self.block(k)) by {
                if k < count - 1 {
                    assert(wosize_of(before.headers@[k]) == before.fields@[k]@.len());
                    assert(self.block(k) == before.block(k));
                }
            }
            assert forall|k: int, l: int|
                0 <= k < self.headers@.len() && scannable(tag_of(self.headers@[k])) && 0 <= l
                    < self.fields@[k]@.len() implies self.usable(
                #[trigger] self.fields@[k]@[l],
            ) by {
                if k < count - 1 {
                    assert(before.usable(before.fields@[k]@[l]));
                } else {
                    assert(before.usable(fields@[l]));
                }
            }
            assert(self.blocks() =~= before.blocks().insert(v, made));
            assert(self.blocks().dom() =~= before.blocks().dom().insert(v));
            assert(extends(before.blocks(), self.blocks()));
            self.lemma_heap();
        }
        v
    }

    /// Stores `bits` in cell `i` of the block `v`.
    fn store_double_field_at(&mut self, v: Value, i: usize, bits: u64)
        requires
            old(self).sound(),
            old(self).blocks().contains_key(v),
            i < old(self).blocks()[v].cells.len(),
        ensures
            final(self).sound(),
            final(self).blocks() == old(self).blocks().insert(
                v,
                (Block {
                    cells: old(self).blocks()[v].cells.update(i as int, bits),
                    ..old(self).blocks()[v]
                }),
            ),
            final(self).registered() == old(self).registered(),
            final(self).pinned() == old(self).pinned(),
            final(self).replies() == old(self).replies(),
            wf_heap(final(self).blocks()),
    {
        let k: usize = ((v.0 >> 2) - 1) as usize;
        let ghost before = *self;
        self.cells[k][i] = bits;
        proof {
            assert(wf_block(before.block(k as int)));
            self.lemma_changed(before, v);
            self.lemma_fields_kept(before);
            self.lemma_heap();
        }
    }

    /// An arena that meets its invariant has a well-formed heap.
    proof fn lemma_heap(&self)
        requires
            self.inv(),
        ensures
            wf_heap(self.blocks()),
    {
        let h = self.blocks();
        assert(!h.contains_key(Value(0))) by {
            assert(0isize >> 2 == 0) by (bit_vector);
        }
        assert forall|a: Value| #[trigger] h.contains_key(a) implies a.0 & 3 == 0
            && h[a].fields.len() <= max_wosize() && wf_block(h[a]) by {
            let k = Self::index(a);
            lemma_header(0, 0, self.headers@[k]);
            assert(wf_block(self.block(k)));
        }
        assert forall|a: Value, i: int|
            h.contains_key(a) && scannable(h[a].tag) && 0 <= i < h[a].fields.len() implies valid(
            h,
            #[trigger] h[a].fields[i],
        ) by {
            let k = Self::index(a);
            assert(self.usable(self.fields@[k]@[i]));
        }
    }
}

impl Runtime for Arena {
    open spec fn heap(&self) -> Map<Value, Block> {
        self.blocks()
    }

    open spec fn names(&self) -> Map<Seq<char>, Value> {
        self.registered()
    }

    open spec fn roots(&self) -> Set<Value> {
        self.pinned()
    }

    open spec fn inv(&self) -> bool {
        self.sound()
    }

    fn tag_val(&self, v: Value) -> (t: u8) {
        let k: usize = ((v.0 >> 2) - 1) as usize;
        header_tag(self.headers[k])
    }

    fn wosize_val(&self, v: Value) -> (n: usize) {
        let k: usize = ((v.0 >> 2) - 1) as usize;
        self.fields[k].len()
    }

    fn field(&self, v: Value, i: usize) -> (x: Value) {
        let k: usize = ((v.0 >> 2) - 1) as usize;
        self.fields[k][i]
    }

    fn store_field(&mut self, v: Value, i: usize, x: Value) {
        let k: usize = ((v.0 >> 2) - 1) as usize;
        let ghost before = *self;
        self.fields[k][i] = x;
        proof {
            assert(wf_block(before.block(k as int)));
            self.lemma_changed(before, v);
            assert forall|j: int, l: int|
                0 <= j < self.headers@.len() && scannable(tag_of(self.headers@[j])) && 0 <= l
                    < self.fields@[j]@.len() implies self.usable(
                #[trigger] self.fields@[j]@[l],
            ) by {
                if j == k && l == i {
                } else {
                    assert(before.usable(before.fields@[j]@[l]));
                }
            }
            self.lemma_heap();
        }
    }

    fn caml_alloc(&mut self, n: usize, tag: u8) -> (v: Value) {
        let w = word_size();
        let row = repeat(n, Value::unit());
        assert(row@ =~= fresh_fields(n as nat));
        proof {
            lemma_wosize_bytes(n);
        }
        let bytes: Vec<u8> = if tag == STRING {
            repeat(n * w, 0u8)
        } else {
            Vec::new()
        };
        self.push_block(tag, row, bytes, Vec::new(), 0)
    }

    fn caml_alloc_small(&mut self, n: usize, tag: u8) -> (v: Value) {
        assert(256usize <= !0usize >> 10) by (bit_vector);
        self.caml_alloc(n, tag)
    }

    fn caml_array_length(&self, v: Value) -> (n: usize) {
        let k: usize = ((v.0 >> 2) - 1) as usize;
        assert(wf_block(self.block(k as int)));
        if header_tag(self.headers[k]) == DOUBLE_ARRAY {
            self.cells[k].len()
        } else {
            self.fields[k].len()
        }
    }

    fn caml_alloc_string(&mut self, len: usize) -> (v: Value) {
        let w = word_size();
        let n = len / w + 1;
        proof {
            lemma_wosize_bytes(n);
        }
        let row = repeat(n, Value::unit());
        let mut bytes: Vec<u8> = repeat(n * w, 0u8);
        bytes.set(n * w - 1, (w - 1 - len % w) as u8);
        self.push_block(STRING, row, bytes, Vec::new(), 0)
    }

    fn byte_u(&self, v: Value, i: usize) -> (b: u8) {
        let k: usize = ((v.0 >> 2) - 1) as usize;
        self.bytes[k][i]
    }

    fn store_byte(&mut self, v: Value, i: usize, b: u8) {
        let k: usize = ((v.0 >> 2) - 1) as usize;
        let ghost before = *self;
        self.bytes[k][i] = b;
        proof {
            assert(wf_block(before.block(k as int)));
            self.lemma_changed(before, v);
            self.lemma_fields_kept(before);
            self.lemma_heap();
        }
    }

    fn caml_copy_double(&mut self, bits: u64) -> (v: Value) {
        assert(1usize <= !0usize >> 10) by (bit_vector);
        let row = repeat(1, Value::unit());
        self.push_block(DOUBLE, row, Vec::new(), Vec::new(), bits as i128)
    }

    fn double_val(&self, v: Value) -> (bits: u64) {
        let k: usize = ((v.0 >> 2) - 1) as usize;
        assert(wf_block(self.block(k as int)));
        self.boxed[k] as u64
    }

    fn caml_alloc_float_array(&mut self, n: usize) -> (v: Value) {
        if n == 0 {
            self.push_block(0, Vec::new(), Vec::new(), Vec::new(), 0)
        } else {
            let row = repeat(n, Value::unit());
            let cells = repeat(n, 0u64);
            self.push_block(DOUBLE_ARRAY, row, Vec::new(), cells, 0)
        }
    }

    fn double_field(&self, v: Value, i: usize) -> (bits: u64) {
        let k: usize = ((v.0 >> 2) - 1) as usize;
        self.cells[k][i]
    }

    fn store_double_field(&mut self, v: Value, i: usize, bits: u64) {
        self.store_double_field_at(v, i, bits);
    }

    fn caml_copy_int32(&mut self, i: i32) -> (v: Value) {
        assert(2usize <= !0usize >> 10) by (bit_vector);
        let row = repeat(2, Value::unit());
        self.push_block(CUSTOM, row, Vec::new(), Vec::new(), i as i128)
    }

    fn caml_copy_int64(&mut self, i: i64) -> (v: Value) {
        assert(2usize <= !0usize >> 10) by (bit_vector);
        let row = repeat(2, Value::unit());
        self.push_block(CUSTOM, row, Vec::new(), Vec::new(), i as i128)
    }

    fn caml_copy_nativeint(&mut self, i: isize) -> (v: Value) {
        assert(2usize <= !0usize >> 10) by (bit_vector);
        let row = repeat(2, Value::unit());
        self.push_block(CUSTOM, row, Vec::new(), Vec::new(), i as i128)
    }

    fn int32_val(&self, v: Value) -> (i: i32) {
        let k: usize = ((v.0 >> 2) - 1) as usize;
        self.boxed[k] as i32
    }

    fn int64_val(&self, v: Value) -> (i: i64) {
        let k: usize = ((v.0 >> 2) - 1) as usize;
        self.boxed[k] as i64
    }

    fn nativeint_val(&self, v: Value) -> (i: isize) {
        let k: usize = ((v.0 >> 2) - 1) as usize;
        self.boxed[k] as isize
    }

    fn caml_alloc_custom(&mut self, ops: usize, size: usize, used: usize, max: usize) -> (v: Value) {
        let w = word_size();
        proof {
            lemma_custom_wosize(size);
        }
        let n = 1 + (size / w + (if size % w == 0 {
            0
        } else {
            1
        }));
        let row = repeat(n, Value::unit());
        let mut cells: Vec<u64> = Vec::new();
        cells.push(used as u64);
        cells.push(max as u64);
        assert(cells@ =~= seq![used as u64, max as u64]);
        self.push_block(CUSTOM, row, Vec::new(), cells, ops as i128)
    }

    fn caml_alloc_final(&mut self, size: usize, finalizer: usize, used: usize, max: usize) -> (v:
        Value) {
        self.caml_alloc_custom(finalizer, size, used, max)
    }

    fn caml_ba_alloc(&mut self, flags: i32, n: usize, size: usize) -> (v: Value) {
        assert(3usize <= !0usize >> 10) by (bit_vector);
        let row = repeat(3, Value::unit());
        let cells = repeat(n, 0u64);
        self.push_block(CUSTOM, row, Vec::new(), cells, flags as i128)
    }

    fn ba_dim(&self, v: Value) -> (n: usize) {
        let k: usize = ((v.0 >> 2) - 1) as usize;
        self.cells[k].len()
    }

    fn ba_get(&self, v: Value, i: usize) -> (bits: u64) {
        let k: usize = ((v.0 >> 2) - 1) as usize;
        self.cells[k][i]
    }

    fn ba_set(&mut self, v: Value, i: usize, bits: u64) {
        self.store_double_field_at(v, i, bits);
    }

    closed spec fn variant_hash(name: Seq<u8>) -> Value {
        Value(int_word(signed_hash(hash_sum(name)) as isize))
    }

    fn caml_hash_variant(&self, name: &str) -> (h: Value) {
        let bytes = name.as_bytes();
        let n = bytes.len();
        let mut sum: u32 = 0;
        let mut i: usize = 0;
        while i < n
            invariant
                i <= n,
                n == bytes@.len(),
                sum == hash_sum(bytes@.take(i as int)),
            decreases n - i,
        {
            proof {
                assert(bytes@.take(i + 1).drop_last() =~= bytes@.take(i as int));
            }
            sum = sum.wrapping_mul(223).wrapping_add(bytes[i] as u32);
            i += 1;
        }
        assert(bytes@.take(n as int) =~= bytes@);
        let low: u32 = sum & 0x7fff_ffff;
        assert(sum & 0x7fff_ffff <= 0x7fff_ffff) by (bit_vector);
        let signed: i32 = if low >= 0x4000_0000 {
            (low as i64 - 0x8000_0000) as i32
        } else {
            low as i32
        };
        Value::val_int(signed as isize)
    }

    /// The arena holds no object with methods: the lookup gives the word 0.
    open spec fn public_method(&self, obj: Value, tag: Value) -> Value {
        Value(0)
    }

    fn caml_get_public_method(&self, obj: Value, tag: Value) -> (m: Value) {
        Value(0)
    }

    fn copy_block(&mut self, v: Value) -> (r: Value) {
        let k: usize = ((v.0 >> 2) - 1) as usize;
        proof {
            self.lemma_heap();
            assert(self.blocks().contains_key(v));
            lemma_header(0, 0, self.headers@[k as int]);
        }
        let tag = header_tag(self.headers[k]);
        let fields = copy(&self.fields[k]);
        let bytes = copy(&self.bytes[k]);
        let cells = copy(&self.cells[k]);
        let boxed = self.boxed[k];
        self.push_block(tag, fields, bytes, cells, boxed)
    }

    /// Whatever the closure and the arguments, the answer is the reply that
    /// was pushed last.
    open spec fn reply(&self, closure: Value, args: Seq<Value>) -> Value {
        self.next_reply()
    }

    /// Gives the reply that was pushed last and takes it off the replies.
    /// The blocks, names and roots stay as they are.
    fn caml_callback_exn(&mut self, closure: Value, args: &Vec<Value>) -> (r: Value)
        ensures
            final(self).replies() == old(self).replies_left(),
            final(self).blocks() == old(self).blocks(),
            final(self).registered() == old(self).registered(),
            final(self).pinned() == old(self).pinned(),
    {
        let ghost before = *self;
        let unit = Value::unit();
        assert(1isize & 3 != 2) by (bit_vector);
        let reply = self.replies.pop();
        proof {
            assert(self.blocks() =~= before.blocks());
            self.lemma_heap();
            assert forall|a: Value| self.blocks().contains_key(a) implies !a.immediate() by {
                crate::runtime::lemma_address(self.blocks(), a);
            }
        }
        match reply {
            Some(r) => {
                if r.is_exception_result() {
                    let exn = Value(crate::sys::extract_exception(r.0));
                    proof {
                        lemma_word_parts(r.0);
                    }
                    if !exn.is_long() && self.is_valid(exn) {
                        r
                    } else {
                        unit
                    }
                } else if self.is_valid(r) {
                    r
                } else {
                    unit
                }
            },
            None => unit,
        }
    }

    fn caml_named_value(&self, name: &str) -> (r: Option<Value>) {
        let key = name.to_owned();
        let mut i: usize = self.named.len();
        assert(self.named@.take(i as int) =~= self.named@);
        while i > 0
            invariant
                i <= self.named@.len(),
                key@ == name@,
                names_of(self.named@).contains_key(name@) == names_of(
                    self.named@.take(i as int),
                ).contains_key(name@),
                names_of(self.named@).contains_key(name@) ==> names_of(self.named@)[name@]
                    == names_of(self.named@.take(i as int))[name@],
            decreases i,
        {
            let ghost s = self.named@.take(i as int);
            assert(s.drop_last() =~= self.named@.take(i - 1));
            i -= 1;
            if self.named[i].0 == key {
                return Some(self.named[i].1);
            }
        }
        assert(self.named@.take(0) =~= Seq::<(String, Value)>::empty());
        None
    }

    fn caml_register_global_root(&mut self, v: Value) {
        self.rooted = Ghost(self.rooted@.insert(v));
        proof {
            self.lemma_heap();
        }
    }

    fn caml_remove_global_root(&mut self, v: Value) {
        self.rooted = Ghost(self.rooted@.remove(v));
        proof {
            self.lemma_heap();
        }
    }

    fn caml_modify(&mut self, place: &mut Value, v: Value) {
        self.rooted = Ghost(crate::runtime::roots_after_modify(self.rooted@, *place, v));
        *place = v;
        proof {
            self.lemma_heap();
        }
    }

    fn caml_initialize(&mut self, place: &mut Value, v: Value) {
        *place = v;
    }
}

} // verus!
