//! OCaml strings and byte sequences.
//!
//! A string is a block that the collector does not scan. It has one word
//! more than its bytes fill; the bytes after the string are padding, and the
//! last byte of the block holds the number of bytes between the string and
//! that last byte. So the length of the string is the number of bytes of the
//! block, less one, less the last byte.

use crate::conv::{Encoded, FromValue, ToValue};
use crate::header::{lemma_wosize_bytes, max_wosize};
use crate::runtime::{extends, lemma_address, valid, word_bytes, word_size, Block, Checked, Runtime};
use crate::tag::STRING;
use crate::value::Value;
use vstd::prelude::*;
use vstd::string::StringSliceAdditionalSpecFns;
use vstd::utf8::{
    decode_utf8, decode_utf8_encode_utf8, encode_utf8, encode_utf8_decode_utf8,
    encode_utf8_valid_utf8, valid_utf8,
};

verus! {

/// The number of words of a string of `len` bytes.
pub open spec fn string_wosize(len: nat) -> nat {
    len / word_bytes() + 1
}

/// The last byte of the block of a string of `len` bytes.
pub open spec fn string_pad(len: nat) -> nat {
    (word_bytes() - 1 - len % word_bytes()) as nat
}

/// The length of the string in a block of `wosize` words whose last byte is
/// `last`.
pub open spec fn string_len(wosize: nat, last: u8) -> int {
    wosize * word_bytes() - 1 - last
}

/// Whether `v` is a string of the heap `h`: a block with the tag of strings
/// whose last byte is less than the size of a word.
pub open spec fn is_string(h: Map<Value, Block>, v: Value) -> bool {
    &&& h.contains_key(v)
    &&& h[v].tag == STRING
    &&& h[v].fields.len() >= 1
    &&& h[v].bytes.len() == h[v].fields.len() * word_bytes()
    &&& h[v].bytes.last() < word_bytes()
}

/// The bytes of the string that the block `b` is.
pub open spec fn string_bytes(b: Block) -> Seq<u8> {
    b.bytes.take(string_len(b.fields.len(), b.bytes.last()))
}

/// A word has four or eight bytes.
pub proof fn lemma_word_bytes()
    ensures
        word_bytes() == 4 || word_bytes() == 8,
{
}

/// The length that is read from the block of a string of `len` bytes is
/// `len`, and the padding fits in a byte.
pub proof fn lemma_string_len(len: nat)
    ensures
        string_pad(len) < word_bytes(),
        string_len(string_wosize(len), string_pad(len) as u8) == len,
{
    lemma_word_bytes();
    let w = word_bytes() as int;
    assert(len as int == w * (len as int / w) + len as int % w) by {
        vstd::arithmetic::div_mod::lemma_fundamental_div_mod(len as int, w);
    }
    assert((len as int / w + 1) * w == (len as int / w) * w + w) by (nonlinear_arith);
    assert((len as int / w) * w == w * (len as int / w)) by (nonlinear_arith);
}

impl Value {
    /// The number of bytes of the string.
    pub fn string_length<R: Runtime>(self, rt: &R) -> (n: usize)
        requires
            rt.wf(),
            is_string(rt.heap(), self),
        ensures
            n == string_bytes(rt.heap()[self]).len(),
            n == string_len(rt.heap()[self].fields.len(), rt.heap()[self].bytes.last()),
    {
        let w = word_size();
        let wosize = rt.wosize_val(self);
        proof {
            rt.lemma_wf();
            lemma_wosize_bytes(wosize);
            lemma_word_bytes();
            assert(wosize * w <= wosize * 8) by (nonlinear_arith)
                requires
                    w <= 8,
            ;
            assert(wosize * w >= w) by (nonlinear_arith)
                requires
                    wosize >= 1,
            ;
        }
        let size = wosize * w;
        let last = rt.byte_u(self, size - 1);
        size - 1 - (last as usize)
    }

    /// A new string that holds the bytes `s`.
    pub fn bytes<R: Runtime>(rt: &mut R, s: &Vec<u8>) -> (v: Value)
        requires
            old(rt).wf(),
            s@.len() / word_bytes() < max_wosize(),
        ensures
            final(rt).wf(),
            extends(old(rt).heap(), final(rt).heap()),
            final(rt).heap().dom() == old(rt).heap().dom().insert(v),
            !old(rt).heap().contains_key(v),
            is_string(final(rt).heap(), v),
            string_bytes(final(rt).heap()[v]) == s@,
            final(rt).names() == old(rt).names(),
            final(rt).roots() == old(rt).roots(),
    {
        let ghost before = rt.heap();
        let len = s.len();
        let v = rt.caml_alloc_string(len);
        proof {
            rt.lemma_wf();
            lemma_string_len(len as nat);
            lemma_word_bytes();
            assert(rt.heap().dom().contains(v));
            assert(rt.heap().contains_key(v));
        }
        let ghost total = rt.heap()[v].bytes.len();
        let mut i: usize = 0;
        while i < len
            invariant
                i <= len,
                len == s@.len(),
                len < total,
                rt.wf(),
                !before.contains_key(v),
                extends(before, rt.heap()),
                rt.heap().dom() == before.dom().insert(v),
                rt.heap()[v].tag == STRING,
                rt.heap()[v].fields.len() == string_wosize(len as nat),
                rt.heap()[v].bytes.len() == total,
                total == string_wosize(len as nat) * word_bytes(),
                rt.heap()[v].bytes.last() == string_pad(len as nat),
                forall|j: int| 0 <= j < i ==> rt.heap()[v].bytes[j] == s@[j],
                rt.names() == old(rt).names(),
                rt.roots() == old(rt).roots(),
            decreases len - i,
        {
            rt.store_byte(v, i, s[i]);
            proof {
                assert(rt.heap().dom() =~= before.dom().insert(v));
            }
            i += 1;
        }
        proof {
            assert(string_bytes(rt.heap()[v]) =~= s@);
        }
        v
    }

    /// A new string that holds the bytes of the text `s`.
    pub fn string<R: Runtime>(rt: &mut R, s: &str) -> (v: Value)
        requires
            old(rt).wf(),
            s.spec_bytes().len() / word_bytes() < max_wosize(),
        ensures
            final(rt).wf(),
            extends(old(rt).heap(), final(rt).heap()),
            final(rt).heap().dom() == old(rt).heap().dom().insert(v),
            !old(rt).heap().contains_key(v),
            is_string(final(rt).heap(), v),
            string_bytes(final(rt).heap()[v]) == s.spec_bytes(),
            final(rt).names() == old(rt).names(),
            final(rt).roots() == old(rt).roots(),
    {
        let bytes = vstd::slice::slice_to_vec(s.as_bytes());
        Value::bytes(rt, &bytes)
    }

    /// The bytes of the string.
    pub fn to_bytes<R: Runtime>(self, rt: &R) -> (s: Vec<u8>)
        requires
            rt.wf(),
            is_string(rt.heap(), self),
        ensures
            s@ == string_bytes(rt.heap()[self]),
    {
        let n = self.string_length(rt);
        let mut out: Vec<u8> = Vec::new();
        let mut i: usize = 0;
        while i < n
            invariant
                i <= n,
                rt.wf(),
                is_string(rt.heap(), self),
                n == string_bytes(rt.heap()[self]).len(),
                n < rt.heap()[self].bytes.len(),
                out@.len() == i,
                forall|j: int| 0 <= j < i ==> out@[j] == rt.heap()[self].bytes[j],
            decreases n - i,
        {
            out.push(rt.byte_u(self, i));
            i += 1;
        }
        proof {
            assert(out@ =~= string_bytes(rt.heap()[self]));
        }
        out
    }
}

impl Encoded for Vec<u8> {
    open spec fn fits(&self, h: Map<Value, Block>) -> bool {
        self@.len() / word_bytes() < max_wosize()
    }

    open spec fn decode(h: Map<Value, Block>, v: Value) -> Option<Seq<u8>> {
        if is_string(h, v) && !v.immediate() {
            Some(string_bytes(h[v]))
        } else {
            None
        }
    }

    open spec fn reads(h: Map<Value, Block>, v: Value, b: Value) -> bool {
        b == v
    }

    proof fn lemma_fits_grows(&self, h: Map<Value, Block>, g: Map<Value, Block>) {
    }

    proof fn lemma_decode_frame(h: Map<Value, Block>, g: Map<Value, Block>, v: Value) {
        assert(h.contains_key(v));
        assert(Self::reads(h, v, v));
    }

    proof fn lemma_decode_valid(h: Map<Value, Block>, v: Value) {
    }
}

impl ToValue for Vec<u8> {
    fn to_value<R: Runtime>(&self, rt: &mut R) -> (v: Value) {
        let v = Value::bytes(rt, self);
        proof {
            rt.lemma_wf();
            lemma_address(rt.heap(), v);
        }
        v
    }
}

impl FromValue for Vec<u8> {
    fn from_value<R: Runtime>(rt: &R, v: Value) -> (x: Vec<u8>) {
        let x = v.to_bytes(rt);
        proof {
            rt.lemma_wf();
            lemma_word_bytes();
            let n = x@.len() as int;
            let m = rt.heap()[v].fields.len() as int;
            let w = word_bytes() as int;
            assert(m * w >= w) by (nonlinear_arith)
                requires
                    m >= 1,
                    w > 0,
            ;
            assert(n == string_len(m as nat, rt.heap()[v].bytes.last()));
            assert(n / w < m) by (nonlinear_arith)
                requires
                    0 <= n < m * w,
                    w > 0,
            ;
        }
        x
    }
}

/// Calls `String::from_utf8`, which gives the text that the bytes encode
/// where they are valid UTF-8, and an error where they are not.
#[verifier::external_body]
fn text_of(bytes: Vec<u8>) -> (r: Option<String>)
    ensures
        r is Some <==> valid_utf8(bytes@),
        r is Some ==> r->0@ == decode_utf8(bytes@),
{
    String::from_utf8(bytes).ok()
}

impl Value {
    /// The text of the string, if its bytes are valid UTF-8.
    pub fn to_text<R: Runtime>(self, rt: &R) -> (s: Option<String>)
        requires
            rt.wf(),
            is_string(rt.heap(), self),
        ensures
            s is Some <==> valid_utf8(string_bytes(rt.heap()[self])),
            s is Some ==> s->0@ == decode_utf8(string_bytes(rt.heap()[self])),
    {
        text_of(self.to_bytes(rt))
    }
}

impl Encoded for String {
    open spec fn fits(&self, h: Map<Value, Block>) -> bool {
        encode_utf8(self@).len() / word_bytes() < max_wosize()
    }

    open spec fn decode(h: Map<Value, Block>, v: Value) -> Option<Seq<char>> {
        if is_string(h, v) && !v.immediate() && valid_utf8(string_bytes(h[v])) {
            Some(decode_utf8(string_bytes(h[v])))
        } else {
            None
        }
    }

    open spec fn reads(h: Map<Value, Block>, v: Value, b: Value) -> bool {
        b == v
    }

    proof fn lemma_fits_grows(&self, h: Map<Value, Block>, g: Map<Value, Block>) {
    }

    proof fn lemma_decode_frame(h: Map<Value, Block>, g: Map<Value, Block>, v: Value) {
        assert(h.contains_key(v));
        assert(Self::reads(h, v, v));
    }

    proof fn lemma_decode_valid(h: Map<Value, Block>, v: Value) {
    }
}

impl ToValue for String {
    fn to_value<R: Runtime>(&self, rt: &mut R) -> (v: Value) {
        let v = Value::string(rt, self.as_str());
        proof {
            rt.lemma_wf();
            lemma_address(rt.heap(), v);
            encode_utf8_valid_utf8(self@);
            encode_utf8_decode_utf8(self@);
        }
        v
    }
}

impl FromValue for String {
    fn from_value<R: Runtime>(rt: &R, v: Value) -> (x: String) {
        let bytes = Vec::<u8>::from_value(rt, v);
        proof {
            assert(bytes.deep_view() =~= bytes@);
            decode_utf8_encode_utf8(bytes@);
        }
        match text_of(bytes) {
            Some(s) => s,
            None => String::new(),
        }
    }
}

} // verus!
