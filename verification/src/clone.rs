//! Copies of whole values.
//!
//! A value that is a block points to other values, and those to others. A
//! deep copy follows them all. It ends only where that structure is a tree:
//! no block is reached from itself.

use crate::block::with_block;
use crate::runtime::{extends, lemma_address, valid, Block, Checked, Runtime};
use crate::tag::{is_scannable, scannable};
use crate::value::Value;
use vstd::prelude::*;

verus! {

/// Whether what `v` points to in the heap `h` is a tree of blocks that the
/// collector scans, at most `d` deep, with immediates and blocks that the
/// collector does not scan as its leaves.
pub open spec fn tree(h: Map<Value, Block>, v: Value, d: nat) -> bool
    decreases d,
{
    v.immediate() || (h.contains_key(v) && (!scannable(h[v].tag) || (d > 0 && forall|i: int|
        0 <= i < h[v].fields.len() ==> tree(h, #[trigger] h[v].fields[i], (d - 1) as nat))))
}

/// Whether `w` in the heap `g` is a copy of the tree `v` of the heap `h`: an
/// immediate is itself, a block that the collector does not scan holds the
/// same, and a block that the collector scans has the same tag and as many
/// fields, each a copy of the field in its place. The copy of a block with
/// a field is no block of `h`; blocks without a field may be shared.
pub open spec fn copy_of(
    h: Map<Value, Block>,
    v: Value,
    g: Map<Value, Block>,
    w: Value,
    d: nat,
) -> bool
    decreases d,
{
    if v.immediate() {
        w == v
    } else {
        &&& h.contains_key(v)
        &&& g.contains_key(w)
        &&& !w.immediate()
        &&& h[v].fields.len() > 0 ==> !h.contains_key(w)
        &&& if !scannable(h[v].tag) {
            g[w] == h[v]
        } else {
            &&& d > 0
            &&& g[w].tag == h[v].tag
            &&& g[w].fields.len() == h[v].fields.len()
            &&& forall|i: int|
                0 <= i < h[v].fields.len() ==> copy_of(
                    h,
                    #[trigger] h[v].fields[i],
                    g,
                    g[w].fields[i],
                    (d - 1) as nat,
                )
        }
    }
}

/// A tree stays a tree when the heap gets more blocks.
pub proof fn lemma_tree_grows(h: Map<Value, Block>, g: Map<Value, Block>, v: Value, d: nat)
    requires
        tree(h, v, d),
        extends(h, g),
    ensures
        tree(g, v, d),
    decreases d,
{
    if !v.immediate() && scannable(h[v].tag) {
        assert(h.contains_key(v));
        assert forall|i: int| 0 <= i < g[v].fields.len() implies tree(
            g,
            #[trigger] g[v].fields[i],
            (d - 1) as nat,
        ) by {
            assert(tree(h, h[v].fields[i], (d - 1) as nat));
            lemma_tree_grows(h, g, h[v].fields[i], (d - 1) as nat);
        }
    } else if !v.immediate() {
        assert(h.contains_key(v));
    }
}

/// A copy stays a copy when the heap that holds it gets more blocks.
pub proof fn lemma_copy_grows(
    h: Map<Value, Block>,
    v: Value,
    g: Map<Value, Block>,
    k: Map<Value, Block>,
    w: Value,
    d: nat,
)
    requires
        copy_of(h, v, g, w, d),
        extends(g, k),
    ensures
        copy_of(h, v, k, w, d),
    decreases d,
{
    if !v.immediate() {
        assert(g.contains_key(w));
        if scannable(h[v].tag) {
            assert forall|i: int| 0 <= i < h[v].fields.len() implies copy_of(
                h,
                #[trigger] h[v].fields[i],
                k,
                k[w].fields[i],
                (d - 1) as nat,
            ) by {
                assert(copy_of(h, h[v].fields[i], g, g[w].fields[i], (d - 1) as nat));
                lemma_copy_grows(h, h[v].fields[i], g, k, g[w].fields[i], (d - 1) as nat);
            }
        }
    }
}

/// A copy of a tree of a heap with more blocks is a copy of the tree of the
/// heap with fewer, where the tree is the same.
pub proof fn lemma_copy_source(
    h: Map<Value, Block>,
    k: Map<Value, Block>,
    v: Value,
    g: Map<Value, Block>,
    w: Value,
    d: nat,
)
    requires
        tree(h, v, d),
        extends(h, k),
        copy_of(k, v, g, w, d),
    ensures
        copy_of(h, v, g, w, d),
    decreases d,
{
    if !v.immediate() {
        assert(h.contains_key(v));
        if scannable(h[v].tag) {
            assert forall|i: int| 0 <= i < h[v].fields.len() implies copy_of(
                h,
                #[trigger] h[v].fields[i],
                g,
                g[w].fields[i],
                (d - 1) as nat,
            ) by {
                assert(tree(h, h[v].fields[i], (d - 1) as nat));
                assert(copy_of(k, k[v].fields[i], g, g[w].fields[i], (d - 1) as nat));
                lemma_copy_source(h, k, h[v].fields[i], g, g[w].fields[i], (d - 1) as nat);
            }
        }
    }
}

/// A copy is a usable value.
pub proof fn lemma_copy_valid(
    h: Map<Value, Block>,
    v: Value,
    g: Map<Value, Block>,
    w: Value,
    d: nat,
)
    requires
        copy_of(h, v, g, w, d),
    ensures
        valid(g, w),
{
}

/// The copy of the tree `v` of at most `depth` levels.
fn clone_tree<R: Runtime>(v: Value, rt: &mut R, Ghost(depth): Ghost<nat>) -> (r: Value)
    requires
        old(rt).wf(),
        tree(old(rt).heap(), v, depth),
    ensures
        final(rt).wf(),
        extends(old(rt).heap(), final(rt).heap()),
        copy_of(old(rt).heap(), v, final(rt).heap(), r, depth),
        final(rt).names() == old(rt).names(),
        final(rt).roots() == old(rt).roots(),
    decreases depth,
{
    let ghost h0 = rt.heap();
    proof {
                rt.lemma_wf();
        if h0.contains_key(v) {
            lemma_address(h0, v);
        }
    }
    if v.is_long() {
        return v;
    }
    let tag = v.tag(rt);
    if !is_scannable(tag) {
        let r = rt.copy_block(v);
        proof {
            assert(rt.heap().dom().contains(r));
            lemma_address(rt.heap(), r);
        }
        return r;
    }
    let n = rt.wosize_val(v);
    if n == 0 {
        let r = Value::alloc_block(rt, 0, tag);
        proof {
            assert(rt.heap().dom().contains(r));
            lemma_address(rt.heap(), r);
        }
        return r;
    }
    let mut children: Vec<Value> = Vec::new();
    let mut i: usize = 0;
    while i < n
        invariant
            i <= n,
            rt.wf(),
            extends(h0, rt.heap()),
            h0.contains_key(v),
            !v.immediate(),
            scannable(h0[v].tag),
            tag == h0[v].tag,
            n == h0[v].fields.len(),
            depth > 0,
            tree(h0, v, depth),
            children@.len() == i,
            forall|j: int|
                0 <= j < i ==> copy_of(
                    h0,
                    h0[v].fields[j],
                    rt.heap(),
                    #[trigger] children@[j],
                    (depth - 1) as nat,
                ),
            rt.names() == old(rt).names(),
            rt.roots() == old(rt).roots(),
        decreases n - i,
    {
        let ghost h1 = rt.heap();
        let ghost made = children@;
        let field = v.field(rt, i);
        proof {
            assert(field == h0[v].fields[i as int]);
            assert(tree(h0, h0[v].fields[i as int], (depth - 1) as nat));
            lemma_tree_grows(h0, h1, field, (depth - 1) as nat);
        }
        let child = clone_tree(field, rt, Ghost((depth - 1) as nat));
        children.push(child);
        proof {
            let h2 = rt.heap();
            lemma_copy_source(h0, h1, field, h2, child, (depth - 1) as nat);
            assert forall|j: int| 0 <= j < i + 1 implies copy_of(
                h0,
                h0[v].fields[j],
                h2,
                #[trigger] children@[j],
                (depth - 1) as nat,
            ) by {
                if j < i {
                    assert(copy_of(h0, h0[v].fields[j], h1, made[j], (depth - 1) as nat));
                    lemma_copy_grows(h0, h0[v].fields[j], h1, h2, made[j], (depth - 1) as nat);
                }
            }
        }
        i += 1;
    }
    let ghost h3 = rt.heap();
    proof {
        crate::header::lemma_wosize_bytes(n);
        assert forall|j: int| 0 <= j < children@.len() implies valid(h3, #[trigger] children@[j]) by {
            assert(copy_of(h0, h0[v].fields[j], h3, children@[j], (depth - 1) as nat));
            lemma_copy_valid(h0, h0[v].fields[j], h3, children@[j], (depth - 1) as nat);
        }
    }
    let r = Value::block(rt, tag, &children);
    proof {
        let h4 = rt.heap();
        rt.lemma_wf();
        lemma_address(h4, r);
        assert(h4 == with_block(h3, r, tag, children@));
        assert forall|j: int| 0 <= j < h0[v].fields.len() implies copy_of(
            h0,
            #[trigger] h0[v].fields[j],
            h4,
            h4[r].fields[j],
            (depth - 1) as nat,
        ) by {
            assert(copy_of(h0, h0[v].fields[j], h3, children@[j], (depth - 1) as nat));
            lemma_copy_grows(h0, h0[v].fields[j], h3, h4, children@[j], (depth - 1) as nat);
        }
    }
    r
}

impl Value {
    /// Whether what the value points to is a tree of at most `depth` levels
    /// of blocks that the collector scans. A value that passes can be
    /// copied by [`Value::deep_clone_to_ocaml`].
    pub fn is_tree<R: Runtime>(self, rt: &R, depth: usize) -> (r: bool)
        requires
            rt.wf(),
            valid(rt.heap(), self),
        ensures
            r == tree(rt.heap(), self, depth as nat),
        decreases depth,
    {
        let ghost h = rt.heap();
        proof {
            rt.lemma_wf();
            if h.contains_key(self) {
                lemma_address(h, self);
            }
        }
        if self.is_long() {
            return true;
        }
        if !is_scannable(self.tag(rt)) {
            return true;
        }
        if depth == 0 {
            return false;
        }
        let n = rt.wosize_val(self);
        let mut i: usize = 0;
        while i < n
            invariant
                i <= n,
                rt.wf(),
                h == rt.heap(),
                h.contains_key(self),
                !self.immediate(),
                scannable(h[self].tag),
                n == h[self].fields.len(),
                depth > 0,
                forall|j: int|
                    0 <= j < i ==> tree(h, #[trigger] h[self].fields[j], (depth - 1) as nat),
            decreases n - i,
        {
            let field = self.field(rt, i);
            if !field.is_tree(rt, depth - 1) {
                assert(!tree(h, h[self].fields[i as int], (depth - 1) as nat));
                return false;
            }
            i += 1;
        }
        true
    }

    /// A copy of the value and of all that it points to. An immediate is its
    /// own copy. Every block with a field is copied to a new block, which is
    /// none of the blocks that were there; those are unchanged.
    pub fn deep_clone_to_ocaml<R: Runtime>(self, rt: &mut R) -> (r: Value)
        requires
            old(rt).wf(),
            exists|d: nat| tree(old(rt).heap(), self, d),
        ensures
            final(rt).wf(),
            extends(old(rt).heap(), final(rt).heap()),
            exists|d: nat| copy_of(old(rt).heap(), self, final(rt).heap(), r, d),
            self.immediate() ==> r == self,
            old(rt).heap().contains_key(self) && old(rt).heap()[self].fields.len() > 0 ==> r
                != self && !old(rt).heap().contains_key(r),
            final(rt).names() == old(rt).names(),
            final(rt).roots() == old(rt).roots(),
    {
        let ghost d = choose|d: nat| tree(rt.heap(), self, d);
        proof {
            rt.lemma_wf();
            if rt.heap().contains_key(self) {
                lemma_address(rt.heap(), self);
            }
        }
        clone_tree(self, rt, Ghost(d))
    }
}

} // verus!
