//! The header word of a block.
//!
//! The lowest eight bits of the header hold the tag, the next two the colour
//! that the collector gives the block, the rest the number of fields.

use vstd::prelude::*;

verus! {

/// The largest number of fields that a header can record.
pub open spec fn max_wosize() -> usize {
    !0usize >> 10
}

/// The header of a block of `wosize` fields with the tag `tag`, the colour
/// bits clear.
pub open spec fn header_of(wosize: usize, tag: u8) -> usize {
    (wosize << 10) | (tag as usize)
}

/// The tag that a header records: its lowest byte.
pub open spec fn tag_of(h: usize) -> u8 {
    (h & 0xff) as u8
}

/// The number of fields that a header records: the header without its ten
/// lowest bits.
pub open spec fn wosize_of(h: usize) -> usize {
    h >> 10
}

/// A header gives back the size and the tag that it was made of, and no
/// header records more than the largest size.
pub proof fn lemma_header(wosize: usize, tag: u8, h: usize)
    ensures
        wosize <= max_wosize() ==> wosize_of(header_of(wosize, tag)) == wosize,
        wosize <= max_wosize() ==> tag_of(header_of(wosize, tag)) == tag,
        wosize_of(h) <= max_wosize(),
{
    let t = tag as usize;
    assert(wosize <= !0usize >> 10 && t < 256 ==> ((wosize << 10) | t) >> 10 == wosize && ((wosize
        << 10) | t) & 0xff == t) by (bit_vector);
    assert(h >> 10 <= !0usize >> 10) by (bit_vector);
}

/// The largest number of fields that a header can record.
pub fn max_fields() -> (n: usize)
    ensures
        n == max_wosize(),
{
    !0usize >> 10
}

/// The header of a block of `wosize` fields with the tag `tag`.
pub fn make_header(wosize: usize, tag: u8) -> (h: usize)
    requires
        wosize <= max_wosize(),
    ensures
        h == header_of(wosize, tag),
        wosize_of(h) == wosize,
        tag_of(h) == tag,
{
    proof {
        lemma_header(wosize, tag, 0);
    }
    (wosize << 10) | (tag as usize)
}

/// The tag that the header records.
pub fn header_tag(h: usize) -> (t: u8)
    ensures
        t == tag_of(h),
{
    assert(h & 0xff < 256) by (bit_vector);
    (h & 0xff) as u8
}

/// The number of fields that the header records.
pub fn header_wosize(h: usize) -> (n: usize)
    ensures
        n == wosize_of(h),
        n <= max_wosize(),
{
    proof {
        lemma_header(0, 0, h);
    }
    h >> 10
}

/// A block of the largest size still has fewer bytes than a word can
/// count.
pub proof fn lemma_wosize_bytes(n: usize)
    requires
        n <= max_wosize(),
    ensures
        n * 8 <= usize::MAX,
        n + 1 <= usize::MAX,
{
    assert(n <= !0usize >> 10 ==> n * 8 == n << 3 && n + 1 == (n << 1 | 1) - n) by (bit_vector);
    assert(n <= !0usize >> 10 ==> n < n << 1 | 1) by (bit_vector);
}

} // verus!
