//! Block tags.

use vstd::prelude::*;

verus! {

/// The tag byte in a block's header, which tells the runtime what the block
/// holds.
pub type Tag = u8;

/// A forwarding pointer left by a forced lazy value.
pub const FORWARD: u8 = 250;

/// A closure inside a block of mutually recursive closures.
pub const INFIX: u8 = 249;

/// An object.
pub const OBJECT: u8 = 248;

/// A closure.
pub const CLOSURE: u8 = 247;

/// A suspended lazy value.
pub const LAZY: u8 = 246;

/// Opaque data that the collector does not scan.
pub const ABSTRACT: u8 = 251;

/// The first tag whose blocks the collector does not scan.
pub const NO_SCAN: u8 = 251;

/// A string or byte sequence.
pub const STRING: u8 = 252;

/// A boxed double.
pub const DOUBLE: u8 = 253;

/// An array of unboxed doubles.
pub const DOUBLE_ARRAY: u8 = 254;

/// A custom block.
pub const CUSTOM: u8 = 255;

/// Whether the collector scans the fields of a block with this tag.
pub open spec fn scannable(tag: u8) -> bool {
    tag < NO_SCAN
}

/// Whether the collector scans the fields of a block with this tag.
pub fn is_scannable(tag: Tag) -> (r: bool)
    ensures
        r == scannable(tag),
{
    tag < NO_SCAN
}

} // verus!
