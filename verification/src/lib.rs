//! Verified marshalling between native values and the tagged words of the
//! OCaml runtime.
//!
//! The OCaml heap is reached only through the [`Runtime`] trait, whose
//! contracts describe every primitive over a mathematical picture of the
//! heap: a map from the addresses of blocks to what the blocks hold. What
//! stands above the primitives is proved against that picture: the encoding
//! of words, lists, arrays and numeric buffers, the conversions of native
//! types, calls of closures, and the way each error leaves native code as an
//! OCaml exception.
//!
//! A function that may allocate takes the runtime by `&mut`, and one that
//! only reads takes it by `&`: the borrow is the permission to allocate.
//! [`Arena`](arena::Arena) is a heap in native memory that meets the
//! contracts of [`Runtime`], for running without OCaml.

pub mod arena;
pub mod array;
pub mod bigarray;
pub mod block;
pub mod clone;
pub mod conv;
pub mod custom;
pub mod error;
pub mod handle;
pub mod header;
pub mod list;
pub mod number;
pub mod runtime;
pub mod string;
pub mod sys;
pub mod tag;
pub mod value;
pub mod variant;

pub use array::Array;
pub use bigarray::{Array1, Kind};
pub use conv::{Encoded, FromValue, ToValue};
pub use custom::{Custom, Pointer};
pub use error::{CamlError, Error};
pub use handle::Handle;
pub use list::{List, ListIterator};
pub use runtime::{Checked, Runtime};
pub use tag::Tag;
pub use value::Value;
pub use variant::Variant;
