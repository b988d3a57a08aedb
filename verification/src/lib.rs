//! An owned, growable UTF-8 string that keeps short contents inline and moves
//! to the heap only when they outgrow the inline capacity.
//!
//! [`InlineString`] is the fixed-capacity inline buffer: its growing
//! operations report a [`NotEnoughSpaceError`] instead of growing.
//! [`InlinableString`] holds either such a buffer or a heap `String`, and
//! moves from the first to the second when an operation would not fit.
//!
//! Both types are described by the UTF-8 bytes they hold (`spec_bytes`) and
//! by the characters those bytes encode (the view, `@`).  Operations that
//! take a byte offset demand that it lies on a character boundary; the
//! `is_char_boundary` method of either type tests that at run time.
//!
//! - [`utf8`]: what inserting and removing a character mean on encoded
//!   bytes, with the routines that encode and decode single characters.
//! - [`inline_string`]: the inline buffer.
//! - [`inlinable`]: the growable string.
//! - [`equality`], [`ops`]: comparison, hashing, `Deref` and `+`.
//! - [`laws`]: what holds of several operations taken together.
//! - [`std_specs`]: what is assumed of the standard library.

pub mod equality;
pub mod inlinable;
pub mod inline_string;
pub mod laws;
pub mod ops;
pub mod std_specs;
pub mod utf8;

pub use inlinable::InlinableString;
pub use inline_string::{InlineString, NotEnoughSpaceError, INLINE_STRING_CAPACITY};
