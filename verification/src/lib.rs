//! Typed, mutable field views over raw byte storage.
//!
//! A field view binds a fixed-width unsigned integer or a fixed-length byte
//! array to a byte range of a source — an in-memory buffer or a seekable
//! in-memory stream — so that a fixed binary layout can be read and patched
//! in place, without a full decode/encode round trip.  A record composes many
//! field views over disjoint, contiguous ranges of one source, assigned in
//! declaration order; the unconsumed remainder is handed back to the caller.

pub mod buffer;
pub mod codec;
pub mod laws;
pub mod record;
pub mod stream;
