//! A minimal fixed-width binary index: an append-only sequence of 64-bit
//! unsigned entries, each stored as exactly eight big-endian bytes, addressed
//! by zero-based position.
//!
//! The verified core works on the byte image of the index file. The codec
//! module proves the big-endian entry encoding; the index module proves the
//! positional layout (entry `i` at byte offset `i * 8`) and the append-only
//! growth semantics. Callers that keep the image on disk perform the file
//! I/O themselves and hand the bytes in and out unchanged.

pub mod codec;
pub mod index;
