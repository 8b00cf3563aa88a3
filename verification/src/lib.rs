//! A decoder for the NBT binary tag-tree format: a gzip-compressed,
//! big-endian, self-describing tree of typed values.
//!
//! The crate is split into a byte source ([`nbt_stream`]), which yields
//! typed big-endian primitives from a decompressed byte sequence, and a
//! tag-tree codec ([`tag`]), which reconstructs the full typed tree by
//! recursive descent over one-byte type identifiers.  The module
//! [`model`] holds the mathematical model of the wire format: pure
//! decode functions over byte sequences, against which the executable
//! code is verified.  [`proxy`] offers typed, tolerant views over
//! well-known fields of a decoded save-file tree.

pub mod model;
pub mod nbt_stream;
pub mod proxy;
pub mod tag;
