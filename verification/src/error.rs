//! The ways in which decoding, and binding what was decoded, can fail.

use vstd::prelude::*;

verus! {

/// Why a byte stream was refused.
#[derive(Debug, Clone, PartialEq, Eq)]
pub enum Error {
    /// Fewer than `needed` bytes remained when a read demanded them.
    UnexpectedEof { needed: usize },
    /// The signatures or the version of the header are not the expected ones.
    InvalidHeader,
    /// A value's tag byte names no known kind of value.
    InvalidSerializeType(u8),
    /// An array's element-type byte lacks the array flag.
    InvalidArrayType(u8),
    /// A length on the wire does not fit this machine's `usize`.
    StorageEntryTooBig(u64),
    /// The array tag is not followed by a flagged element-type byte.
    WrongTypeSequence,
    /// A binding to records refused the tree: a field is missing or not
    /// expected, or a value is of the wrong kind. The codec itself never
    /// returns this.
    Custom(String),
}

} // verus!
