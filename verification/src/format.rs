//! The wire format, as functions on byte sequences.
//!
//! `Value` is the mathematical content of a stored value. `encode_*` say which
//! bytes the writer emits for it, `parse_*` say what the reader makes of any
//! byte sequence. The reader and the writer are proved to compute exactly
//! these.

use crate::error::Error;
use crate::header::{canonical_header, decode_header, header_bytes};
use crate::le::{le_bytes, le_value};
use crate::raw_size;
use vstd::prelude::*;

verus! {

/// Tag of a signed number of eight bytes.
pub const SERIALIZE_TYPE_INT64: u8 = 1;

/// Tag of a signed number of four bytes.
pub const SERIALIZE_TYPE_INT32: u8 = 2;

/// Tag of a signed number of two bytes.
pub const SERIALIZE_TYPE_INT16: u8 = 3;

/// Tag of a signed number of one byte.
pub const SERIALIZE_TYPE_INT8: u8 = 4;

/// Tag of an unsigned number of eight bytes.
pub const SERIALIZE_TYPE_UINT64: u8 = 5;

/// Tag of an unsigned number of four bytes.
pub const SERIALIZE_TYPE_UINT32: u8 = 6;

/// Tag of an unsigned number of two bytes.
pub const SERIALIZE_TYPE_UINT16: u8 = 7;

/// Tag of an unsigned number of one byte.
pub const SERIALIZE_TYPE_UINT8: u8 = 8;

/// Tag of a binary64 number.
pub const SERIALIZE_TYPE_DOUBLE: u8 = 9;

/// Tag of a blob.
pub const SERIALIZE_TYPE_STRING: u8 = 10;

/// Tag of a truth value.
pub const SERIALIZE_TYPE_BOOL: u8 = 11;

/// Tag of a section.
pub const SERIALIZE_TYPE_OBJECT: u8 = 12;

/// Tag of an array in the long form.
pub const SERIALIZE_TYPE_ARRAY: u8 = 13;

/// Set in a type byte that announces an array; the other seven bits are the
/// tag of its elements.
pub const SERIALIZE_FLAG_ARRAY: u8 = 0x80;

/// The content of a stored value.
pub enum Value {
    U64(u64),
    U32(u32),
    U16(u16),
    U8(u8),
    I64(i64),
    I32(i32),
    I16(i16),
    I8(i8),
    /// The bit pattern of an IEEE-754 binary64 number.
    Double(u64),
    Bool(bool),
    Blob(Seq<u8>),
    /// The type byte of the array (flag set), once it is fixed, and the
    /// elements.
    Array(Option<u8>, Seq<Value>),
    /// The entries of a section, in insertion order.
    Section(Seq<(Seq<u8>, Value)>),
}

/// The entries of a section: names with their values, in insertion order.
pub type Entries = Seq<(Seq<u8>, Value)>;

/// The tag byte of a value's kind.
pub open spec fn tag_of(v: Value) -> u8 {
    match v {
        Value::U64(_) => SERIALIZE_TYPE_UINT64,
        Value::U32(_) => SERIALIZE_TYPE_UINT32,
        Value::U16(_) => SERIALIZE_TYPE_UINT16,
        Value::U8(_) => SERIALIZE_TYPE_UINT8,
        Value::I64(_) => SERIALIZE_TYPE_INT64,
        Value::I32(_) => SERIALIZE_TYPE_INT32,
        Value::I16(_) => SERIALIZE_TYPE_INT16,
        Value::I8(_) => SERIALIZE_TYPE_INT8,
        Value::Double(_) => SERIALIZE_TYPE_DOUBLE,
        Value::Bool(_) => SERIALIZE_TYPE_BOOL,
        Value::Blob(_) => SERIALIZE_TYPE_STRING,
        Value::Array(_, _) => SERIALIZE_TYPE_ARRAY,
        Value::Section(_) => SERIALIZE_TYPE_OBJECT,
    }
}

/// A length that can be written as a size and held in memory.
pub open spec fn length_ok(n: nat) -> bool {
    n <= raw_size::U64_MAX && n <= usize::MAX
}

/// What the writer accepts and the reader produces: every blob, array and
/// section has a length that a size can carry; every array has its type
/// byte, with the flag, and holds only elements of that kind; every name
/// fits its length byte and occurs once in its section.
pub open spec fn value_wf(v: Value) -> bool
    decreases v,
{
    match v {
        Value::Blob(b) => length_ok(b.len()),
        Value::Array(ty, elems) => {
            &&& ty is Some
            &&& ty->Some_0 >= SERIALIZE_FLAG_ARRAY
            &&& length_ok(elems.len())
            &&& forall|i: int|
                0 <= i < elems.len() ==> tag_of(#[trigger] elems[i]) == ty->Some_0
                    - SERIALIZE_FLAG_ARRAY && value_wf(elems[i])
        },
        Value::Section(entries) => entries_wf(entries),
        _ => true,
    }
}

/// Well-formedness of a section's entries (see `value_wf`).
pub open spec fn entries_wf(entries: Entries) -> bool
    decreases entries,
{
    &&& length_ok(entries.len())
    &&& forall|i: int|
        0 <= i < entries.len() ==> (#[trigger] entries[i]).0.len() <= 255 && value_wf(
            entries[i].1,
        )
    &&& forall|i: int, j: int|
        0 <= i < j < entries.len() ==> (#[trigger] entries[i]).0 != (#[trigger] entries[j]).0
}

/// Whether `name` is the name of one of `entries`.
pub open spec fn has_name(entries: Entries, name: Seq<u8>) -> bool {
    exists|i: int| 0 <= i < entries.len() && (#[trigger] entries[i]).0 == name
}

/// The predicate by which `insert_entry` keeps the entries of other names.
pub open spec fn other_name(name: Seq<u8>) -> spec_fn((Seq<u8>, Value)) -> bool {
    |e: (Seq<u8>, Value)| e.0 != name
}

/// `entries` after `name` is set to `v`: an entry of that name leaves its
/// place, and the new entry goes to the end.
pub open spec fn insert_entry(entries: Entries, name: Seq<u8>, v: Value) -> Entries {
    entries.filter(other_name(name)).push((name, v))
}

// ---------------------------------------------------------------- writing

/// The bytes of a value after its tag.
pub open spec fn encode_payload(v: Value) -> Seq<u8>
    decreases v,
{
    match v {
        Value::U64(x) => le_bytes(x as nat, 8),
        Value::U32(x) => le_bytes(x as nat, 4),
        Value::U16(x) => le_bytes(x as nat, 2),
        Value::U8(x) => seq![x],
        Value::I64(x) => le_bytes((x as u64) as nat, 8),
        Value::I32(x) => le_bytes((x as u32) as nat, 4),
        Value::I16(x) => le_bytes((x as u16) as nat, 2),
        Value::I8(x) => seq![x as u8],
        Value::Double(bits) => le_bytes(bits as nat, 8),
        Value::Bool(b) => seq![if b { 1u8 } else { 0u8 }],
        Value::Blob(b) => raw_size::encode(b.len() as u64) + b,
        Value::Array(ty, elems) => seq![ty->Some_0] + raw_size::encode(elems.len() as u64)
            + encode_elems(elems),
        Value::Section(entries) => raw_size::encode(entries.len() as u64) + encode_entries(
            entries,
        ),
    }
}

/// The payloads of an array's elements, one after the other, without tags.
pub open spec fn encode_elems(elems: Seq<Value>) -> Seq<u8>
    decreases elems,
{
    if elems.len() == 0 {
        Seq::empty()
    } else {
        encode_payload(elems[0]) + encode_elems(elems.skip(1))
    }
}

/// The entries of a section, one after the other: for each the length of
/// the name in one byte, the name, the tag and the payload.
pub open spec fn encode_entries(entries: Entries) -> Seq<u8>
    decreases entries,
{
    if entries.len() == 0 {
        Seq::empty()
    } else {
        encode_name(entries[0].0) + seq![tag_of(entries[0].1)] + encode_payload(entries[0].1)
            + encode_entries(entries.skip(1))
    }
}

/// A name on the wire: its length in one byte, then its bytes.
pub open spec fn encode_name(name: Seq<u8>) -> Seq<u8> {
    seq![name.len() as u8] + name
}

/// A value on the wire: its tag, then its payload.
pub open spec fn encode_value(v: Value) -> Seq<u8> {
    seq![tag_of(v)] + encode_payload(v)
}

/// A section on the wire: the number of entries as a size, then the entries.
pub open spec fn encode_section(entries: Entries) -> Seq<u8> {
    raw_size::encode(entries.len() as u64) + encode_entries(entries)
}

/// A whole document: the canonical header, then the top-level section.
pub open spec fn encode_document(entries: Entries) -> Seq<u8> {
    header_bytes(canonical_header()) + encode_section(entries)
}

// ---------------------------------------------------------------- reading

/// Whether `rest` is the end of `s`: what is left of `s` once some bytes
/// have been taken from its front.
pub open spec fn is_suffix(rest: Seq<u8>, s: Seq<u8>) -> bool {
    &&& rest.len() <= s.len()
    &&& forall|i: int| 0 <= i < rest.len() ==> #[trigger] rest[i] == s[s.len() - rest.len() + i]
}

/// A little-endian word of `width` bytes from the front of `s`, or the end
/// of input that stops the read.
pub open spec fn parse_word(s: Seq<u8>, width: nat) -> Result<(nat, Seq<u8>), Error> {
    if s.len() < width {
        Err(Error::UnexpectedEof { needed: width as usize })
    } else {
        Ok((le_value(s.take(width as int)), s.skip(width as int)))
    }
}

/// A size that is used as a length in memory: as `raw_size::decode`, but a
/// number beyond `usize` is refused.
pub open spec fn parse_length(s: Seq<u8>) -> Result<(nat, Seq<u8>), Error> {
    match raw_size::decode(s) {
        Err(e) => Err(e),
        Ok((n, rest)) => if n > usize::MAX {
            Err(Error::StorageEntryTooBig(n))
        } else {
            Ok((n as nat, rest))
        },
    }
}

/// A name: one length byte, then that many bytes.
pub open spec fn parse_name(s: Seq<u8>) -> Result<(Seq<u8>, Seq<u8>), Error> {
    if s.len() < 1 {
        Err(Error::UnexpectedEof { needed: 1 })
    } else if s.len() - 1 < s[0] {
        Err(Error::UnexpectedEof { needed: s[0] as usize })
    } else {
        Ok((s.subrange(1, 1 + s[0]), s.skip(1 + s[0])))
    }
}

/// A blob: its length as a size, then that many bytes.
pub open spec fn parse_blob(s: Seq<u8>) -> Result<(Seq<u8>, Seq<u8>), Error> {
    match parse_length(s) {
        Err(e) => Err(e),
        Ok((n, rest)) => if rest.len() < n {
            Err(Error::UnexpectedEof { needed: n as usize })
        } else {
            Ok((rest.take(n as int), rest.skip(n as int)))
        },
    }
}

/// A value with its tag: a byte with the array flag starts an array in the
/// short form; any other byte is the tag of what follows.
pub open spec fn parse_value(s: Seq<u8>) -> Result<(Value, Seq<u8>), Error>
    decreases s.len(), 0nat,
{
    if s.len() < 1 {
        Err(Error::UnexpectedEof { needed: 1 })
    } else if s[0] >= SERIALIZE_FLAG_ARRAY {
        parse_array(s.skip(1), s[0])
    } else {
        parse_payload(s.skip(1), s[0])
    }
}

/// The payload of a value whose tag `tag` has been read already.
pub open spec fn parse_payload(s: Seq<u8>, tag: u8) -> Result<(Value, Seq<u8>), Error>
    decreases s.len(), 2nat,
{
    if tag == SERIALIZE_TYPE_INT64 {
        match parse_word(s, 8) {
            Err(e) => Err(e),
            Ok((w, rest)) => Ok((Value::I64((w as u64) as i64), rest)),
        }
    } else if tag == SERIALIZE_TYPE_INT32 {
        match parse_word(s, 4) {
            Err(e) => Err(e),
            Ok((w, rest)) => Ok((Value::I32((w as u32) as i32), rest)),
        }
    } else if tag == SERIALIZE_TYPE_INT16 {
        match parse_word(s, 2) {
            Err(e) => Err(e),
            Ok((w, rest)) => Ok((Value::I16((w as u16) as i16), rest)),
        }
    } else if tag == SERIALIZE_TYPE_INT8 {
        match parse_word(s, 1) {
            Err(e) => Err(e),
            Ok((w, rest)) => Ok((Value::I8((w as u8) as i8), rest)),
        }
    } else if tag == SERIALIZE_TYPE_UINT64 {
        match parse_word(s, 8) {
            Err(e) => Err(e),
            Ok((w, rest)) => Ok((Value::U64(w as u64), rest)),
        }
    } else if tag == SERIALIZE_TYPE_UINT32 {
        match parse_word(s, 4) {
            Err(e) => Err(e),
            Ok((w, rest)) => Ok((Value::U32(w as u32), rest)),
        }
    } else if tag == SERIALIZE_TYPE_UINT16 {
        match parse_word(s, 2) {
            Err(e) => Err(e),
            Ok((w, rest)) => Ok((Value::U16(w as u16), rest)),
        }
    } else if tag == SERIALIZE_TYPE_UINT8 {
        match parse_word(s, 1) {
            Err(e) => Err(e),
            Ok((w, rest)) => Ok((Value::U8(w as u8), rest)),
        }
    } else if tag == SERIALIZE_TYPE_DOUBLE {
        match parse_word(s, 8) {
            Err(e) => Err(e),
            Ok((w, rest)) => Ok((Value::Double(w as u64), rest)),
        }
    } else if tag == SERIALIZE_TYPE_STRING {
        match parse_blob(s) {
            Err(e) => Err(e),
            Ok((b, rest)) => Ok((Value::Blob(b), rest)),
        }
    } else if tag == SERIALIZE_TYPE_BOOL {
        match parse_word(s, 1) {
            Err(e) => Err(e),
            Ok((w, rest)) => Ok((Value::Bool(w != 0), rest)),
        }
    } else if tag == SERIALIZE_TYPE_OBJECT {
        match parse_section(s) {
            Err(e) => Err(e),
            Ok((entries, rest)) => Ok((Value::Section(entries), rest)),
        }
    } else if tag == SERIALIZE_TYPE_ARRAY {
        if s.len() < 1 {
            Err(Error::UnexpectedEof { needed: 1 })
        } else if s[0] < SERIALIZE_FLAG_ARRAY {
            Err(Error::WrongTypeSequence)
        } else {
            parse_array(s.skip(1), s[0])
        }
    } else {
        Err(Error::InvalidSerializeType(tag))
    }
}

/// An array after its type byte `ty`: the number of elements as a size,
/// then as many payloads of the kind that the low seven bits of `ty` name.
pub open spec fn parse_array(s: Seq<u8>, ty: u8) -> Result<(Value, Seq<u8>), Error>
    decreases s.len(), 0nat,
{
    if ty < SERIALIZE_FLAG_ARRAY {
        Err(Error::InvalidArrayType(ty))
    } else {
        match parse_length(s) {
            Err(e) => Err(e),
            Ok((n, rest)) => match parse_elems(
                rest,
                (ty - SERIALIZE_FLAG_ARRAY) as u8,
                n,
                Seq::empty(),
            ) {
                Err(e) => Err(e),
                Ok((elems, after)) => Ok((Value::Array(Some(ty), elems), after)),
            },
        }
    }
}

/// `n` more payloads of kind `tag`, appended to `acc`.
///
/// A payload takes at least one byte (`laws::lemma_parse_consumes`), so the
/// last branch is never taken: it is there for the definition to be well
/// founded.
pub open spec fn parse_elems(s: Seq<u8>, tag: u8, n: nat, acc: Seq<Value>) -> Result<
    (Seq<Value>, Seq<u8>),
    Error,
>
    decreases s.len(), 3nat,
{
    if n == 0 {
        Ok((acc, s))
    } else {
        match parse_payload(s, tag) {
            Err(e) => Err(e),
            Ok((v, rest)) => if rest.len() < s.len() {
                parse_elems(rest, tag, (n - 1) as nat, acc.push(v))
            } else {
                Err(Error::UnexpectedEof { needed: 1 })
            },
        }
    }
}

/// A section: the number of entries as a size, then as many entries.
pub open spec fn parse_section(s: Seq<u8>) -> Result<(Entries, Seq<u8>), Error>
    decreases s.len(), 1nat,
{
    match parse_length(s) {
        Err(e) => Err(e),
        Ok((n, rest)) => parse_entries(rest, n, Seq::empty()),
    }
}

/// `n` more entries, each a name and a tagged value, inserted into `acc` in
/// the order read; a name that `acc` holds already is replaced.
///
/// A value takes at least one byte (`laws::lemma_parse_value_consumes`), so
/// the last branch is never taken: it is there for the definition to be well
/// founded.
pub open spec fn parse_entries(s: Seq<u8>, n: nat, acc: Entries) -> Result<
    (Entries, Seq<u8>),
    Error,
>
    decreases s.len(), 0nat,
{
    if n == 0 {
        Ok((acc, s))
    } else {
        match parse_name(s) {
            Err(e) => Err(e),
            Ok((name, after_name)) => match parse_value(after_name) {
                Err(e) => Err(e),
                Ok((v, rest)) => if rest.len() < s.len() {
                    parse_entries(rest, (n - 1) as nat, insert_entry(acc, name, v))
                } else {
                    Err(Error::UnexpectedEof { needed: 1 })
                },
            },
        }
    }
}

/// A whole document: the header, then the top-level section. What follows
/// the section is left unread.
pub open spec fn parse_document(s: Seq<u8>) -> Result<(Entries, Seq<u8>), Error> {
    match decode_header(s) {
        Err(e) => Err(e),
        Ok((_, rest)) => parse_section(rest),
    }
}

} // verus!
