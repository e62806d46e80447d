//! The reader: bytes to a tree, with every length checked against what is
//! left of the input before it is used, and nothing reserved from a length
//! read off the wire.

use crate::buffer::{
    advance, chunk, get_u16_le, get_u32_le, get_u64_le, get_u8, remaining, unread,
};
use crate::entry::{Array, StorageEntry};
use crate::error::Error;
use crate::format::{
    entries_wf, is_suffix, parse_array, parse_blob, parse_elems, parse_entries,
    parse_length, parse_name, parse_payload, parse_section, parse_value, parse_word, tag_of,
    value_wf, Entries, Value, SERIALIZE_FLAG_ARRAY, SERIALIZE_TYPE_ARRAY, SERIALIZE_TYPE_BOOL,
    SERIALIZE_TYPE_DOUBLE, SERIALIZE_TYPE_INT16, SERIALIZE_TYPE_INT32, SERIALIZE_TYPE_INT64,
    SERIALIZE_TYPE_INT8, SERIALIZE_TYPE_OBJECT, SERIALIZE_TYPE_STRING, SERIALIZE_TYPE_UINT16,
    SERIALIZE_TYPE_UINT32, SERIALIZE_TYPE_UINT64, SERIALIZE_TYPE_UINT8,
};
use crate::laws::lemma_insert_entry_wf;
use crate::le::lemma_le_value_single;
use crate::raw_size;
use crate::section::Section;
use vstd::prelude::*;
use vstd::slice::{slice_subrange, slice_to_vec};

verus! {

/// Reads one byte as a word.
fn read_u8(buf: &mut bytes::Bytes) -> (r: Result<u8, Error>)
    ensures
        match r {
            Ok(w) => parse_word(unread(*old(buf)), 1) == Ok::<(nat, Seq<u8>), Error>(
                (w as nat, unread(*final(buf))),
            ),
            Err(e) => parse_word(unread(*old(buf)), 1) == Err::<(nat, Seq<u8>), Error>(e),
        },
        r is Err ==> unread(*final(buf)) == unread(*old(buf)),
{
    if remaining(buf) < 1 {
        return Err(Error::UnexpectedEof { needed: 1 });
    }
    proof {
        lemma_le_value_single(unread(*buf).take(1));
    }
    Ok(get_u8(buf))
}

/// Reads a little-endian word of two bytes.
fn read_u16(buf: &mut bytes::Bytes) -> (r: Result<u16, Error>)
    ensures
        match r {
            Ok(w) => parse_word(unread(*old(buf)), 2) == Ok::<(nat, Seq<u8>), Error>(
                (w as nat, unread(*final(buf))),
            ),
            Err(e) => parse_word(unread(*old(buf)), 2) == Err::<(nat, Seq<u8>), Error>(e),
        },
        r is Err ==> unread(*final(buf)) == unread(*old(buf)),
{
    if remaining(buf) < 2 {
        return Err(Error::UnexpectedEof { needed: 2 });
    }
    Ok(get_u16_le(buf))
}

/// Reads a little-endian word of four bytes.
fn read_u32(buf: &mut bytes::Bytes) -> (r: Result<u32, Error>)
    ensures
        match r {
            Ok(w) => parse_word(unread(*old(buf)), 4) == Ok::<(nat, Seq<u8>), Error>(
                (w as nat, unread(*final(buf))),
            ),
            Err(e) => parse_word(unread(*old(buf)), 4) == Err::<(nat, Seq<u8>), Error>(e),
        },
        r is Err ==> unread(*final(buf)) == unread(*old(buf)),
{
    if remaining(buf) < 4 {
        return Err(Error::UnexpectedEof { needed: 4 });
    }
    Ok(get_u32_le(buf))
}

/// Reads a little-endian word of eight bytes.
fn read_u64(buf: &mut bytes::Bytes) -> (r: Result<u64, Error>)
    ensures
        match r {
            Ok(w) => parse_word(unread(*old(buf)), 8) == Ok::<(nat, Seq<u8>), Error>(
                (w as nat, unread(*final(buf))),
            ),
            Err(e) => parse_word(unread(*old(buf)), 8) == Err::<(nat, Seq<u8>), Error>(e),
        },
        r is Err ==> unread(*final(buf)) == unread(*old(buf)),
{
    if remaining(buf) < 8 {
        return Err(Error::UnexpectedEof { needed: 8 });
    }
    Ok(get_u64_le(buf))
}

/// Reads a size that is to be used as a length in memory.
pub fn read_length(buf: &mut bytes::Bytes) -> (r: Result<usize, Error>)
    ensures
        match r {
            Ok(n) => parse_length(unread(*old(buf))) == Ok::<(nat, Seq<u8>), Error>(
                (n as nat, unread(*final(buf))),
            ) && n <= raw_size::U64_MAX && unread(*final(buf)).len() < unread(*old(buf)).len(),
            Err(e) => parse_length(unread(*old(buf))) == Err::<(nat, Seq<u8>), Error>(e),
        },
        is_suffix(unread(*final(buf)), unread(*old(buf))),
{
    match raw_size::read(buf) {
        Err(e) => Err(e),
        Ok(n) => {
            if n > usize::MAX as u64 {
                Err(Error::StorageEntryTooBig(n))
            } else {
                Ok(n as usize)
            }
        },
    }
}

/// Reads a name: one length byte, then that many bytes.
pub fn read_name(buf: &mut bytes::Bytes) -> (r: Result<Vec<u8>, Error>)
    ensures
        match r {
            Ok(name) => parse_name(unread(*old(buf))) == Ok::<(Seq<u8>, Seq<u8>), Error>(
                (name@, unread(*final(buf))),
            ) && name@.len() <= 255 && unread(*final(buf)).len() < unread(*old(buf)).len(),
            Err(e) => parse_name(unread(*old(buf))) == Err::<(Seq<u8>, Seq<u8>), Error>(e),
        },
        is_suffix(unread(*final(buf)), unread(*old(buf))),
{
    let ghost s = unread(*buf);
    if remaining(buf) < 1 {
        return Err(Error::UnexpectedEof { needed: 1 });
    }
    let length: usize = get_u8(buf) as usize;
    if remaining(buf) < length {
        return Err(Error::UnexpectedEof { needed: length });
    }
    let name = slice_to_vec(slice_subrange(chunk(buf), 0, length));
    advance(buf, length);
    proof {
        assert(name@ =~= s.subrange(1, 1 + s[0]));
        assert(unread(*buf) =~= s.skip(1 + s[0]));
    }
    Ok(name)
}

/// Reads a blob: its length as a size, then that many bytes.
pub fn read_buf(buf: &mut bytes::Bytes) -> (r: Result<Vec<u8>, Error>)
    ensures
        match r {
            Ok(b) => parse_blob(unread(*old(buf))) == Ok::<(Seq<u8>, Seq<u8>), Error>(
                (b@, unread(*final(buf))),
            ) && b@.len() <= raw_size::U64_MAX && unread(*final(buf)).len() < unread(
                *old(buf),
            ).len(),
            Err(e) => parse_blob(unread(*old(buf))) == Err::<(Seq<u8>, Seq<u8>), Error>(e),
        },
        is_suffix(unread(*final(buf)), unread(*old(buf))),
{
    let length: usize = match read_length(buf) {
        Ok(n) => n,
        Err(e) => { return Err(e); },
    };
    let ghost rest = unread(*buf);
    if remaining(buf) < length {
        return Err(Error::UnexpectedEof { needed: length });
    }
    let b = slice_to_vec(slice_subrange(chunk(buf), 0, length));
    advance(buf, length);
    proof {
        assert(b@ =~= rest.take(length as int));
    }
    Ok(b)
}

impl StorageEntry {
    /// Reads a value with its tag.
    pub fn read(buf: &mut bytes::Bytes) -> (r: Result<StorageEntry, Error>)
        ensures
            match r {
                Ok(entry) => parse_value(unread(*old(buf))) == Ok::<(Value, Seq<u8>), Error>(
                    (entry@, unread(*final(buf))),
                ) && value_wf(entry@) && unread(*final(buf)).len() < unread(*old(buf)).len(),
                Err(e) => parse_value(unread(*old(buf))) == Err::<(Value, Seq<u8>), Error>(e),
            },
            is_suffix(unread(*final(buf)), unread(*old(buf))),
        decreases unread(*old(buf)).len(), 0nat,
    {
        if remaining(buf) < 1 {
            return Err(Error::UnexpectedEof { needed: 1 });
        }
        let serialize_type: u8 = get_u8(buf);
        if serialize_type >= SERIALIZE_FLAG_ARRAY {
            match Array::read(buf, serialize_type) {
                Ok(arr) => Ok(StorageEntry::Array(arr)),
                Err(e) => Err(e),
            }
        } else {
            StorageEntry::read_entry_raw(buf, serialize_type)
        }
    }

    /// Reads the payload of a value whose tag has been read already.
    pub fn read_entry_raw(buf: &mut bytes::Bytes, serialize_type: u8) -> (r: Result<
        StorageEntry,
        Error,
    >)
        ensures
            match r {
                Ok(entry) => parse_payload(unread(*old(buf)), serialize_type) == Ok::<
                    (Value, Seq<u8>),
                    Error,
                >((entry@, unread(*final(buf)))) && value_wf(entry@) && tag_of(entry@)
                    == serialize_type && unread(*final(buf)).len() < unread(*old(buf)).len(),
                Err(e) => parse_payload(unread(*old(buf)), serialize_type) == Err::<
                    (Value, Seq<u8>),
                    Error,
                >(e),
            },
            is_suffix(unread(*final(buf)), unread(*old(buf))),
        decreases unread(*old(buf)).len(), 2nat,
    {
        if serialize_type == SERIALIZE_TYPE_INT64 {
            match read_u64(buf) {
                Ok(w) => Ok(StorageEntry::I64(w as i64)),
                Err(e) => Err(e),
            }
        } else if serialize_type == SERIALIZE_TYPE_INT32 {
            match read_u32(buf) {
                Ok(w) => Ok(StorageEntry::I32(w as i32)),
                Err(e) => Err(e),
            }
        } else if serialize_type == SERIALIZE_TYPE_INT16 {
            match read_u16(buf) {
                Ok(w) => Ok(StorageEntry::I16(w as i16)),
                Err(e) => Err(e),
            }
        } else if serialize_type == SERIALIZE_TYPE_INT8 {
            match read_u8(buf) {
                Ok(w) => Ok(StorageEntry::I8(w as i8)),
                Err(e) => Err(e),
            }
        } else if serialize_type == SERIALIZE_TYPE_UINT64 {
            match read_u64(buf) {
                Ok(w) => Ok(StorageEntry::U64(w)),
                Err(e) => Err(e),
            }
        } else if serialize_type == SERIALIZE_TYPE_UINT32 {
            match read_u32(buf) {
                Ok(w) => Ok(StorageEntry::U32(w)),
                Err(e) => Err(e),
            }
        } else if serialize_type == SERIALIZE_TYPE_UINT16 {
            match read_u16(buf) {
                Ok(w) => Ok(StorageEntry::U16(w)),
                Err(e) => Err(e),
            }
        } else if serialize_type == SERIALIZE_TYPE_UINT8 {
            match read_u8(buf) {
                Ok(w) => Ok(StorageEntry::U8(w)),
                Err(e) => Err(e),
            }
        } else if serialize_type == SERIALIZE_TYPE_DOUBLE {
            match read_u64(buf) {
                Ok(w) => Ok(StorageEntry::Double(w)),
                Err(e) => Err(e),
            }
        } else if serialize_type == SERIALIZE_TYPE_STRING {
            match read_buf(buf) {
                Ok(b) => Ok(StorageEntry::Buf(b)),
                Err(e) => Err(e),
            }
        } else if serialize_type == SERIALIZE_TYPE_BOOL {
            match read_u8(buf) {
                Ok(w) => Ok(StorageEntry::Bool(w != 0)),
                Err(e) => Err(e),
            }
        } else if serialize_type == SERIALIZE_TYPE_OBJECT {
            match Section::read(buf) {
                Ok(section) => Ok(StorageEntry::Section(section)),
                Err(e) => Err(e),
            }
        } else if serialize_type == SERIALIZE_TYPE_ARRAY {
            if remaining(buf) < 1 {
                return Err(Error::UnexpectedEof { needed: 1 });
            }
            let element_type: u8 = get_u8(buf);
            if element_type < SERIALIZE_FLAG_ARRAY {
                return Err(Error::WrongTypeSequence);
            }
            match Array::read(buf, element_type) {
                Ok(arr) => Ok(StorageEntry::Array(arr)),
                Err(e) => Err(e),
            }
        } else {
            Err(Error::InvalidSerializeType(serialize_type))
        }
    }
}

impl Array {
    /// Reads an array whose type byte has been read already: the number of
    /// elements, then the payloads. The array grows element by element.
    pub fn read(buf: &mut bytes::Bytes, serialize_type: u8) -> (r: Result<Array, Error>)
        ensures
            match r {
                Ok(array) => parse_array(unread(*old(buf)), serialize_type) == Ok::<
                    (Value, Seq<u8>),
                    Error,
                >((Value::Array(array.element_type(), array@), unread(*final(buf))))
                    && value_wf(Value::Array(array.element_type(), array@)) && unread(
                    *final(buf),
                ).len() < unread(*old(buf)).len(),
                Err(e) => parse_array(unread(*old(buf)), serialize_type) == Err::<
                    (Value, Seq<u8>),
                    Error,
                >(e),
            },
            is_suffix(unread(*final(buf)), unread(*old(buf))),
        decreases unread(*old(buf)).len(), 0nat,
    {
        if serialize_type < SERIALIZE_FLAG_ARRAY {
            return Err(Error::InvalidArrayType(serialize_type));
        }
        let tag: u8 = serialize_type - SERIALIZE_FLAG_ARRAY;
        let size: usize = match read_length(buf) {
            Ok(n) => n,
            Err(e) => { return Err(e); },
        };
        let ghost start = unread(*buf);
        let mut array = Array::with_serialize_type(serialize_type);
        let mut i: usize = 0;
        while i < size
            invariant
                i <= size,
                size <= raw_size::U64_MAX,
                array.element_type() == Some(serialize_type),
                serialize_type >= SERIALIZE_FLAG_ARRAY,
                tag == serialize_type - SERIALIZE_FLAG_ARRAY,
                array@.len() == i,
                parse_length(unread(*old(buf))) == Ok::<(nat, Seq<u8>), Error>(
                    (size as nat, start),
                ),
                unread(*buf).len() <= start.len(),
                start.len() < unread(*old(buf)).len(),
                is_suffix(unread(*buf), unread(*old(buf))),
                parse_elems(start, tag, size as nat, Seq::empty()) == parse_elems(
                    unread(*buf),
                    tag,
                    (size - i) as nat,
                    array@,
                ),
                forall|k: int|
                    0 <= k < i ==> tag_of(#[trigger] array@[k]) == tag && value_wf(array@[k]),
            decreases size - i,
        {
            match StorageEntry::read_entry_raw(buf, tag) {
                Ok(entry) => {
                    array.append(entry);
                },
                Err(e) => {
                    return Err(e);
                },
            }
            i = i + 1;
        }
        Ok(array)
    }
}

impl Section {
    /// Reads a section: the number of entries, then the entries. A name
    /// that occurs again replaces the earlier entry. The section grows
    /// entry by entry.
    pub fn read(buf: &mut bytes::Bytes) -> (r: Result<Section, Error>)
        ensures
            match r {
                Ok(section) => parse_section(unread(*old(buf))) == Ok::<
                    (Entries, Seq<u8>),
                    Error,
                >((section@, unread(*final(buf)))) && entries_wf(section@) && unread(
                    *final(buf),
                ).len() < unread(*old(buf)).len(),
                Err(e) => parse_section(unread(*old(buf))) == Err::<(Entries, Seq<u8>), Error>(
                    e,
                ),
            },
            is_suffix(unread(*final(buf)), unread(*old(buf))),
        decreases unread(*old(buf)).len(), 1nat,
    {
        let mut section = Section::new();
        let count: usize = match read_length(buf) {
            Ok(n) => n,
            Err(e) => { return Err(e); },
        };
        let ghost start = unread(*buf);
        let mut i: usize = 0;
        while i < count
            invariant
                i <= count,
                count <= raw_size::U64_MAX,
                section@.len() <= i,
                entries_wf(section@),
                parse_length(unread(*old(buf))) == Ok::<(nat, Seq<u8>), Error>(
                    (count as nat, start),
                ),
                unread(*buf).len() <= start.len(),
                start.len() < unread(*old(buf)).len(),
                is_suffix(unread(*buf), unread(*old(buf))),
                parse_entries(start, count as nat, Seq::empty()) == parse_entries(
                    unread(*buf),
                    (count - i) as nat,
                    section@,
                ),
            decreases count - i,
        {
            let name = match read_name(buf) {
                Ok(name) => name,
                Err(e) => { return Err(e); },
            };
            let entry = match StorageEntry::read(buf) {
                Ok(entry) => entry,
                Err(e) => { return Err(e); },
            };
            proof {
                lemma_insert_entry_wf(section@, name@, entry@);
            }
            section.insert(name, entry);
            i = i + 1;
        }
        Ok(section)
    }
}

} // verus!
