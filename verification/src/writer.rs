//! The writer: a well-formed tree to bytes.

use crate::buffer::{put_slice, put_u16_le, put_u32_le, put_u64_le, put_u8, written};
use crate::entry::{Array, StorageEntry};
use crate::format::{
    encode_elems, encode_entries, encode_name, encode_payload, encode_section,
    encode_value, entries_wf, length_ok, tag_of, value_wf, Value, SERIALIZE_FLAG_ARRAY,
};
use crate::raw_size;
use crate::section::Section;
use vstd::prelude::*;

verus! {

/// Appends a name: its length in one byte, then its bytes.
pub fn write_name(buf: &mut bytes::BytesMut, name: &[u8])
    requires
        name@.len() <= 255,
    ensures
        written(*final(buf)) == written(*old(buf)) + encode_name(name@),
{
    let ghost before = written(*buf);
    put_u8(buf, name.len() as u8);
    put_slice(buf, name);
    assert(written(*buf) =~= before + encode_name(name@));
}

/// Appends a blob: its length as a size, then its bytes.
pub fn write_buf(buf: &mut bytes::BytesMut, b: &[u8])
    requires
        length_ok(b@.len()),
    ensures
        written(*final(buf)) == written(*old(buf)) + (raw_size::encode(b@.len() as u64) + b@),
{
    let ghost before = written(*buf);
    raw_size::write(buf, b.len() as u64);
    put_slice(buf, b);
    assert(written(*buf) =~= before + (raw_size::encode(b@.len() as u64) + b@));
}

impl StorageEntry {
    /// Whether the writer accepts this value.
    pub fn is_well_formed(&self) -> (ok: bool)
        ensures
            ok == value_wf(self@),
        decreases self@, 1nat,
    {
        match self {
            StorageEntry::Buf(b) => b.len() as u64 <= raw_size::U64_MAX,
            StorageEntry::Array(a) => {
                assert(self@->Array_1 == a@);
                a.is_well_formed()
            },
            StorageEntry::Section(s) => {
                assert(self@->Section_0 == s@);
                s.is_well_formed()
            },
            _ => true,
        }
    }

    /// Appends the value: its tag, then its payload.
    pub fn write(buf: &mut bytes::BytesMut, entry: &StorageEntry)
        requires
            value_wf(entry@),
        ensures
            written(*final(buf)) == written(*old(buf)) + encode_value(entry@),
        decreases entry@, 1nat,
    {
        let ghost before = written(*buf);
        put_u8(buf, entry.serialize_type());
        StorageEntry::write_payload(buf, entry);
        assert(written(*buf) =~= before + encode_value(entry@));
    }

    /// Appends the payload of the value, without its tag.
    pub fn write_payload(buf: &mut bytes::BytesMut, entry: &StorageEntry)
        requires
            value_wf(entry@),
        ensures
            written(*final(buf)) == written(*old(buf)) + encode_payload(entry@),
        decreases entry@, 0nat,
    {
        let ghost before = written(*buf);
        match entry {
            StorageEntry::U64(v) => put_u64_le(buf, *v),
            StorageEntry::U32(v) => put_u32_le(buf, *v),
            StorageEntry::U16(v) => put_u16_le(buf, *v),
            StorageEntry::U8(v) => {
                put_u8(buf, *v);
                assert(written(*buf) =~= before + encode_payload(entry@));
            },
            StorageEntry::I64(v) => put_u64_le(buf, *v as u64),
            StorageEntry::I32(v) => put_u32_le(buf, *v as u32),
            StorageEntry::I16(v) => put_u16_le(buf, *v as u16),
            StorageEntry::I8(v) => {
                put_u8(buf, *v as u8);
                assert(written(*buf) =~= before + encode_payload(entry@));
            },
            StorageEntry::Double(bits) => put_u64_le(buf, *bits),
            StorageEntry::Bool(v) => {
                put_u8(buf, if *v { 1 } else { 0 });
                assert(written(*buf) =~= before + encode_payload(entry@));
            },
            StorageEntry::Buf(v) => write_buf(buf, v.as_slice()),
            StorageEntry::Array(v) => Array::write(buf, v),
            StorageEntry::Section(v) => {
                Section::write(buf, v);
            },
        }
    }
}

impl Array {
    /// Whether the writer accepts this array: its kind is fixed, every
    /// element is of that kind, and the writer accepts every element.
    pub fn is_well_formed(&self) -> (ok: bool)
        ensures
            ok == value_wf(Value::Array(self.element_type(), self@)),
        decreases self@, 0nat,
    {
        let ty: u8 = match self.serialize_type() {
            Some(ty) => ty,
            None => { return false; },
        };
        let n: usize = self.len();
        if ty < SERIALIZE_FLAG_ARRAY || n as u64 > raw_size::U64_MAX {
            return false;
        }
        let mut i: usize = 0;
        while i < n
            invariant
                i <= n,
                n == self@.len(),
                n <= raw_size::U64_MAX,
                self.element_type() == Some(ty),
                ty >= SERIALIZE_FLAG_ARRAY,
                forall|k: int|
                    0 <= k < i ==> tag_of(#[trigger] self@[k]) == ty - SERIALIZE_FLAG_ARRAY
                        && value_wf(self@[k]),
            decreases n - i,
        {
            match self.get(i) {
                Some(entry) => {
                    if entry.serialize_type() != ty - SERIALIZE_FLAG_ARRAY
                        || !entry.is_well_formed() {
                        assert(!(tag_of(self@[i as int]) == ty - SERIALIZE_FLAG_ARRAY && value_wf(
                            self@[i as int],
                        )));
                        return false;
                    }
                },
                None => {},
            }
            i = i + 1;
        }
        true
    }

    /// Appends the array: its type byte, the number of elements as a size,
    /// and the payloads of the elements.
    pub fn write(buf: &mut bytes::BytesMut, array: &Array)
        requires
            value_wf(Value::Array(array.element_type(), array@)),
        ensures
            written(*final(buf)) == written(*old(buf)) + encode_payload(
                Value::Array(array.element_type(), array@),
            ),
        decreases array@, 0nat,
    {
        let ghost before = written(*buf);
        let ghost target = before + encode_payload(Value::Array(array.element_type(), array@));
        let ty: u8 = match array.serialize_type() {
            Some(ty) => ty,
            None => 0,
        };
        let n: usize = array.len();
        put_u8(buf, ty);
        raw_size::write(buf, n as u64);
        assert(array@.skip(0) =~= array@);
        assert(written(*buf) + encode_elems(array@.skip(0)) =~= target);
        let mut i: usize = 0;
        while i < n
            invariant
                i <= n,
                n == array@.len(),
                value_wf(Value::Array(array.element_type(), array@)),
                written(*buf) + encode_elems(array@.skip(i as int)) == target,
            decreases n - i,
        {
            let ghost so_far = written(*buf);
            match array.get(i) {
                Some(entry) => {
                    assert(array@.skip(i as int).skip(1) =~= array@.skip(i + 1));
                    assert(array@.skip(i as int)[0] == array@[i as int]);
                    StorageEntry::write_payload(buf, entry);
                    assert(written(*buf) + encode_elems(array@.skip(i + 1)) =~= so_far
                        + encode_elems(array@.skip(i as int)));
                },
                None => {},
            }
            i = i + 1;
        }
        assert(encode_elems(array@.skip(n as int)) =~= Seq::<u8>::empty());
        assert(written(*buf) =~= target);
    }
}

impl Section {
    /// Whether the writer accepts this section: every name fits its length
    /// byte, and the writer accepts every value.
    pub fn is_well_formed(&self) -> (ok: bool)
        ensures
            ok == entries_wf(self@),
        decreases self@, 0nat,
    {
        let all = self.entries();
        let n: usize = all.len();
        if n as u64 > raw_size::U64_MAX {
            return false;
        }
        let mut i: usize = 0;
        while i < n
            invariant
                i <= n,
                n == self@.len(),
                n == all@.len(),
                n <= raw_size::U64_MAX,
                forall|k: int|
                    0 <= k < all@.len() ==> (#[trigger] all@[k]).0@ == self@[k].0 && all@[k].1@
                        == self@[k].1,
                forall|k: int|
                    0 <= k < i ==> (#[trigger] self@[k]).0.len() <= 255 && value_wf(self@[k].1),
            decreases n - i,
        {
            let (name, entry) = all[i];
            if name.len() > 255 || !entry.is_well_formed() {
                assert(!((self@[i as int]).0.len() <= 255 && value_wf(self@[i as int].1)));
                return false;
            }
            i = i + 1;
        }
        true
    }

    /// Appends the section: the number of entries as a size, then each entry
    /// in insertion order as its name and its tagged value.
    pub fn write(buf: &mut bytes::BytesMut, section: &Section)
        requires
            entries_wf(section@),
        ensures
            written(*final(buf)) == written(*old(buf)) + encode_section(section@),
        decreases section@, 0nat,
    {
        let ghost before = written(*buf);
        let ghost target = before + encode_section(section@);
        let all = section.entries();
        let n: usize = all.len();
        raw_size::write(buf, n as u64);
        assert(section@.skip(0) =~= section@);
        let mut i: usize = 0;
        while i < n
            invariant
                i <= n,
                n == section@.len(),
                n == all@.len(),
                entries_wf(section@),
                forall|k: int|
                    0 <= k < all@.len() ==> (#[trigger] all@[k]).0@ == section@[k].0
                        && all@[k].1@ == section@[k].1,
                written(*buf) + encode_entries(section@.skip(i as int)) == target,
            decreases n - i,
        {
            let ghost so_far = written(*buf);
            let (name, entry) = all[i];
            assert(section@.skip(i as int).skip(1) =~= section@.skip(i + 1));
            assert(section@.skip(i as int)[0] == section@[i as int]);
            write_name(buf, name.as_slice());
            StorageEntry::write(buf, entry);
            assert(written(*buf) + encode_entries(section@.skip(i + 1)) =~= so_far
                + encode_entries(section@.skip(i as int)));
            i = i + 1;
        }
        assert(encode_entries(section@.skip(n as int)) =~= Seq::<u8>::empty());
        assert(written(*buf) =~= target);
    }
}

} // verus!
