//! Stored values and arrays of them.

use crate::format::{
    tag_of, Value, SERIALIZE_FLAG_ARRAY, SERIALIZE_TYPE_ARRAY, SERIALIZE_TYPE_BOOL,
    SERIALIZE_TYPE_DOUBLE, SERIALIZE_TYPE_INT16, SERIALIZE_TYPE_INT32, SERIALIZE_TYPE_INT64,
    SERIALIZE_TYPE_INT8, SERIALIZE_TYPE_OBJECT, SERIALIZE_TYPE_STRING, SERIALIZE_TYPE_UINT16,
    SERIALIZE_TYPE_UINT32, SERIALIZE_TYPE_UINT64, SERIALIZE_TYPE_UINT8,
};
use crate::section::{entries_of, Section};
use vstd::prelude::*;
use vstd::slice::slice_to_vec;

verus! {

/// A stored value.
#[derive(Debug)]
pub enum StorageEntry {
    U64(u64),
    U32(u32),
    U16(u16),
    U8(u8),
    I64(i64),
    I32(i32),
    I16(i16),
    I8(i8),
    /// An IEEE-754 binary64 number, held as its bit pattern.
    Double(u64),
    Bool(bool),
    Buf(Vec<u8>),
    Array(Array),
    Section(Section),
}

/// A sequence of values of one kind.
#[derive(Debug)]
pub struct Array {
    array: Vec<StorageEntry>,
    serialize_type: Option<u8>,
}

impl View for StorageEntry {
    type V = Value;

    open spec fn view(&self) -> Value
        decreases self,
    {
        match self {
            StorageEntry::U64(x) => Value::U64(*x),
            StorageEntry::U32(x) => Value::U32(*x),
            StorageEntry::U16(x) => Value::U16(*x),
            StorageEntry::U8(x) => Value::U8(*x),
            StorageEntry::I64(x) => Value::I64(*x),
            StorageEntry::I32(x) => Value::I32(*x),
            StorageEntry::I16(x) => Value::I16(*x),
            StorageEntry::I8(x) => Value::I8(*x),
            StorageEntry::Double(bits) => Value::Double(*bits),
            StorageEntry::Bool(b) => Value::Bool(*b),
            StorageEntry::Buf(b) => Value::Blob(b@),
            StorageEntry::Array(a) => Value::Array(a.element_type(), a.view()),
            StorageEntry::Section(s) => Value::Section(entries_of(*s)),
        }
    }
}

impl View for Array {
    type V = Seq<Value>;

    /// The elements, in order.
    closed spec fn view(&self) -> Seq<Value>
        decreases self,
    {
        Seq::new(
            self.array.len() as nat,
            |i: int|
                if 0 <= i < self.array.len() {
                    self.array[i].view()
                } else {
                    Value::Bool(false)
                },
        )
    }
}

impl Clone for StorageEntry {
    /// A copy of the whole tree below this value.
    fn clone(&self) -> (c: StorageEntry)
        ensures
            c@ == self@,
        decreases self,
    {
        match self {
            StorageEntry::U64(x) => StorageEntry::U64(*x),
            StorageEntry::U32(x) => StorageEntry::U32(*x),
            StorageEntry::U16(x) => StorageEntry::U16(*x),
            StorageEntry::U8(x) => StorageEntry::U8(*x),
            StorageEntry::I64(x) => StorageEntry::I64(*x),
            StorageEntry::I32(x) => StorageEntry::I32(*x),
            StorageEntry::I16(x) => StorageEntry::I16(*x),
            StorageEntry::I8(x) => StorageEntry::I8(*x),
            StorageEntry::Double(bits) => StorageEntry::Double(*bits),
            StorageEntry::Bool(b) => StorageEntry::Bool(*b),
            StorageEntry::Buf(b) => {
                let copy = slice_to_vec(b.as_slice());
                assert(copy@ =~= b@);
                StorageEntry::Buf(copy)
            },
            StorageEntry::Array(a) => StorageEntry::Array(a.clone()),
            StorageEntry::Section(s) => StorageEntry::Section(s.clone()),
        }
    }
}

impl Clone for Array {
    /// A copy of the array and of every element.
    fn clone(&self) -> (c: Array)
        ensures
            c@ == self@,
            c.element_type() == self.element_type(),
        decreases self,
    {
        let mut array: Vec<StorageEntry> = Vec::new();
        let mut i: usize = 0;
        while i < self.array.len()
            invariant
                i <= self.array.len(),
                array.len() == i,
                forall|k: int| 0 <= k < i ==> (#[trigger] array[k])@ == self.array[k]@,
            decreases self.array.len() - i,
        {
            array.push(self.array[i].clone());
            i = i + 1;
        }
        let c = Array { array, serialize_type: self.serialize_type };
        assert(c@ =~= self@);
        c
    }
}

impl Default for Array {
    /// An empty array whose kind of element is still open.
    fn default() -> (a: Array)
        ensures
            a@ == Seq::<Value>::empty(),
            a.element_type() is None,
    {
        Array::new()
    }
}

impl StorageEntry {
    /// The tag byte of this value's kind.
    pub fn serialize_type(&self) -> (tag: u8)
        ensures
            tag == tag_of(self@),
            1 <= tag <= 13,
    {
        match self {
            StorageEntry::U64(_) => SERIALIZE_TYPE_UINT64,
            StorageEntry::U32(_) => SERIALIZE_TYPE_UINT32,
            StorageEntry::U16(_) => SERIALIZE_TYPE_UINT16,
            StorageEntry::U8(_) => SERIALIZE_TYPE_UINT8,
            StorageEntry::I64(_) => SERIALIZE_TYPE_INT64,
            StorageEntry::I32(_) => SERIALIZE_TYPE_INT32,
            StorageEntry::I16(_) => SERIALIZE_TYPE_INT16,
            StorageEntry::I8(_) => SERIALIZE_TYPE_INT8,
            StorageEntry::Double(_) => SERIALIZE_TYPE_DOUBLE,
            StorageEntry::Bool(_) => SERIALIZE_TYPE_BOOL,
            StorageEntry::Buf(_) => SERIALIZE_TYPE_STRING,
            StorageEntry::Array(_) => SERIALIZE_TYPE_ARRAY,
            StorageEntry::Section(_) => SERIALIZE_TYPE_OBJECT,
        }
    }
}

impl Array {
    /// The type byte of the array, flag set, once it is fixed.
    pub closed spec fn element_type(&self) -> Option<u8> {
        self.serialize_type
    }

    /// An empty array whose kind of element is still open.
    pub fn new() -> (a: Array)
        ensures
            a@ == Seq::<Value>::empty(),
            a.element_type() is None,
    {
        let a = Array { array: Vec::new(), serialize_type: None };
        assert(a@ =~= Seq::<Value>::empty());
        a
    }

    /// As `new`, with room for `capacity` elements.
    pub fn with_capacity(capacity: usize) -> (a: Array)
        ensures
            a@ == Seq::<Value>::empty(),
            a.element_type() is None,
    {
        let a = Array { array: Vec::with_capacity(capacity), serialize_type: None };
        assert(a@ =~= Seq::<Value>::empty());
        a
    }

    /// An empty array of type byte `ty`.
    pub(crate) fn with_serialize_type(ty: u8) -> (a: Array)
        ensures
            a@ == Seq::<Value>::empty(),
            a.element_type() == Some(ty),
    {
        let a = Array { array: Vec::new(), serialize_type: Some(ty) };
        assert(a@ =~= Seq::<Value>::empty());
        a
    }

    /// The number of elements.
    pub fn len(&self) -> (n: usize)
        ensures
            n == self@.len(),
    {
        self.array.len()
    }

    /// Whether there is no element.
    pub fn is_empty(&self) -> (b: bool)
        ensures
            b == (self@.len() == 0),
    {
        self.len() == 0
    }

    /// The type byte, flag set, once it is fixed.
    pub fn serialize_type(&self) -> (ty: Option<u8>)
        ensures
            ty == self.element_type(),
    {
        self.serialize_type
    }

    /// The element at `index`, if there is one.
    pub fn get(&self, index: usize) -> (e: Option<&StorageEntry>)
        ensures
            match e {
                Some(entry) => index < self@.len() && entry@ == self@[index as int],
                None => index >= self@.len(),
            },
    {
        if index < self.array.len() {
            Some(&self.array[index])
        } else {
            None
        }
    }

    /// The elements in order, each as a copy of its own.
    pub fn to_vec(&self) -> (copies: Vec<StorageEntry>)
        ensures
            copies@.len() == self@.len(),
            forall|i: int| 0 <= i < copies@.len() ==> (#[trigger] copies@[i])@ == self@[i],
    {
        let mut copies: Vec<StorageEntry> = Vec::new();
        let mut i: usize = 0;
        while i < self.array.len()
            invariant
                i <= self.array.len(),
                copies@.len() == i,
                self.array.len() == self@.len(),
                forall|k: int| 0 <= k < i ==> (#[trigger] copies@[k])@ == self@[k],
            decreases self.array.len() - i,
        {
            copies.push(self.array[i].clone());
            i = i + 1;
        }
        copies
    }

    /// Appends `entry` if it is of the array's kind. The first element fixes
    /// the kind. An element of another kind is refused, and the array stays
    /// as it was.
    pub fn push(&mut self, entry: StorageEntry) -> (r: Result<(), ()>)
        ensures
            r is Ok <==> (old(self).element_type() is None || old(self).element_type()
                == Some((tag_of(entry@) + SERIALIZE_FLAG_ARRAY) as u8)),
            r is Ok ==> final(self)@ == old(self)@.push(entry@) && final(self).element_type()
                == Some((tag_of(entry@) + SERIALIZE_FLAG_ARRAY) as u8),
            r is Err ==> *final(self) == *old(self),
    {
        let tag: u8 = entry.serialize_type();
        let flagged: u8 = tag + SERIALIZE_FLAG_ARRAY;
        match self.serialize_type {
            Some(ty) => {
                if ty != flagged {
                    return Err(());
                }
            },
            None => {
                self.serialize_type = Some(flagged);
            },
        }
        self.append(entry);
        Ok(())
    }

    /// Appends `entry`, whatever its kind.
    pub(crate) fn append(&mut self, entry: StorageEntry)
        ensures
            final(self)@ == old(self)@.push(entry@),
            final(self).element_type() == old(self).element_type(),
    {
        self.array.push(entry);
        assert(self@ =~= old(self)@.push(entry@));
    }
}

} // verus!
