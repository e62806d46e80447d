//! Structured access: what a section or an array hands to a visitor, one
//! step at a time. A binding to records drives these streams; the order in
//! which names, values and elements come out is settled here.

use crate::entry::{Array, StorageEntry};
use crate::format::{Entries, Value};
use crate::section::Section;
use vstd::prelude::*;

verus! {

/// The same elements, last one first.
fn reversed<T>(v: Vec<T>) -> (r: Vec<T>)
    ensures
        r@.len() == v@.len(),
        forall|k: int| 0 <= k < r@.len() ==> r@[k] == v@[v@.len() - 1 - k],
{
    let ghost all = v@;
    let mut v = v;
    let mut r: Vec<T> = Vec::new();
    while v.len() > 0
        invariant
            v@.len() + r@.len() == all.len(),
            v@ == all.take(v@.len() as int),
            forall|k: int| 0 <= k < r@.len() ==> r@[k] == all[all.len() - 1 - k],
        decreases v@.len(),
    {
        match v.pop() {
            Some(x) => {
                r.push(x);
            },
            None => {},
        }
    }
    r
}

/// The entries of a section as a stream: a name, then its value, in
/// insertion order.
pub struct EntryStream {
    rest: Vec<(Vec<u8>, StorageEntry)>,
    value: Option<StorageEntry>,
}

impl EntryStream {
    /// The entries whose names have not been handed out, next one first.
    pub closed spec fn remaining(&self) -> Entries {
        Seq::new(
            self.rest@.len(),
            |i: int|
                (self.rest@[self.rest@.len() - 1 - i].0@, self.rest@[self.rest@.len() - 1 - i].1@),
        )
    }

    /// The value whose name was handed out last, until it is taken.
    pub closed spec fn pending(&self) -> Option<Value> {
        match self.value {
            Some(entry) => Some(entry@),
            None => None,
        }
    }

    /// A stream over the entries of `section`, in insertion order.
    pub fn new(section: &Section) -> (stream: EntryStream)
        ensures
            stream.remaining() == section@,
            stream.pending() is None,
    {
        let stream = EntryStream { rest: reversed(section.to_vec()), value: None };
        assert(stream.remaining() =~= section@);
        stream
    }

    /// The next name, if any. Its value waits to be taken; a value that was
    /// still waiting is dropped.
    pub fn next_key(&mut self) -> (key: Option<Vec<u8>>)
        ensures
            match key {
                Some(name) => {
                    &&& old(self).remaining().len() > 0
                    &&& name@ == old(self).remaining()[0].0
                    &&& final(self).pending() == Some(old(self).remaining()[0].1)
                    &&& final(self).remaining() == old(self).remaining().skip(1)
                },
                None => {
                    &&& old(self).remaining().len() == 0
                    &&& final(self).remaining() == old(self).remaining()
                    &&& final(self).pending() == old(self).pending()
                },
            },
    {
        match self.rest.pop() {
            Some((name, value)) => {
                self.value = Some(value);
                assert(old(self).remaining()[0] == (name@, value@));
                assert(self.remaining() =~= old(self).remaining().skip(1));
                Some(name)
            },
            None => None,
        }
    }

    /// The value of the name handed out last. There is none before the first
    /// name, and none twice for one name.
    pub fn next_value(&mut self) -> (value: Option<StorageEntry>)
        ensures
            final(self).remaining() == old(self).remaining(),
            final(self).pending() is None,
            match value {
                Some(entry) => old(self).pending() == Some(entry@),
                None => old(self).pending() is None,
            },
    {
        self.value.take()
    }

    /// The number of names still to come.
    pub fn size_hint(&self) -> (n: usize)
        ensures
            n == self.remaining().len(),
    {
        self.rest.len()
    }
}

/// The elements of an array as a stream, in order.
pub struct ElementStream {
    rest: Vec<StorageEntry>,
}

impl ElementStream {
    /// The elements that have not been handed out, next one first.
    pub closed spec fn remaining(&self) -> Seq<Value> {
        Seq::new(self.rest@.len(), |i: int| self.rest@[self.rest@.len() - 1 - i]@)
    }

    /// A stream over the elements of `array`, in order.
    pub fn new(array: &Array) -> (stream: ElementStream)
        ensures
            stream.remaining() == array@,
    {
        let stream = ElementStream { rest: reversed(array.to_vec()) };
        assert(stream.remaining() =~= array@);
        stream
    }

    /// The next element, if any.
    pub fn next_element(&mut self) -> (element: Option<StorageEntry>)
        ensures
            match element {
                Some(entry) => {
                    &&& old(self).remaining().len() > 0
                    &&& entry@ == old(self).remaining()[0]
                    &&& final(self).remaining() == old(self).remaining().skip(1)
                },
                None => old(self).remaining().len() == 0 && final(self).remaining() == old(
                    self,
                ).remaining(),
            },
    {
        match self.rest.pop() {
            Some(entry) => {
                assert(old(self).remaining()[0] == entry@);
                assert(self.remaining() =~= old(self).remaining().skip(1));
                Some(entry)
            },
            None => None,
        }
    }

    /// The number of elements still to come.
    pub fn size_hint(&self) -> (n: usize)
        ensures
            n == self.remaining().len(),
    {
        self.rest.len()
    }
}

} // verus!
