//! Sections: names with their values, in insertion order.
//!
//! The entries live in a `linked_hash_map::LinkedHashMap`, which is not
//! verified here. `entries_of` names what the map holds, in the order in
//! which it hands its entries out, and each method below that touches the map
//! states, without proof, what the map's own method does to that sequence.

use crate::entry::StorageEntry;
use crate::format::{insert_entry, Entries, Value};
use vstd::prelude::*;
use vstd::slice::slice_to_vec;

verus! {

/// An ordered mapping from names to values. A name is a string of at most
/// 255 bytes, which need not be UTF-8.
#[verifier::external_body]
#[derive(Debug)]
pub struct Section {
    entries: linked_hash_map::LinkedHashMap<Vec<u8>, StorageEntry>,
}

/// The entries of a section, in insertion order.
pub uninterp spec fn entries_of(s: Section) -> Entries;

impl View for Section {
    type V = Entries;

    open spec fn view(&self) -> Entries {
        entries_of(*self)
    }
}

impl Clone for Section {
    /// `LinkedHashMap::clone`: a map of its own that holds a copy of each
    /// entry, in the same order.
    #[verifier::external_body]
    fn clone(&self) -> (s: Section)
        ensures
            entries_of(s) == entries_of(*self),
    {
        Section { entries: self.entries.clone() }
    }
}

impl Default for Section {
    /// A section without entries.
    fn default() -> (s: Section)
        ensures
            s@ == Seq::<(Seq<u8>, Value)>::empty(),
    {
        Section::new()
    }
}

impl Section {
    /// `LinkedHashMap::new`: a map without entries.
    #[verifier::external_body]
    pub fn new() -> (s: Section)
        ensures
            entries_of(s) == Seq::<(Seq<u8>, Value)>::empty(),
    {
        Section { entries: linked_hash_map::LinkedHashMap::new() }
    }

    /// `LinkedHashMap::with_capacity`: a map without entries, with room for
    /// `capacity` of them.
    #[verifier::external_body]
    pub fn with_capacity(capacity: usize) -> (s: Section)
        ensures
            entries_of(s) == Seq::<(Seq<u8>, Value)>::empty(),
    {
        Section { entries: linked_hash_map::LinkedHashMap::with_capacity(capacity) }
    }

    /// `LinkedHashMap::insert`: sets `name` to `entry`. A new name goes to the
    /// end; a name that is there already gets the new value and moves to the
    /// end, and the other entries keep their order.
    #[verifier::external_body]
    pub fn insert(&mut self, name: Vec<u8>, entry: StorageEntry)
        ensures
            entries_of(*final(self)) == insert_entry(entries_of(*old(self)), name@, entry@),
    {
        self.entries.insert(name, entry);
    }

    /// `LinkedHashMap::len`: the number of entries.
    #[verifier::external_body]
    pub fn len(&self) -> (n: usize)
        ensures
            n == entries_of(*self).len(),
    {
        self.entries.len()
    }

    /// Whether there is no entry.
    pub fn is_empty(&self) -> (b: bool)
        ensures
            b == (self@.len() == 0),
    {
        self.len() == 0
    }

    /// `LinkedHashMap::iter`: the entries in insertion order, each by
    /// reference. No two of them have the same name.
    #[verifier::external_body]
    pub(crate) fn entries(&self) -> (all: Vec<(&Vec<u8>, &StorageEntry)>)
        ensures
            all@.len() == entries_of(*self).len(),
            forall|i: int|
                0 <= i < all@.len() ==> (#[trigger] all@[i]).0@ == entries_of(*self)[i].0
                    && all@[i].1@ == entries_of(*self)[i].1,
            forall|i: int, j: int|
                0 <= i < j < all@.len() ==> (#[trigger] entries_of(*self)[i]).0 != (
                #[trigger] entries_of(*self)[j]).0,
    {
        self.entries.iter().collect()
    }

    /// The entries in insertion order, each as a copy of its own.
    pub fn to_vec(&self) -> (copies: Vec<(Vec<u8>, StorageEntry)>)
        ensures
            copies@.len() == self@.len(),
            forall|i: int|
                0 <= i < copies@.len() ==> (#[trigger] copies@[i]).0@ == self@[i].0
                    && copies@[i].1@ == self@[i].1,
    {
        let all = self.entries();
        let mut copies: Vec<(Vec<u8>, StorageEntry)> = Vec::new();
        let mut i: usize = 0;
        while i < all.len()
            invariant
                i <= all@.len(),
                all@.len() == self@.len(),
                copies@.len() == i,
                forall|k: int|
                    0 <= k < all@.len() ==> (#[trigger] all@[k]).0@ == self@[k].0 && all@[k].1@
                        == self@[k].1,
                forall|k: int|
                    0 <= k < i ==> (#[trigger] copies@[k]).0@ == self@[k].0 && copies@[k].1@
                        == self@[k].1,
            decreases all@.len() - i,
        {
            let (name, entry) = all[i];
            let name_copy = slice_to_vec(name.as_slice());
            assert(name_copy@ =~= name@);
            copies.push((name_copy, entry.clone()));
            i = i + 1;
        }
        copies
    }

    /// The value under `name`, if there is one.
    pub fn get(&self, name: &[u8]) -> (found: Option<&StorageEntry>)
        ensures
            match found {
                Some(entry) => exists|i: int|
                    0 <= i < self@.len() && (#[trigger] self@[i]).0 == name@ && self@[i].1
                        == entry@,
                None => forall|i: int| 0 <= i < self@.len() ==> (#[trigger] self@[i]).0 != name@,
            },
    {
        let all = self.entries();
        let mut i: usize = 0;
        while i < all.len()
            invariant
                i <= all@.len(),
                all@.len() == self@.len(),
                forall|k: int|
                    0 <= k < all@.len() ==> (#[trigger] all@[k]).0@ == self@[k].0 && all@[k].1@
                        == self@[k].1,
                forall|k: int| 0 <= k < i ==> (#[trigger] self@[k]).0 != name@,
            decreases all@.len() - i,
        {
            let (key, entry) = all[i];
            if same_bytes(key.as_slice(), name) {
                assert(self@[i as int].0 == name@);
                return Some(entry);
            }
            i = i + 1;
        }
        None
    }
}

/// Whether two byte strings are equal.
fn same_bytes(a: &[u8], b: &[u8]) -> (eq: bool)
    ensures
        eq == (a@ == b@),
{
    if a.len() != b.len() {
        return false;
    }
    let mut i: usize = 0;
    while i < a.len()
        invariant
            i <= a@.len(),
            a@.len() == b@.len(),
            forall|k: int| 0 <= k < i ==> a@[k] == b@[k],
        decreases a@.len() - i,
    {
        if a[i] != b[i] {
            return false;
        }
        i = i + 1;
    }
    assert(a@ =~= b@);
    true
}

} // verus!
