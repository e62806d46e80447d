//! Codec for the Portable Storage binary format: an ordered, tagged key/value
//! tree with a nine-byte header, as spoken by Monero-family peers.
//!
//! The wire format is defined once, as specification functions over byte
//! sequences (`format`); the reader and the writer are proved against it, and
//! the round-trip laws are proved of the format itself.

pub mod access;
pub mod buffer;
pub mod entry;
pub mod error;
pub mod format;
pub mod header;
pub mod laws;
pub mod le;
pub mod raw_size;
pub mod reader;
pub mod section;
pub mod writer;

pub use entry::{Array, StorageEntry};
pub use error::Error;
pub use section::Section;

use buffer::{unread, written};
use format::{encode_document, entries_wf, is_suffix, parse_document, Entries};
use header::StorageBlockHeader;
use vstd::prelude::*;

verus! {

/// Reads a whole document from the front of `buf`: the header, then the
/// top-level section. Whatever the bytes, the call returns: a section, or
/// the reason for which the bytes are no document.
pub fn read(buf: &mut bytes::Bytes) -> (r: Result<Section, Error>)
    ensures
        match r {
            Ok(section) => parse_document(unread(*old(buf))) == Ok::<(Entries, Seq<u8>), Error>(
                (section@, unread(*final(buf))),
            ) && entries_wf(section@),
            Err(e) => parse_document(unread(*old(buf))) == Err::<(Entries, Seq<u8>), Error>(e),
        },
        is_suffix(unread(*final(buf)), unread(*old(buf))),
{
    match StorageBlockHeader::read(buf) {
        Ok(_) => {},
        Err(e) => { return Err(e); },
    }
    Section::read(buf)
}

/// Appends a whole document to `buf`: the canonical header, then `section`.
pub fn write(buf: &mut bytes::BytesMut, section: &Section)
    requires
        entries_wf(section@),
    ensures
        written(*final(buf)) == written(*old(buf)) + encode_document(section@),
{
    let ghost before = written(*buf);
    StorageBlockHeader::write(buf);
    Section::write(buf, section);
    assert(written(*buf) =~= before + encode_document(section@));
}

/// Appends a whole document to `buf` if the writer accepts `section`, and
/// says whether it did. A section that is not well formed leaves `buf` as it
/// was.
pub fn try_write(buf: &mut bytes::BytesMut, section: &Section) -> (done: bool)
    ensures
        done == entries_wf(section@),
        done ==> written(*final(buf)) == written(*old(buf)) + encode_document(section@),
        !done ==> written(*final(buf)) == written(*old(buf)),
{
    if section.is_well_formed() {
        crate::write(buf, section);
        true
    } else {
        false
    }
}

} // verus!
