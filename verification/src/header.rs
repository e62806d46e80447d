//! The nine-byte prefix of a document: two little-endian signatures and a
//! version byte.

use crate::buffer::{get_u32_le, get_u8, put_u32_le, put_u8, remaining, unread, written};
use crate::error::Error;
use crate::le::{
    le_bytes, le_value, lemma_le_bytes_len, lemma_le_value_of_bytes, lemma_pow256_values,
};
use vstd::prelude::*;

verus! {

/// The first magic number.
pub const PORTABLE_STORAGE_SIGNATUREA: u32 = 0x0101_1101;

/// The second magic number.
pub const PORTABLE_STORAGE_SIGNATUREB: u32 = 0x0102_0101;

/// The version of the format that this codec speaks.
pub const PORTABLE_STORAGE_FORMAT_VER: u8 = 1;

/// The length of the header in bytes: two signatures and the version.
pub const PORTABLE_STORAGE_BLOCK_HEADER_LENGTH: usize = 9;

/// The fields of a header.
#[derive(Debug)]
pub struct StorageBlockHeader {
    pub signature_a: u32,
    pub signature_b: u32,
    pub version: u8,
}

/// The header that every written document starts with.
pub open spec fn canonical_header() -> StorageBlockHeader {
    StorageBlockHeader {
        signature_a: PORTABLE_STORAGE_SIGNATUREA,
        signature_b: PORTABLE_STORAGE_SIGNATUREB,
        version: PORTABLE_STORAGE_FORMAT_VER,
    }
}

/// The nine bytes of `header` on the wire.
pub open spec fn header_bytes(header: StorageBlockHeader) -> Seq<u8> {
    le_bytes(header.signature_a as nat, 4) + le_bytes(header.signature_b as nat, 4)
        + seq![header.version]
}

/// The fields that the first nine bytes of `s` spell. Meant for
/// `s.len() >= 9`.
pub open spec fn header_fields(s: Seq<u8>) -> StorageBlockHeader {
    StorageBlockHeader {
        signature_a: le_value(s.subrange(0, 4)) as u32,
        signature_b: le_value(s.subrange(4, 8)) as u32,
        version: s[8],
    }
}

/// What reading a header from the front of `s` gives: the header and the
/// bytes after it; an end of input where nine bytes are not there; and
/// `InvalidHeader` where the fields are not acceptable.
pub open spec fn decode_header(s: Seq<u8>) -> Result<(StorageBlockHeader, Seq<u8>), Error> {
    if s.len() < 9 {
        Err(Error::UnexpectedEof { needed: 9 })
    } else if header_fields(s).acceptable() {
        Ok((header_fields(s), s.skip(9)))
    } else {
        Err(Error::InvalidHeader)
    }
}

impl StorageBlockHeader {
    /// Whether the fields pass the reader: the version is the known one, and
    /// the first signature is one of the two magic numbers. The second
    /// signature is not looked at, so that what peers have always accepted
    /// stays accepted.
    pub open spec fn acceptable(self) -> bool {
        (self.signature_a == PORTABLE_STORAGE_SIGNATUREA || self.signature_a
            == PORTABLE_STORAGE_SIGNATUREB) && self.version == PORTABLE_STORAGE_FORMAT_VER
    }

    /// Whether the first signature is the first magic number.
    pub fn is_valid_signature_a(&self) -> (ok: bool)
        ensures
            ok == (self.signature_a == PORTABLE_STORAGE_SIGNATUREA),
    {
        self.signature_a == PORTABLE_STORAGE_SIGNATUREA
    }

    /// Whether the first signature is the second magic number.
    pub fn is_valid_signature_b(&self) -> (ok: bool)
        ensures
            ok == (self.signature_a == PORTABLE_STORAGE_SIGNATUREB),
    {
        self.signature_a == PORTABLE_STORAGE_SIGNATUREB
    }

    /// Whether the version is the one this codec speaks.
    pub fn is_valid_version(&self) -> (ok: bool)
        ensures
            ok == (self.version == PORTABLE_STORAGE_FORMAT_VER),
    {
        self.version == PORTABLE_STORAGE_FORMAT_VER
    }

    /// Reads a header from the front of `buf`.
    ///
    /// On an end of input nothing is consumed; an unacceptable header is
    /// consumed before it is refused.
    pub fn read(buf: &mut bytes::Bytes) -> (r: Result<StorageBlockHeader, Error>)
        ensures
            match r {
                Ok(header) => decode_header(unread(*old(buf))) == Ok::<
                    (StorageBlockHeader, Seq<u8>),
                    Error,
                >((header, unread(*final(buf)))),
                Err(e) => decode_header(unread(*old(buf))) == Err::<
                    (StorageBlockHeader, Seq<u8>),
                    Error,
                >(e),
            },
            r is Err && r->Err_0 != Error::InvalidHeader ==> unread(*final(buf)) == unread(
                *old(buf),
            ),
            r is Ok || r->Err_0 == Error::InvalidHeader ==> unread(*final(buf)) == unread(
                *old(buf),
            ).skip(9),
    {
        let ghost s = unread(*buf);
        if remaining(buf) < PORTABLE_STORAGE_BLOCK_HEADER_LENGTH {
            return Err(Error::UnexpectedEof { needed: PORTABLE_STORAGE_BLOCK_HEADER_LENGTH });
        }
        let signature_a: u32 = get_u32_le(buf);
        let signature_b: u32 = get_u32_le(buf);
        let version: u8 = get_u8(buf);
        let hdr = StorageBlockHeader { signature_a, signature_b, version };
        proof {
            assert(s.take(4) =~= s.subrange(0, 4));
            assert(s.skip(4).take(4) =~= s.subrange(4, 8));
            assert(s.skip(4).skip(4).skip(1) =~= s.skip(9));
        }
        if (hdr.is_valid_signature_a() || hdr.is_valid_signature_b()) && hdr.is_valid_version() {
            Ok(hdr)
        } else {
            Err(Error::InvalidHeader)
        }
    }

    /// Appends the canonical header to `buf`.
    pub fn write(buf: &mut bytes::BytesMut)
        ensures
            written(*final(buf)) == written(*old(buf)) + header_bytes(canonical_header()),
    {
        let ghost before = written(*buf);
        put_u32_le(buf, PORTABLE_STORAGE_SIGNATUREA);
        put_u32_le(buf, PORTABLE_STORAGE_SIGNATUREB);
        put_u8(buf, PORTABLE_STORAGE_FORMAT_VER);
        assert(written(*buf) =~= before + header_bytes(canonical_header()));
    }
}

/// The canonical header is nine bytes long and is read back as itself.
pub proof fn lemma_decode_canonical_header(rest: Seq<u8>)
    ensures
        header_bytes(canonical_header()).len() == 9,
        decode_header(header_bytes(canonical_header()) + rest) == Ok::<
            (StorageBlockHeader, Seq<u8>),
            Error,
        >((canonical_header(), rest)),
{
    let a = PORTABLE_STORAGE_SIGNATUREA as nat;
    let b = PORTABLE_STORAGE_SIGNATUREB as nat;
    let s = header_bytes(canonical_header()) + rest;
    lemma_pow256_values();
    lemma_le_bytes_len(a, 4);
    lemma_le_bytes_len(b, 4);
    lemma_le_value_of_bytes(a, 4);
    lemma_le_value_of_bytes(b, 4);
    assert(s.subrange(0, 4) =~= le_bytes(a, 4));
    assert(s.subrange(4, 8) =~= le_bytes(b, 4));
    assert(s[8] == PORTABLE_STORAGE_FORMAT_VER);
    assert(s.skip(9) =~= rest);
}

} // verus!
