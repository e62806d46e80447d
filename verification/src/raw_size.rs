//! Variable-length sizes: an unsigned number below 2^62 in one, two, four or
//! eight little-endian bytes. The two low bits of the first byte (the mark)
//! select the width; the remaining bits of the word carry the number.

use crate::buffer::{
    chunk, get_u16_le, get_u32_le, get_u64_le, get_u8, put_u16_le, put_u32_le, put_u64_le,
    put_u8, remaining, unread, written,
};
use crate::error::Error;
use crate::le::{
    le_bytes, le_value, lemma_le_bytes_len, lemma_le_value_of_bytes,
    lemma_le_value_single, lemma_pow256_values,
};
use vstd::prelude::*;

verus! {

/// The size in bits of the mark.
pub const MARK_BIT_SIZE: usize = 2;

/// The mask of the mark.
pub const MARK_MASK: u8 = 0x03;

/// Mark of a one-byte size.
pub const MARK_U8: u8 = 0;

/// Mark of a two-byte size.
pub const MARK_U16: u8 = 1;

/// Mark of a four-byte size.
pub const MARK_U32: u8 = 2;

/// Mark of an eight-byte size.
pub const MARK_U64: u8 = 3;

/// Largest number that one byte carries.
pub const U8_MAX: u64 = 63;

/// Largest number that two bytes carry.
pub const U16_MAX: u64 = 16_383;

/// Largest number that four bytes carry.
pub const U32_MAX: u64 = 1_073_741_823;

/// Largest number that eight bytes carry.
pub const U64_MAX: u64 = 4_611_686_018_427_387_903;

/// The mark under which `val` is written: that of the narrowest width that
/// carries it.
pub open spec fn mark_of(val: u64) -> nat {
    if val <= U8_MAX {
        0
    } else if val <= U16_MAX {
        1
    } else if val <= U32_MAX {
        2
    } else {
        3
    }
}

/// The number of bytes that a size with mark `mark` takes.
pub open spec fn width_of_mark(mark: nat) -> nat {
    if mark == 0 {
        1
    } else if mark == 1 {
        2
    } else if mark == 2 {
        4
    } else {
        8
    }
}

/// Largest number that a size of `width` bytes carries.
pub open spec fn capacity(width: nat) -> nat {
    if width == 1 {
        U8_MAX as nat
    } else if width == 2 {
        U16_MAX as nat
    } else if width == 4 {
        U32_MAX as nat
    } else {
        U64_MAX as nat
    }
}

/// The bytes of `val` as a variable-length size. Meant for `val <= U64_MAX`.
pub open spec fn encode(val: u64) -> Seq<u8> {
    le_bytes((val * 4 + mark_of(val)) as nat, width_of_mark(mark_of(val)))
}

/// What reading a size from the front of `s` gives: the number and the bytes
/// after it, or the end of input that stopped the read.
pub open spec fn decode(s: Seq<u8>) -> Result<(u64, Seq<u8>), Error> {
    if s.len() < 1 {
        Err(Error::UnexpectedEof { needed: 1 })
    } else {
        let width = width_of_mark((s[0] % 4) as nat);
        if s.len() < width {
            Err(Error::UnexpectedEof { needed: width as usize })
        } else {
            Ok(((le_value(s.take(width as int)) / 4) as u64, s.skip(width as int)))
        }
    }
}

/// Reads a variable-length size from the front of `buf`.
///
/// On an end of input the buffer is left as it was.
pub fn read(buf: &mut bytes::Bytes) -> (r: Result<u64, Error>)
    ensures
        match r {
            Ok(val) => decode(unread(*old(buf))) == Ok::<(u64, Seq<u8>), Error>(
                (val, unread(*final(buf))),
            ) && val <= U64_MAX && unread(*final(buf)).len() < unread(*old(buf)).len(),
            Err(e) => decode(unread(*old(buf))) == Err::<(u64, Seq<u8>), Error>(e) && unread(
                *final(buf),
            ) == unread(*old(buf)),
        },
{
    let ghost s = unread(*buf);
    if remaining(buf) < 1 {
        return Err(Error::UnexpectedEof { needed: 1 });
    }
    let first: u8 = chunk(buf)[0];
    let mark: u8 = first & MARK_MASK;
    proof {
        assert(first & 3 == first % 4) by (bit_vector);
        lemma_pow256_values();
    }
    if mark == MARK_U8 {
        let word: u8 = get_u8(buf);
        proof {
            lemma_le_value_single(s.take(1));
            assert(word >> 2 == word / 4) by (bit_vector);
        }
        Ok((word >> 2) as u64)
    } else if mark == MARK_U16 {
        if remaining(buf) < 2 {
            return Err(Error::UnexpectedEof { needed: 2 });
        }
        let word: u16 = get_u16_le(buf);
        proof {
            assert(word >> 2 == word / 4) by (bit_vector);
        }
        Ok((word >> 2) as u64)
    } else if mark == MARK_U32 {
        if remaining(buf) < 4 {
            return Err(Error::UnexpectedEof { needed: 4 });
        }
        let word: u32 = get_u32_le(buf);
        proof {
            assert(word >> 2 == word / 4) by (bit_vector);
        }
        Ok((word >> 2) as u64)
    } else {
        if remaining(buf) < 8 {
            return Err(Error::UnexpectedEof { needed: 8 });
        }
        let word: u64 = get_u64_le(buf);
        proof {
            assert(word >> 2 == word / 4) by (bit_vector);
        }
        Ok(word >> 2)
    }
}

/// Appends `val` to `buf` as a variable-length size, in the narrowest width
/// that carries it.
pub fn write(buf: &mut bytes::BytesMut, val: u64)
    requires
        val <= U64_MAX,
    ensures
        written(*final(buf)) == written(*old(buf)) + encode(val),
{
    if val <= U8_MAX {
        let word: u8 = ((val as u8) << 2) | MARK_U8;
        proof {
            let v8: u8 = val as u8;
            assert(v8 <= 63 ==> (v8 << 2) | 0 == v8 * 4) by (bit_vector);
            reveal_with_fuel(le_bytes, 2);
            assert(encode(val) =~= seq![word]);
            assert(written(*buf).push(word) =~= written(*buf) + encode(val));
        }
        put_u8(buf, word);
    } else if val <= U16_MAX {
        let word: u16 = ((val as u16) << 2) | 1u16;
        proof {
            let v16: u16 = val as u16;
            assert(v16 <= 16383 ==> (v16 << 2) | 1 == v16 * 4 + 1) by (bit_vector);
        }
        put_u16_le(buf, word);
    } else if val <= U32_MAX {
        let word: u32 = ((val as u32) << 2) | 2u32;
        proof {
            let v32: u32 = val as u32;
            assert(v32 <= 1073741823 ==> (v32 << 2) | 2 == v32 * 4 + 2) by (bit_vector);
        }
        put_u32_le(buf, word);
    } else {
        let word: u64 = (val << 2) | 3u64;
        proof {
            assert(val <= 4611686018427387903 ==> (val << 2) | 3 == val * 4 + 3) by (bit_vector);
        }
        put_u64_le(buf, word);
    }
}

/// Appends `val` as a variable-length size if a size can carry it, and says
/// whether it did. A number of 2^62 or more leaves `buf` as it was.
pub fn try_write(buf: &mut bytes::BytesMut, val: u64) -> (done: bool)
    ensures
        done == (val <= U64_MAX),
        done ==> written(*final(buf)) == written(*old(buf)) + encode(val),
        !done ==> written(*final(buf)) == written(*old(buf)),
{
    if val <= U64_MAX {
        self::write(buf, val);
        true
    } else {
        false
    }
}

/// A size starts with its mark, takes the width of that mark, and is read
/// back as the number and whatever followed it.
pub proof fn lemma_decode_encode(val: u64, rest: Seq<u8>)
    requires
        val <= U64_MAX,
    ensures
        decode(encode(val) + rest) == Ok::<(u64, Seq<u8>), Error>((val, rest)),
        encode(val).len() == width_of_mark(mark_of(val)),
        encode(val).len() >= 1,
        encode(val)[0] % 4 == mark_of(val),
{
    let mark = mark_of(val);
    let width = width_of_mark(mark);
    let word = (val * 4 + mark) as nat;
    let s = encode(val) + rest;
    lemma_pow256_values();
    lemma_le_bytes_len(word, width);
    lemma_le_value_of_bytes(word, width);
    assert(encode(val)[0] == (word % 256) as u8);
    assert(s[0] == encode(val)[0]);
    assert(s.take(width as int) =~= encode(val));
    assert(s.skip(width as int) =~= rest);
}

/// The written width is the least of the four that carries the number.
pub proof fn lemma_encode_minimal(val: u64, width: nat)
    requires
        val <= U64_MAX,
        width == 1 || width == 2 || width == 4 || width == 8,
        val <= capacity(width),
    ensures
        encode(val).len() <= width,
{
    lemma_le_bytes_len((val * 4 + mark_of(val)) as nat, width_of_mark(mark_of(val)));
}

} // verus!
