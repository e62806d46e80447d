//! What holds of the format: facts about sections, and the round trips.

use crate::error::Error;
use crate::format::{
    encode_document, encode_elems, encode_entries, encode_name, encode_payload, encode_section,
    encode_value, entries_wf, has_name, insert_entry, length_ok, other_name, parse_array,
    parse_blob, parse_document, parse_elems, parse_entries, parse_length, parse_name,
    parse_payload, parse_section, parse_value, parse_word, tag_of, value_wf, Entries, Value,
    SERIALIZE_FLAG_ARRAY, SERIALIZE_TYPE_ARRAY, SERIALIZE_TYPE_OBJECT, SERIALIZE_TYPE_STRING,
};
use crate::header::{
    canonical_header, decode_header, header_bytes, lemma_decode_canonical_header,
};
use crate::le::{
    le_bytes, lemma_le_bytes_len, lemma_le_value_bound, lemma_le_value_of_bytes,
    lemma_pow256_values, pow256,
};
use crate::raw_size;
use vstd::prelude::*;

verus! {

/// Whether no name occurs twice in `entries`.
pub open spec fn names_distinct(entries: Entries) -> bool {
    forall|i: int, j: int|
        0 <= i < j < entries.len() ==> (#[trigger] entries[i]).0 != (#[trigger] entries[j]).0
}

/// Taking the entries of one name out keeps the others, in their order:
/// what is left is no longer, holds only entries that were there, none of
/// that name, and no name twice if none was there twice. Where the name
/// does not occur, nothing changes.
pub proof fn lemma_remove_name(entries: Entries, name: Seq<u8>)
    ensures
        entries.filter(other_name(name)).len() <= entries.len(),
        forall|i: int|
            0 <= i < entries.filter(other_name(name)).len() ==> entries.contains(
                #[trigger] entries.filter(other_name(name))[i],
            ) && entries.filter(other_name(name))[i].0 != name,
        names_distinct(entries) ==> names_distinct(entries.filter(other_name(name))),
        !has_name(entries, name) ==> entries.filter(other_name(name)) == entries,
    decreases entries.len(),
{
    reveal(Seq::filter);
    let f = entries.filter(other_name(name));
    if entries.len() > 0 {
        let init = entries.drop_last();
        let last = entries.last();
        let g = init.filter(other_name(name));
        lemma_remove_name(init, name);
        assert forall|i: int| 0 <= i < f.len() implies entries.contains(#[trigger] f[i]) && f[i].0
            != name by {
            if i < g.len() {
                assert(f[i] == g[i]);
                assert(init.contains(g[i]));
                let j = choose|j: int| 0 <= j < init.len() && init[j] == g[i];
                assert(entries[j] == g[i]);
            } else {
                assert(f[i] == last);
                assert(entries[entries.len() - 1] == last);
            }
        }
        if names_distinct(entries) {
            assert(names_distinct(init)) by {
                assert forall|i: int, j: int| 0 <= i < j < init.len() implies (#[trigger] init[i]).0
                    != (#[trigger] init[j]).0 by {
                    assert(init[i] == entries[i] && init[j] == entries[j]);
                }
            }
            assert forall|i: int, j: int| 0 <= i < j < f.len() implies (#[trigger] f[i]).0 != (
            #[trigger] f[j]).0 by {
                if j < g.len() {
                    assert(f[i] == g[i] && f[j] == g[j]);
                } else {
                    assert(f[i] == g[i]);
                    assert(init.contains(g[i]));
                    let k = choose|k: int| 0 <= k < init.len() && init[k] == g[i];
                    assert(entries[k] == g[i]);
                    assert(entries[entries.len() - 1] == f[j]);
                }
            }
        }
        if !has_name(entries, name) {
            assert(!has_name(init, name)) by {
                if has_name(init, name) {
                    let k = choose|k: int| 0 <= k < init.len() && (#[trigger] init[k]).0 == name;
                    assert(entries[k].0 == name);
                }
            }
            assert(entries[entries.len() - 1].0 != name);
            assert(f =~= entries);
        }
    }
}

/// Setting a short name to a well-formed value keeps a section well formed,
/// and makes it longer by at most one entry.
pub proof fn lemma_insert_entry_wf(entries: Entries, name: Seq<u8>, v: Value)
    requires
        entries_wf(entries),
        name.len() <= 255,
        value_wf(v),
        length_ok(entries.len() + 1),
    ensures
        entries_wf(insert_entry(entries, name, v)),
        insert_entry(entries, name, v).len() <= entries.len() + 1,
{
    lemma_remove_name(entries, name);
    let f = entries.filter(other_name(name));
    let r = insert_entry(entries, name, v);
    assert(r == f.push((name, v)));
    assert forall|i: int| 0 <= i < r.len() implies (#[trigger] r[i]).0.len() <= 255 && value_wf(
        r[i].1,
    ) by {
        if i < f.len() {
            assert(r[i] == f[i]);
            assert(entries.contains(f[i]));
            let j = choose|j: int| 0 <= j < entries.len() && entries[j] == f[i];
            assert(entries[j].0.len() <= 255);
        }
    }
    assert forall|i: int, j: int| 0 <= i < j < r.len() implies (#[trigger] r[i]).0 != (
    #[trigger] r[j]).0 by {
        assert(r[i] == f[i]);
        if j < f.len() {
            assert(r[j] == f[j]);
        }
    }
}

/// Setting a name that a section does not hold yet appends the entry.
pub proof fn lemma_insert_new_name(entries: Entries, name: Seq<u8>, v: Value)
    requires
        !has_name(entries, name),
    ensures
        insert_entry(entries, name, v) == entries.push((name, v)),
{
    lemma_remove_name(entries, name);
}

/// Reading a value takes at least one byte.
pub proof fn lemma_parse_value_consumes(s: Seq<u8>)
    ensures
        parse_value(s) is Ok ==> parse_value(s)->Ok_0.1.len() < s.len(),
    decreases s.len(), 0nat,
{
    if s.len() >= 1 {
        if s[0] >= SERIALIZE_FLAG_ARRAY {
            lemma_parse_array_consumes(s.skip(1), s[0]);
        } else {
            lemma_parse_consumes(s.skip(1), s[0]);
        }
    }
}

/// Reading a payload of any kind takes at least one byte.
pub proof fn lemma_parse_consumes(s: Seq<u8>, tag: u8)
    ensures
        parse_payload(s, tag) is Ok ==> parse_payload(s, tag)->Ok_0.1.len() < s.len(),
    decreases s.len(), 2nat,
{
    if tag == SERIALIZE_TYPE_OBJECT {
        lemma_parse_section_consumes(s);
    } else if tag == SERIALIZE_TYPE_ARRAY {
        if s.len() >= 1 && s[0] >= SERIALIZE_FLAG_ARRAY {
            lemma_parse_array_consumes(s.skip(1), s[0]);
        }
    }
}

/// Reading an array takes at least one byte, and at least one more for
/// each element.
pub proof fn lemma_parse_array_consumes(s: Seq<u8>, ty: u8)
    ensures
        parse_array(s, ty) is Ok ==> parse_array(s, ty)->Ok_0.1.len() < s.len(),
        parse_array(s, ty) is Ok ==> parse_array(s, ty)->Ok_0.0 is Array && parse_array(
            s,
            ty,
        )->Ok_0.0->Array_1.len() < s.len(),
    decreases s.len(), 0nat,
{
    if ty >= SERIALIZE_FLAG_ARRAY {
        match parse_length(s) {
            Err(_) => {},
            Ok((n, rest)) => {
                lemma_parse_elems_consume(
                    rest,
                    (ty - SERIALIZE_FLAG_ARRAY) as u8,
                    n,
                    Seq::empty(),
                );
            },
        }
    }
}

/// Reading `n` payloads takes at least `n` bytes, and adds `n` elements.
/// So a count beyond the bytes that are left is refused.
pub proof fn lemma_parse_elems_consume(s: Seq<u8>, tag: u8, n: nat, acc: Seq<Value>)
    ensures
        parse_elems(s, tag, n, acc) is Ok ==> parse_elems(s, tag, n, acc)->Ok_0.1.len() + n
            <= s.len(),
        parse_elems(s, tag, n, acc) is Ok ==> parse_elems(s, tag, n, acc)->Ok_0.0.len()
            == acc.len() + n,
    decreases s.len(), 3nat,
{
    if n > 0 {
        lemma_parse_consumes(s, tag);
        match parse_payload(s, tag) {
            Err(_) => {},
            Ok((v, rest)) => {
                lemma_parse_elems_consume(rest, tag, (n - 1) as nat, acc.push(v));
            },
        }
    }
}

/// Reading a section takes at least one byte, and its entries are fewer
/// than the bytes read.
pub proof fn lemma_parse_section_consumes(s: Seq<u8>)
    ensures
        parse_section(s) is Ok ==> parse_section(s)->Ok_0.1.len() < s.len(),
        parse_section(s) is Ok ==> parse_section(s)->Ok_0.0.len() < s.len(),
    decreases s.len(), 1nat,
{
    match parse_length(s) {
        Err(_) => {},
        Ok((n, rest)) => {
            lemma_parse_entries_consume(rest, n, Seq::empty());
        },
    }
}

/// Reading `n` entries takes at least `n` bytes, and adds at most `n`
/// entries. So a count beyond the bytes that are left is refused.
pub proof fn lemma_parse_entries_consume(s: Seq<u8>, n: nat, acc: Entries)
    ensures
        parse_entries(s, n, acc) is Ok ==> parse_entries(s, n, acc)->Ok_0.1.len() + n
            <= s.len(),
        parse_entries(s, n, acc) is Ok ==> parse_entries(s, n, acc)->Ok_0.0.len() <= acc.len()
            + n,
    decreases s.len(), 0nat,
{
    if n > 0 {
        match parse_name(s) {
            Err(_) => {},
            Ok((name, after_name)) => {
                lemma_parse_value_consumes(after_name);
                match parse_value(after_name) {
                    Err(_) => {},
                    Ok((v, rest)) => {
                        lemma_remove_name(acc, name);
                        lemma_parse_entries_consume(
                            rest,
                            (n - 1) as nat,
                            insert_entry(acc, name, v),
                        );
                    },
                }
            },
        }
    }
}

/// A length that was read can be written as a size and held in memory.
pub proof fn lemma_parse_length_ok(s: Seq<u8>)
    ensures
        parse_length(s) is Ok ==> length_ok(parse_length(s)->Ok_0.0),
{
    if s.len() >= 1 {
        let width = raw_size::width_of_mark((s[0] % 4) as nat);
        if s.len() >= width {
            lemma_le_value_bound(s.take(width as int));
            lemma_pow256_values();
        }
    }
}

/// Whatever value the reader makes of any bytes is well formed: the writer
/// accepts it.
pub proof fn lemma_parse_value_wf(s: Seq<u8>)
    ensures
        parse_value(s) is Ok ==> value_wf(parse_value(s)->Ok_0.0),
    decreases s.len(), 0nat,
{
    if s.len() >= 1 {
        if s[0] >= SERIALIZE_FLAG_ARRAY {
            lemma_parse_array_wf(s.skip(1), s[0]);
        } else {
            lemma_parse_payload_wf(s.skip(1), s[0]);
        }
    }
}

/// Whatever the reader makes of a payload is well formed and of the kind
/// that the tag names.
pub proof fn lemma_parse_payload_wf(s: Seq<u8>, tag: u8)
    ensures
        parse_payload(s, tag) is Ok ==> value_wf(parse_payload(s, tag)->Ok_0.0) && tag_of(
            parse_payload(s, tag)->Ok_0.0,
        ) == tag,
    decreases s.len(), 2nat,
{
    if tag == SERIALIZE_TYPE_OBJECT {
        lemma_parse_section_wf(s);
    } else if tag == SERIALIZE_TYPE_ARRAY {
        if s.len() >= 1 && s[0] >= SERIALIZE_FLAG_ARRAY {
            lemma_parse_array_wf(s.skip(1), s[0]);
        }
    } else if tag == SERIALIZE_TYPE_STRING {
        lemma_parse_length_ok(s);
    }
}

/// Whatever array the reader makes of any bytes is well formed: it has its
/// type byte, and every element is well formed and of that kind.
pub proof fn lemma_parse_array_wf(s: Seq<u8>, ty: u8)
    ensures
        parse_array(s, ty) is Ok ==> value_wf(parse_array(s, ty)->Ok_0.0) && parse_array(
            s,
            ty,
        )->Ok_0.0 is Array,
    decreases s.len(), 0nat,
{
    if ty >= SERIALIZE_FLAG_ARRAY {
        lemma_parse_length_ok(s);
        match parse_length(s) {
            Err(_) => {},
            Ok((n, rest)) => {
                lemma_parse_elems_wf(
                    rest,
                    (ty - SERIALIZE_FLAG_ARRAY) as u8,
                    n,
                    Seq::empty(),
                );
            },
        }
    }
}

/// Elements that the reader adds are well formed and of the kind asked for.
pub proof fn lemma_parse_elems_wf(s: Seq<u8>, tag: u8, n: nat, acc: Seq<Value>)
    requires
        forall|k: int| 0 <= k < acc.len() ==> tag_of(#[trigger] acc[k]) == tag && value_wf(acc[k]),
    ensures
        parse_elems(s, tag, n, acc) is Ok ==> {
            let elems = parse_elems(s, tag, n, acc)->Ok_0.0;
            &&& elems.len() == acc.len() + n
            &&& forall|k: int|
                0 <= k < elems.len() ==> tag_of(#[trigger] elems[k]) == tag && value_wf(elems[k])
        },
    decreases s.len(), 3nat,
{
    if n > 0 {
        lemma_parse_payload_wf(s, tag);
        match parse_payload(s, tag) {
            Err(_) => {},
            Ok((v, rest)) => {
                if rest.len() < s.len() {
                    lemma_parse_elems_wf(rest, tag, (n - 1) as nat, acc.push(v));
                }
            },
        }
    }
}

/// Whatever section the reader makes of any bytes is well formed.
pub proof fn lemma_parse_section_wf(s: Seq<u8>)
    ensures
        parse_section(s) is Ok ==> entries_wf(parse_section(s)->Ok_0.0),
    decreases s.len(), 1nat,
{
    lemma_parse_length_ok(s);
    match parse_length(s) {
        Err(_) => {},
        Ok((n, rest)) => {
            lemma_parse_entries_wf(rest, n, Seq::empty());
        },
    }
}

/// Entries that the reader adds to a well-formed section leave it well
/// formed.
pub proof fn lemma_parse_entries_wf(s: Seq<u8>, n: nat, acc: Entries)
    requires
        entries_wf(acc),
        length_ok(acc.len() + n),
    ensures
        parse_entries(s, n, acc) is Ok ==> entries_wf(parse_entries(s, n, acc)->Ok_0.0),
    decreases s.len(), 0nat,
{
    if n > 0 {
        match parse_name(s) {
            Err(_) => {},
            Ok((name, after_name)) => {
                lemma_parse_value_wf(after_name);
                match parse_value(after_name) {
                    Err(_) => {},
                    Ok((v, rest)) => {
                        if rest.len() < s.len() {
                            lemma_insert_entry_wf(acc, name, v);
                            lemma_parse_entries_wf(
                                rest,
                                (n - 1) as nat,
                                insert_entry(acc, name, v),
                            );
                        }
                    },
                }
            },
        }
    }
}

/// Whatever document the reader accepts, the writer accepts what was read,
/// and what it writes is read back as the same section.
pub proof fn lemma_read_then_written(doc: Seq<u8>)
    requires
        parse_document(doc) is Ok,
    ensures
        entries_wf(parse_document(doc)->Ok_0.0),
        parse_document(encode_document(parse_document(doc)->Ok_0.0)) == Ok::<
            (Entries, Seq<u8>),
            Error,
        >((parse_document(doc)->Ok_0.0, Seq::empty())),
{
    let entries = parse_document(doc)->Ok_0.0;
    match decode_header(doc) {
        Err(_) => {},
        Ok((_, rest)) => {
            lemma_parse_section_wf(rest);
        },
    }
    lemma_read_of_written(entries, Seq::empty());
    assert(encode_document(entries) + Seq::<u8>::empty() =~= encode_document(entries));
}

/// A word that fits its width is read back from its bytes, whatever follows.
pub proof fn lemma_parse_word_encode(v: nat, width: nat, rest: Seq<u8>)
    requires
        v < pow256(width),
    ensures
        parse_word(le_bytes(v, width) + rest, width) == Ok::<(nat, Seq<u8>), Error>((v, rest)),
        le_bytes(v, width).len() == width,
{
    let s = le_bytes(v, width) + rest;
    lemma_le_bytes_len(v, width);
    lemma_le_value_of_bytes(v, width);
    assert(s.take(width as int) =~= le_bytes(v, width));
    assert(s.skip(width as int) =~= rest);
}

/// A length that a size can carry is read back from its bytes, whatever
/// follows.
pub proof fn lemma_parse_length_encode(n: nat, rest: Seq<u8>)
    requires
        length_ok(n),
    ensures
        parse_length(raw_size::encode(n as u64) + rest) == Ok::<(nat, Seq<u8>), Error>(
            (n, rest),
        ),
        raw_size::encode(n as u64).len() >= 1,
{
    raw_size::lemma_decode_encode(n as u64, rest);
}

/// A name of at most 255 bytes is read back from its bytes, whatever
/// follows.
pub proof fn lemma_parse_name_encode(name: Seq<u8>, rest: Seq<u8>)
    requires
        name.len() <= 255,
    ensures
        parse_name(encode_name(name) + rest) == Ok::<(Seq<u8>, Seq<u8>), Error>((name, rest)),
{
    let s = encode_name(name) + rest;
    assert(s[0] == name.len() as u8);
    assert(s.subrange(1, 1 + s[0]) =~= name);
    assert(s.skip(1 + s[0]) =~= rest);
}

/// An unsigned number, a double or a truth value is read back from its
/// payload.
pub proof fn lemma_parse_unsigned_encode(v: Value, rest: Seq<u8>)
    requires
        v is U64 || v is U32 || v is U16 || v is U8 || v is Double || v is Bool,
    ensures
        parse_payload(encode_payload(v) + rest, tag_of(v)) == Ok::<(Value, Seq<u8>), Error>(
            (v, rest),
        ),
        encode_payload(v).len() >= 1,
{
    lemma_pow256_values();
    match v {
        Value::U64(x) => {
            lemma_parse_word_encode(x as nat, 8, rest);
        },
        Value::U32(x) => {
            lemma_parse_word_encode(x as nat, 4, rest);
        },
        Value::U16(x) => {
            lemma_parse_word_encode(x as nat, 2, rest);
        },
        Value::U8(x) => {
            reveal_with_fuel(le_bytes, 2);
            assert(seq![x] =~= le_bytes(x as nat, 1));
            lemma_parse_word_encode(x as nat, 1, rest);
        },
        Value::Double(bits) => {
            lemma_parse_word_encode(bits as nat, 8, rest);
        },
        Value::Bool(b) => {
            let byte: u8 = if b { 1 } else { 0 };
            reveal_with_fuel(le_bytes, 2);
            assert(seq![byte] =~= le_bytes(byte as nat, 1));
            lemma_parse_word_encode(byte as nat, 1, rest);
        },
        _ => {},
    }
}

/// A signed number is read back from its payload.
pub proof fn lemma_parse_signed_encode(v: Value, rest: Seq<u8>)
    requires
        v is I64 || v is I32 || v is I16 || v is I8,
    ensures
        parse_payload(encode_payload(v) + rest, tag_of(v)) == Ok::<(Value, Seq<u8>), Error>(
            (v, rest),
        ),
        encode_payload(v).len() >= 1,
{
    lemma_pow256_values();
    match v {
        Value::I64(x) => {
            lemma_parse_word_encode((x as u64) as nat, 8, rest);
            assert((x as u64) as i64 == x) by (bit_vector);
        },
        Value::I32(x) => {
            lemma_parse_word_encode((x as u32) as nat, 4, rest);
            assert((x as u32) as i32 == x) by (bit_vector);
        },
        Value::I16(x) => {
            lemma_parse_word_encode((x as u16) as nat, 2, rest);
            assert((x as u16) as i16 == x) by (bit_vector);
        },
        Value::I8(x) => {
            reveal_with_fuel(le_bytes, 2);
            assert(seq![x as u8] =~= le_bytes((x as u8) as nat, 1));
            lemma_parse_word_encode((x as u8) as nat, 1, rest);
            assert((x as u8) as i8 == x) by (bit_vector);
        },
        _ => {},
    }
}

/// A blob whose length a size can carry is read back from its payload.
pub proof fn lemma_parse_blob_encode(b: Seq<u8>, rest: Seq<u8>)
    requires
        length_ok(b.len()),
    ensures
        parse_blob(raw_size::encode(b.len() as u64) + b + rest) == Ok::<
            (Seq<u8>, Seq<u8>),
            Error,
        >((b, rest)),
        raw_size::encode(b.len() as u64).len() >= 1,
{
    let s = raw_size::encode(b.len() as u64) + b + rest;
    lemma_parse_length_encode(b.len(), b + rest);
    assert(s =~= raw_size::encode(b.len() as u64) + (b + rest));
    assert((b + rest).take(b.len() as int) =~= b);
    assert((b + rest).skip(b.len() as int) =~= rest);
}

/// The payload of a well-formed value is at least one byte long, and the
/// reader, told the value's tag, makes the value of it again and leaves
/// what follows.
pub proof fn lemma_parse_payload_encode(v: Value, rest: Seq<u8>)
    requires
        value_wf(v),
    ensures
        parse_payload(encode_payload(v) + rest, tag_of(v)) == Ok::<(Value, Seq<u8>), Error>(
            (v, rest),
        ),
        encode_payload(v).len() >= 1,
    decreases v, 0nat,
{
    let s = encode_payload(v) + rest;
    match v {
        Value::Blob(b) => {
            lemma_parse_blob_encode(b, rest);
        },
        Value::Array(ty, elems) => {
            let t = ty->Some_0;
            let body = encode_elems(elems) + rest;
            lemma_parse_length_encode(elems.len(), body);
            assert(s[0] == t);
            assert(s.skip(1) =~= raw_size::encode(elems.len() as u64) + body);
            lemma_parse_elems_encode(elems, 0, (t - SERIALIZE_FLAG_ARRAY) as u8, rest);
            assert(elems.skip(0) =~= elems);
            assert(elems.take(0) =~= Seq::<Value>::empty());
            assert(parse_array(s.skip(1), t) == Ok::<(Value, Seq<u8>), Error>((v, rest)));
        },
        Value::Section(entries) => {
            lemma_parse_section_encode(entries, rest);
        },
        Value::I64(_) | Value::I32(_) | Value::I16(_) | Value::I8(_) => {
            lemma_parse_signed_encode(v, rest);
        },
        _ => {
            lemma_parse_unsigned_encode(v, rest);
        },
    }
}

/// The payloads of the elements from the `i`-th on are read back as those
/// elements, in order, behind the ones that came before.
pub proof fn lemma_parse_elems_encode(elems: Seq<Value>, i: nat, tag: u8, rest: Seq<u8>)
    requires
        i <= elems.len(),
        forall|k: int|
            0 <= k < elems.len() ==> tag_of(#[trigger] elems[k]) == tag && value_wf(elems[k]),
    ensures
        parse_elems(
            encode_elems(elems.skip(i as int)) + rest,
            tag,
            (elems.len() - i) as nat,
            elems.take(i as int),
        ) == Ok::<(Seq<Value>, Seq<u8>), Error>((elems, rest)),
    decreases elems, elems.len() - i,
{
    let s = encode_elems(elems.skip(i as int)) + rest;
    if i == elems.len() {
        assert(elems.take(i as int) =~= elems);
        assert(s =~= rest);
    } else {
        let tail = encode_elems(elems.skip(i as int + 1)) + rest;
        assert(elems.skip(i as int).skip(1) =~= elems.skip(i as int + 1));
        assert(elems.skip(i as int)[0] == elems[i as int]);
        assert(s =~= encode_payload(elems[i as int]) + tail);
        lemma_parse_payload_encode(elems[i as int], tail);
        assert(elems.take(i as int).push(elems[i as int]) =~= elems.take(i as int + 1));
        lemma_parse_elems_encode(elems, i + 1, tag, rest);
    }
}

/// The entries from the `i`-th on are read back as those entries, in order,
/// behind the ones that came before.
pub proof fn lemma_parse_entries_encode(entries: Entries, i: nat, rest: Seq<u8>)
    requires
        i <= entries.len(),
        entries_wf(entries),
    ensures
        parse_entries(
            encode_entries(entries.skip(i as int)) + rest,
            (entries.len() - i) as nat,
            entries.take(i as int),
        ) == Ok::<(Entries, Seq<u8>), Error>((entries, rest)),
    decreases entries, entries.len() - i,
{
    let s = encode_entries(entries.skip(i as int)) + rest;
    if i == entries.len() {
        assert(entries.take(i as int) =~= entries);
        assert(s =~= rest);
    } else {
        let name = entries[i as int].0;
        let v = entries[i as int].1;
        let tail = encode_entries(entries.skip(i as int + 1)) + rest;
        let after_name = seq![tag_of(v)] + encode_payload(v) + tail;
        assert(entries.skip(i as int).skip(1) =~= entries.skip(i as int + 1));
        assert(entries.skip(i as int)[0] == entries[i as int]);
        assert(s =~= encode_name(name) + after_name);
        lemma_parse_name_encode(name, after_name);
        lemma_parse_payload_encode(v, tail);
        assert(after_name[0] == tag_of(v));
        assert(after_name.skip(1) =~= encode_payload(v) + tail);
        assert(parse_value(after_name) == Ok::<(Value, Seq<u8>), Error>((v, tail)));
        let before = entries.take(i as int);
        assert(!has_name(before, name)) by {
            if has_name(before, name) {
                let k = choose|k: int| 0 <= k < before.len() && (#[trigger] before[k]).0 == name;
                assert(entries[k] == before[k]);
            }
        }
        lemma_insert_new_name(before, name, v);
        assert(before.push((name, v)) =~= entries.take(i as int + 1));
        lemma_parse_entries_encode(entries, i + 1, rest);
    }
}

/// A well-formed section is read back from its bytes, whatever follows.
pub proof fn lemma_parse_section_encode(entries: Entries, rest: Seq<u8>)
    requires
        entries_wf(entries),
    ensures
        parse_section(encode_section(entries) + rest) == Ok::<(Entries, Seq<u8>), Error>(
            (entries, rest),
        ),
        encode_section(entries).len() >= 1,
    decreases entries, entries.len() + 1,
{
    let s = encode_section(entries) + rest;
    let body = encode_entries(entries) + rest;
    lemma_parse_length_encode(entries.len(), body);
    assert(s =~= raw_size::encode(entries.len() as u64) + body);
    lemma_parse_entries_encode(entries, 0, rest);
    assert(entries.skip(0) =~= entries);
    assert(entries.take(0) =~= Seq::<(Seq<u8>, Value)>::empty());
}

/// A well-formed value is read back from its tag and payload, whatever
/// follows.
pub proof fn lemma_parse_value_encode(v: Value, rest: Seq<u8>)
    requires
        value_wf(v),
    ensures
        parse_value(encode_value(v) + rest) == Ok::<(Value, Seq<u8>), Error>((v, rest)),
{
    let s = encode_value(v) + rest;
    lemma_parse_payload_encode(v, rest);
    assert(s[0] == tag_of(v));
    assert(s.skip(1) =~= encode_payload(v) + rest);
}

/// Tree to bytes to tree: the document written for a well-formed section is
/// read back as that section, with its entries in their order, and what
/// follows the document is left unread.
pub proof fn lemma_read_of_written(entries: Entries, rest: Seq<u8>)
    requires
        entries_wf(entries),
    ensures
        parse_document(encode_document(entries) + rest) == Ok::<(Entries, Seq<u8>), Error>(
            (entries, rest),
        ),
{
    let s = encode_document(entries) + rest;
    let body = encode_section(entries) + rest;
    lemma_decode_canonical_header(body);
    assert(s =~= header_bytes(canonical_header()) + body);
    lemma_parse_section_encode(entries, rest);
}

/// Whether `doc` is what the writer emits for some well-formed section.
pub open spec fn canonical(doc: Seq<u8>) -> bool {
    exists|entries: Entries| entries_wf(entries) && doc == #[trigger] encode_document(entries)
}

/// Bytes to tree to bytes: a canonical document is read without error and
/// to its end, and writing what was read gives the document again.
pub proof fn lemma_written_of_read(doc: Seq<u8>)
    requires
        canonical(doc),
    ensures
        parse_document(doc) is Ok,
        parse_document(doc)->Ok_0.1 == Seq::<u8>::empty(),
        entries_wf(parse_document(doc)->Ok_0.0),
        encode_document(parse_document(doc)->Ok_0.0) == doc,
{
    let entries = choose|entries: Entries|
        entries_wf(entries) && doc == #[trigger] encode_document(entries);
    lemma_read_of_written(entries, Seq::empty());
    assert(encode_document(entries) + Seq::<u8>::empty() =~= doc);
}

} // verus!
