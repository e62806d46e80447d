use bytes::{Bytes, BytesMut};
use portable_storage::header::StorageBlockHeader;
use portable_storage::{Array, Error, Section, StorageEntry};

const HEADER: [u8; 9] = [0x01, 0x11, 0x01, 0x01, 0x01, 0x01, 0x02, 0x01, 0x01];

fn document(body: &[u8]) -> Vec<u8> {
    let mut doc = HEADER.to_vec();
    doc.extend_from_slice(body);
    doc
}

fn encode(section: &Section) -> Vec<u8> {
    let mut buf = BytesMut::new();
    portable_storage::write(&mut buf, section);
    buf.to_vec()
}

fn decode(bytes: &[u8]) -> Result<Section, Error> {
    let mut buf = Bytes::copy_from_slice(bytes);
    portable_storage::read(&mut buf)
}

fn names(section: &Section) -> Vec<Vec<u8>> {
    section.to_vec().into_iter().map(|(name, _)| name).collect()
}

#[test]
fn minimal_empty_document() {
    let doc = [0x01, 0x11, 0x01, 0x01, 0x01, 0x01, 0x02, 0x01, 0x01, 0x00];
    let section = decode(&doc).unwrap();
    assert!(section.is_empty());
    assert_eq!(section.len(), 0);
    assert_eq!(encode(&Section::new()), doc.to_vec());
}

#[test]
fn two_scalars_in_order() {
    let mut section = Section::with_capacity(2);
    section.insert(b"id".to_vec(), StorageEntry::U8(56));
    section.insert(b"transaction_proof".to_vec(), StorageEntry::U64(1337));

    let mut body: Vec<u8> = vec![0x08, 0x02, 0x69, 0x64, 0x08, 0x38, 0x11];
    body.extend_from_slice(b"transaction_proof");
    body.extend_from_slice(&[0x05, 0x39, 0x05, 0, 0, 0, 0, 0, 0]);
    let doc = document(&body);
    assert_eq!(encode(&section), doc);

    let back = decode(&doc).unwrap();
    assert_eq!(back.len(), 2);
    assert_eq!(names(&back), vec![b"id".to_vec(), b"transaction_proof".to_vec()]);
    assert!(matches!(back.get(b"id"), Some(StorageEntry::U8(56))));
    assert!(matches!(back.get(b"transaction_proof"), Some(StorageEntry::U64(1337))));
    assert!(back.get(b"other").is_none());
    assert_eq!(encode(&back), doc);
}

#[test]
fn bool_both_values() {
    let mut section = Section::new();
    section.insert(b"t".to_vec(), StorageEntry::Bool(true));
    section.insert(b"f".to_vec(), StorageEntry::Bool(false));
    let doc = document(&[0x08, 0x01, b't', 0x0B, 0x01, 0x01, b'f', 0x0B, 0x00]);
    assert_eq!(encode(&section), doc);

    let lenient = document(&[0x08, 0x01, b't', 0x0B, 0xFF, 0x01, b'f', 0x0B, 0x00]);
    let back = decode(&lenient).unwrap();
    assert!(matches!(back.get(b"t"), Some(StorageEntry::Bool(true))));
    assert!(matches!(back.get(b"f"), Some(StorageEntry::Bool(false))));
}

#[test]
fn array_of_u16() {
    let mut xs = Array::new();
    assert_eq!(xs.push(StorageEntry::U16(1)), Ok(()));
    assert_eq!(xs.push(StorageEntry::U16(258)), Ok(()));
    assert_eq!(xs.push(StorageEntry::U16(65535)), Ok(()));
    assert_eq!(xs.len(), 3);
    assert_eq!(xs.serialize_type(), Some(0x87));
    let mut section = Section::new();
    section.insert(b"xs".to_vec(), StorageEntry::Array(xs));

    let long = document(&[
        0x04, 0x02, b'x', b's', 0x0D, 0x87, 0x0C, 0x01, 0x00, 0x02, 0x01, 0xFF, 0xFF,
    ]);
    assert_eq!(encode(&section), long);

    let bare = document(&[0x04, 0x02, b'x', b's', 0x87, 0x0C, 0x01, 0x00, 0x02, 0x01, 0xFF, 0xFF]);
    for doc in [long.clone(), bare] {
        let back = decode(&doc).unwrap();
        match back.get(b"xs") {
            Some(StorageEntry::Array(a)) => {
                assert_eq!(a.len(), 3);
                assert_eq!(a.serialize_type(), Some(0x87));
                assert!(matches!(a.get(0), Some(StorageEntry::U16(1))));
                assert!(matches!(a.get(1), Some(StorageEntry::U16(258))));
                assert!(matches!(a.get(2), Some(StorageEntry::U16(65535))));
                assert!(a.get(3).is_none());
            }
            other => panic!("not an array: {:?}", other),
        }
        assert_eq!(encode(&back), long);
    }
}

#[test]
fn array_refuses_another_kind() {
    let mut xs = Array::with_capacity(4);
    assert!(xs.is_empty());
    assert_eq!(xs.serialize_type(), None);
    assert_eq!(xs.push(StorageEntry::U8(1)), Ok(()));
    assert_eq!(xs.push(StorageEntry::U8(2)), Ok(()));
    assert_eq!(xs.push(StorageEntry::U16(3)), Err(()));
    assert_eq!(xs.push(StorageEntry::Bool(true)), Err(()));
    assert_eq!(xs.len(), 2);
    assert_eq!(xs.serialize_type(), Some(0x88));
    assert!(!xs.is_empty());
}

#[test]
fn duplicate_keys_last_wins() {
    let doc = document(&[0x08, 0x01, b'k', 0x08, 0x01, 0x01, b'k', 0x08, 0x02]);
    let section = decode(&doc).unwrap();
    assert_eq!(section.len(), 1);
    assert!(matches!(section.get(b"k"), Some(StorageEntry::U8(2))));
    assert_eq!(encode(&section), document(&[0x04, 0x01, b'k', 0x08, 0x02]));
}

#[test]
fn insert_again_moves_the_name_to_the_end() {
    let mut section = Section::new();
    section.insert(b"a".to_vec(), StorageEntry::U8(1));
    section.insert(b"b".to_vec(), StorageEntry::U8(2));
    section.insert(b"a".to_vec(), StorageEntry::U8(3));
    assert_eq!(section.len(), 2);
    assert_eq!(names(&section), vec![b"b".to_vec(), b"a".to_vec()]);
    assert!(matches!(section.get(b"a"), Some(StorageEntry::U8(3))));
    assert_eq!(
        encode(&section),
        document(&[0x08, 0x01, b'b', 0x08, 0x02, 0x01, b'a', 0x08, 0x03])
    );
}

#[test]
fn every_scalar_kind_exact_bytes() {
    let cases: Vec<(StorageEntry, Vec<u8>)> = vec![
        (StorageEntry::I64(-2), vec![0x01, 0xFE, 0xFF, 0xFF, 0xFF, 0xFF, 0xFF, 0xFF, 0xFF]),
        (StorageEntry::I32(-2), vec![0x02, 0xFE, 0xFF, 0xFF, 0xFF]),
        (StorageEntry::I16(-2), vec![0x03, 0xFE, 0xFF]),
        (StorageEntry::I8(-2), vec![0x04, 0xFE]),
        (StorageEntry::U64(0x0102030405060708), vec![0x05, 8, 7, 6, 5, 4, 3, 2, 1]),
        (StorageEntry::U32(0x01020304), vec![0x06, 4, 3, 2, 1]),
        (StorageEntry::U16(0x0102), vec![0x07, 2, 1]),
        (StorageEntry::U8(0xAB), vec![0x08, 0xAB]),
        (
            StorageEntry::Double(f64::to_bits(1.5)),
            vec![0x09, 0, 0, 0, 0, 0, 0, 0xF8, 0x3F],
        ),
        (StorageEntry::Buf(vec![9, 8, 7]), vec![0x0A, 0x0C, 9, 8, 7]),
        (StorageEntry::Bool(true), vec![0x0B, 0x01]),
        (StorageEntry::Section(Section::new()), vec![0x0C, 0x00]),
    ];
    for (entry, bytes) in cases {
        let mut buf = BytesMut::new();
        StorageEntry::write(&mut buf, &entry);
        assert_eq!(buf.to_vec(), bytes);

        let mut input = Bytes::from(bytes.clone());
        let back = StorageEntry::read(&mut input).unwrap();
        assert_eq!(input.len(), 0);
        assert_eq!(format!("{:?}", back), format!("{:?}", entry));
    }
}

#[test]
fn double_keeps_its_bits() {
    let mut input = Bytes::copy_from_slice(&[0x09, 0, 0, 0, 0, 0, 0, 0x04, 0xC0]);
    match StorageEntry::read(&mut input).unwrap() {
        StorageEntry::Double(bits) => assert_eq!(f64::from_bits(bits), -2.5),
        other => panic!("not a double: {:?}", other),
    }
}

#[test]
fn nested_tree_round_trip() {
    let mut inner = Section::new();
    inner.insert(b"blob".to_vec(), StorageEntry::Buf(vec![0xFF, 0x00, 0x80]));
    inner.insert(b"n".to_vec(), StorageEntry::I32(-7));

    let mut sections = Array::new();
    sections.push(StorageEntry::Section(inner)).unwrap();
    sections.push(StorageEntry::Section(Section::new())).unwrap();

    let mut row = Array::new();
    row.push(StorageEntry::Bool(true)).unwrap();
    let mut rows = Array::new();
    rows.push(StorageEntry::Array(row)).unwrap();

    let mut blobs = Array::new();
    blobs.push(StorageEntry::Buf(vec![1])).unwrap();
    blobs.push(StorageEntry::Buf(vec![])).unwrap();

    let mut root = Section::new();
    root.insert(vec![0xC3, 0x28], StorageEntry::U8(1));
    root.insert(b"sections".to_vec(), StorageEntry::Array(sections));
    root.insert(b"rows".to_vec(), StorageEntry::Array(rows));
    root.insert(b"blobs".to_vec(), StorageEntry::Array(blobs));
    root.insert(b"d".to_vec(), StorageEntry::Double(f64::to_bits(0.1)));

    let bytes = encode(&root);
    let back = decode(&bytes).unwrap();
    assert_eq!(format!("{:?}", back), format!("{:?}", root));
    assert_eq!(
        names(&back),
        vec![
            vec![0xC3, 0x28],
            b"sections".to_vec(),
            b"rows".to_vec(),
            b"blobs".to_vec(),
            b"d".to_vec()
        ]
    );
    assert_eq!(encode(&back), bytes);
}

#[test]
fn array_of_arrays_exact_bytes() {
    let mut row = Array::new();
    row.push(StorageEntry::U8(7)).unwrap();
    let mut rows = Array::new();
    rows.push(StorageEntry::Array(row)).unwrap();
    let mut buf = BytesMut::new();
    StorageEntry::write(&mut buf, &StorageEntry::Array(rows));
    assert_eq!(buf.to_vec(), vec![0x0D, 0x8D, 0x04, 0x88, 0x04, 0x07]);
}

#[test]
fn read_leaves_what_follows_the_document() {
    let mut doc = document(&[0x00]);
    doc.extend_from_slice(&[0xAA, 0xBB]);
    let mut buf = Bytes::from(doc);
    assert!(portable_storage::read(&mut buf).unwrap().is_empty());
    assert_eq!(&buf[..], &[0xAA, 0xBB]);
}

#[test]
fn header_is_checked() {
    assert_eq!(decode(&[]).err(), Some(Error::UnexpectedEof { needed: 9 }));
    assert_eq!(decode(&HEADER[..8]).err(), Some(Error::UnexpectedEof { needed: 9 }));
    let mut wrong_version = HEADER;
    wrong_version[8] = 2;
    assert_eq!(decode(&wrong_version).err(), Some(Error::InvalidHeader));
    let mut wrong_signature = HEADER;
    wrong_signature[0] = 0;
    assert_eq!(decode(&wrong_signature).err(), Some(Error::InvalidHeader));
}

#[test]
fn header_accepts_either_magic_number_in_first_place() {
    let second_first = [0x01, 0x01, 0x02, 0x01, 0x00, 0x00, 0x00, 0x00, 0x01, 0x00];
    assert!(decode(&second_first).unwrap().is_empty());
    let first_only = [0x01, 0x11, 0x01, 0x01, 0xFF, 0xFF, 0xFF, 0xFF, 0x01, 0x00];
    assert!(decode(&first_only).unwrap().is_empty());
}

#[test]
fn header_fields_and_checks() {
    let mut buf = Bytes::copy_from_slice(&HEADER);
    let header = StorageBlockHeader::read(&mut buf).unwrap();
    assert_eq!(header.signature_a, 0x0101_1101);
    assert_eq!(header.signature_b, 0x0102_0101);
    assert_eq!(header.version, 1);
    assert!(header.is_valid_signature_a());
    assert!(!header.is_valid_signature_b());
    assert!(header.is_valid_version());
    let other = StorageBlockHeader { signature_a: 0x0102_0101, signature_b: 0, version: 3 };
    assert!(!other.is_valid_signature_a());
    assert!(other.is_valid_signature_b());
    assert!(!other.is_valid_version());

    let mut out = BytesMut::new();
    StorageBlockHeader::write(&mut out);
    assert_eq!(out.to_vec(), HEADER.to_vec());
}

#[test]
fn unknown_tag_is_refused() {
    assert_eq!(
        decode(&document(&[0x04, 0x01, b'k', 0x0E])).err(),
        Some(Error::InvalidSerializeType(0x0E))
    );
    assert_eq!(
        decode(&document(&[0x04, 0x01, b'k', 0x00])).err(),
        Some(Error::InvalidSerializeType(0))
    );
    assert_eq!(
        decode(&document(&[0x04, 0x01, b'k', 0x8E, 0x04, 0x00])).err(),
        Some(Error::InvalidSerializeType(0x0E))
    );
}

#[test]
fn array_tag_needs_a_flagged_type() {
    assert_eq!(
        decode(&document(&[0x04, 0x01, b'k', 0x0D, 0x07, 0x00])).err(),
        Some(Error::WrongTypeSequence)
    );
}

#[test]
fn array_read_needs_the_flag() {
    let mut buf = Bytes::copy_from_slice(&[0x00]);
    assert_eq!(Array::read(&mut buf, 0x07).err(), Some(Error::InvalidArrayType(0x07)));
    let mut buf = Bytes::copy_from_slice(&[0x04, 0x2A]);
    let array = Array::read(&mut buf, 0x88).unwrap();
    assert_eq!(array.len(), 1);
    assert!(matches!(array.get(0), Some(StorageEntry::U8(42))));
}

#[test]
fn truncated_input_is_refused() {
    assert_eq!(decode(&document(&[])).err(), Some(Error::UnexpectedEof { needed: 1 }));
    assert_eq!(decode(&document(&[0x04])).err(), Some(Error::UnexpectedEof { needed: 1 }));
    assert_eq!(
        decode(&document(&[0x04, 0x03, b'a'])).err(),
        Some(Error::UnexpectedEof { needed: 3 })
    );
    assert_eq!(
        decode(&document(&[0x04, 0x01, b'a'])).err(),
        Some(Error::UnexpectedEof { needed: 1 })
    );
    assert_eq!(
        decode(&document(&[0x04, 0x01, b'a', 0x05, 1, 2, 3])).err(),
        Some(Error::UnexpectedEof { needed: 8 })
    );
    assert_eq!(
        decode(&document(&[0x04, 0x01, b'a', 0x0A, 0x10, 1, 2, 3])).err(),
        Some(Error::UnexpectedEof { needed: 4 })
    );
    assert_eq!(
        decode(&document(&[0x04, 0x01, b'a', 0x0D])).err(),
        Some(Error::UnexpectedEof { needed: 1 })
    );
}

#[test]
fn huge_declared_count_fails_fast() {
    let mut body: Vec<u8> = vec![0x02, 0x28, 0x6B, 0xEE];
    assert_eq!(u32::from_le_bytes([0x02, 0x28, 0x6B, 0xEE]) >> 2, 1_000_000_000);
    body.resize(64 - HEADER.len(), 0);
    let doc = document(&body);
    assert_eq!(doc.len(), 64);
    assert!(decode(&doc).is_err());

    let mut array = vec![0x04, 0x01, b'a', 0x88, 0x02, 0x28, 0x6B, 0xEE];
    array.extend_from_slice(&[1, 2, 3]);
    assert_eq!(decode(&document(&array)).err(), Some(Error::UnexpectedEof { needed: 1 }));
}

#[test]
fn empty_name_is_read() {
    let section = decode(&document(&[0x04, 0x00, 0x08, 0x05])).unwrap();
    assert_eq!(section.len(), 1);
    assert!(matches!(section.get(b""), Some(StorageEntry::U8(5))));
}

#[test]
fn copies_are_equal_and_independent() {
    let mut xs = Array::new();
    xs.push(StorageEntry::I16(-3)).unwrap();
    let mut section = Section::new();
    section.insert(b"xs".to_vec(), StorageEntry::Array(xs));
    section.insert(b"b".to_vec(), StorageEntry::Buf(vec![1, 2]));

    let mut copy = section.clone();
    assert_eq!(format!("{:?}", copy), format!("{:?}", section));
    assert_eq!(encode(&copy), encode(&section));
    copy.insert(b"c".to_vec(), StorageEntry::U8(0));
    assert_eq!(copy.len(), 3);
    assert_eq!(section.len(), 2);

    let listed = section.to_vec();
    assert_eq!(listed.len(), 2);
    assert_eq!(listed[0].0, b"xs".to_vec());
    match &listed[0].1 {
        StorageEntry::Array(a) => {
            let elems = a.to_vec();
            assert_eq!(elems.len(), 1);
            assert!(matches!(elems[0], StorageEntry::I16(-3)));
            assert_eq!(format!("{:?}", a.clone()), format!("{:?}", a));
        }
        other => panic!("not an array: {:?}", other),
    }
    assert!(matches!(&listed[1].1, StorageEntry::Buf(b) if b == &vec![1u8, 2]));
}

#[test]
fn defaults_are_empty() {
    let section = Section::default();
    assert!(section.is_empty());
    let array = Array::default();
    assert!(array.is_empty());
    assert_eq!(array.serialize_type(), None);
}

#[test]
fn well_formedness_is_decided() {
    assert!(Section::new().is_well_formed());
    assert!(StorageEntry::U8(1).is_well_formed());
    assert!(StorageEntry::Buf(vec![0; 300]).is_well_formed());

    let untyped = Array::new();
    assert!(!untyped.is_well_formed());
    assert!(!StorageEntry::Array(untyped).is_well_formed());

    let mut typed = Array::new();
    typed.push(StorageEntry::Bool(false)).unwrap();
    assert!(typed.is_well_formed());

    let mut long_name = Section::new();
    long_name.insert(vec![b'a'; 256], StorageEntry::U8(1));
    assert!(!long_name.is_well_formed());

    let mut longest_name = Section::new();
    longest_name.insert(vec![b'a'; 255], StorageEntry::U8(1));
    assert!(longest_name.is_well_formed());
    let bytes = encode(&longest_name);
    assert_eq!(bytes[9..11], [0x04, 0xFF]);
    assert_eq!(encode(&decode(&bytes).unwrap()), bytes);

    let mut nested = Section::new();
    nested.insert(b"inner".to_vec(), StorageEntry::Section(long_name));
    assert!(!nested.is_well_formed());

    let mut with_untyped = Section::new();
    with_untyped.insert(b"xs".to_vec(), StorageEntry::Array(Array::new()));
    assert!(!with_untyped.is_well_formed());
}

#[test]
fn what_is_read_is_well_formed() {
    let docs: [&[u8]; 3] = [
        &[0x04, 0x01, b'k', 0x8D, 0x04, 0x88, 0x08, 0x01, 0x02],
        &[0x08, 0x00, 0x0C, 0x00, 0x01, b'k', 0x0A, 0x00],
        &[0x04, 0x01, b'k', 0xB2, 0x00],
    ];
    for body in docs {
        let section = decode(&document(body)).unwrap();
        assert!(section.is_well_formed());
        let bytes = encode(&section);
        let again = decode(&bytes).unwrap();
        assert_eq!(format!("{:?}", again), format!("{:?}", section));
        assert_eq!(encode(&again), bytes);
    }
}

#[test]
fn a_failed_read_only_advances() {
    let inputs: [Vec<u8>; 4] = [
        document(&[0x04, 0x01, b'a', 0x05, 1, 2, 3]),
        document(&[0x08, 0x01, b'a', 0x08, 0x01, 0x01, b'b', 0x0E, 0x00]),
        document(&[0x04, 0x01, b'a', 0x0D, 0x07, 0x00]),
        vec![0x01, 0x11],
    ];
    for input in inputs {
        let mut buf = Bytes::from(input.clone());
        assert!(portable_storage::read(&mut buf).is_err());
        assert!(buf.len() <= input.len());
        assert_eq!(&buf[..], &input[input.len() - buf.len()..]);
    }
}

#[test]
fn try_write_refuses_what_cannot_be_written() {
    let mut good = Section::new();
    good.insert(b"id".to_vec(), StorageEntry::U8(56));
    let mut buf = BytesMut::new();
    buf.extend_from_slice(&[0xEE]);
    assert!(portable_storage::try_write(&mut buf, &good));
    let mut expected = vec![0xEE];
    expected.extend_from_slice(&encode(&good));
    assert_eq!(buf.to_vec(), expected);

    let mut bad = Section::new();
    bad.insert(b"xs".to_vec(), StorageEntry::Array(Array::new()));
    let mut buf = BytesMut::new();
    buf.extend_from_slice(&[0xEE]);
    assert!(!portable_storage::try_write(&mut buf, &bad));
    assert_eq!(buf.to_vec(), vec![0xEE]);
}
