use portable_storage::access::{ElementStream, EntryStream};
use portable_storage::{Array, Section, StorageEntry};

#[test]
fn entries_come_out_in_insertion_order() {
    let mut section = Section::new();
    section.insert(b"id".to_vec(), StorageEntry::U8(56));
    section.insert(b"transaction_proof".to_vec(), StorageEntry::U64(1337));
    section.insert(b"flag".to_vec(), StorageEntry::Bool(true));

    let mut stream = EntryStream::new(&section);
    assert_eq!(stream.size_hint(), 3);
    assert!(stream.next_value().is_none());

    assert_eq!(stream.next_key(), Some(b"id".to_vec()));
    assert_eq!(stream.size_hint(), 2);
    assert!(matches!(stream.next_value(), Some(StorageEntry::U8(56))));
    assert!(stream.next_value().is_none());

    assert_eq!(stream.next_key(), Some(b"transaction_proof".to_vec()));
    assert!(matches!(stream.next_value(), Some(StorageEntry::U64(1337))));

    assert_eq!(stream.next_key(), Some(b"flag".to_vec()));
    assert_eq!(stream.size_hint(), 0);
    assert!(matches!(stream.next_value(), Some(StorageEntry::Bool(true))));

    assert_eq!(stream.next_key(), None);
    assert!(stream.next_value().is_none());
    assert_eq!(section.len(), 3);
}

#[test]
fn a_skipped_value_is_dropped() {
    let mut section = Section::new();
    section.insert(b"a".to_vec(), StorageEntry::U8(1));
    section.insert(b"b".to_vec(), StorageEntry::U8(2));
    let mut stream = EntryStream::new(&section);
    assert_eq!(stream.next_key(), Some(b"a".to_vec()));
    assert_eq!(stream.next_key(), Some(b"b".to_vec()));
    assert!(matches!(stream.next_value(), Some(StorageEntry::U8(2))));
    assert_eq!(stream.next_key(), None);
}

#[test]
fn empty_section_has_no_entries() {
    let mut stream = EntryStream::new(&Section::new());
    assert_eq!(stream.size_hint(), 0);
    assert_eq!(stream.next_key(), None);
}

#[test]
fn elements_come_out_in_order() {
    let mut xs = Array::new();
    xs.push(StorageEntry::U16(1)).unwrap();
    xs.push(StorageEntry::U16(258)).unwrap();
    xs.push(StorageEntry::U16(65535)).unwrap();

    let mut stream = ElementStream::new(&xs);
    assert_eq!(stream.size_hint(), 3);
    assert!(matches!(stream.next_element(), Some(StorageEntry::U16(1))));
    assert!(matches!(stream.next_element(), Some(StorageEntry::U16(258))));
    assert_eq!(stream.size_hint(), 1);
    assert!(matches!(stream.next_element(), Some(StorageEntry::U16(65535))));
    assert!(stream.next_element().is_none());
    assert_eq!(stream.size_hint(), 0);
    assert_eq!(xs.len(), 3);
}

struct TestVector0 {
    id: u8,
    transaction_proof: u64,
}

fn bind_test_vector_0(section: &Section) -> Option<TestVector0> {
    let mut id: Option<u8> = None;
    let mut transaction_proof: Option<u64> = None;
    let mut stream = EntryStream::new(section);
    while let Some(name) = stream.next_key() {
        match (&name[..], stream.next_value()) {
            (b"id", Some(StorageEntry::U8(v))) => id = Some(v),
            (b"transaction_proof", Some(StorageEntry::U64(v))) => transaction_proof = Some(v),
            _ => return None,
        }
    }
    Some(TestVector0 { id: id?, transaction_proof: transaction_proof? })
}

#[test]
fn test_vector_0() {
    let mut section = Section::with_capacity(2);

    section.insert(b"id".to_vec(), StorageEntry::U8(56));
    section.insert(b"transaction_proof".to_vec(), StorageEntry::U64(1337));

    let test_vector_0 = bind_test_vector_0(&section).unwrap();

    assert_eq!(test_vector_0.id, 56);
    assert_eq!(test_vector_0.transaction_proof, 1337);
}
