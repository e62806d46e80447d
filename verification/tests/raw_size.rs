use bytes::{Bytes, BytesMut};
use portable_storage::raw_size::{U16_MAX, U32_MAX, U64_MAX, U8_MAX};
use portable_storage::Error;

fn encoded(value: u64) -> Vec<u8> {
    let mut buf = BytesMut::new();
    portable_storage::raw_size::write(&mut buf, value);
    buf.to_vec()
}

fn decoded(bytes: &[u8]) -> Result<u64, Error> {
    let mut buf = Bytes::copy_from_slice(bytes);
    portable_storage::raw_size::read(&mut buf)
}

#[test]
fn roundtrip() {
    const SIZES: &[(u64, usize)] = &[(U8_MAX, 1), (U16_MAX, 2), (U32_MAX, 4), (U64_MAX, 8)];

    for (value, size_in_bytes) in SIZES {
        let mut buf = BytesMut::new();
        portable_storage::raw_size::write(&mut buf, *value);
        assert_eq!(buf.len(), *size_in_bytes);

        let mut buf = buf.freeze();
        let readed_value = portable_storage::raw_size::read(&mut buf).unwrap();
        assert_eq!(readed_value, *value);
    }
}

#[test]
fn boundaries_pick_the_narrowest_width() {
    let cases: [(u64, usize); 9] = [
        (0, 1),
        (63, 1),
        (64, 2),
        (16_383, 2),
        (16_384, 4),
        (1_073_741_823, 4),
        (1_073_741_824, 8),
        (4_611_686_018_427_387_903, 8),
        (1, 1),
    ];
    for (value, width) in cases {
        let bytes = encoded(value);
        assert_eq!(bytes.len(), width, "width of {}", value);
        assert_eq!(decoded(&bytes), Ok(value));
    }
}

#[test]
fn exact_bytes() {
    assert_eq!(encoded(0), vec![0x00]);
    assert_eq!(encoded(2), vec![0x08]);
    assert_eq!(encoded(3), vec![0x0C]);
    assert_eq!(encoded(63), vec![0xFC]);
    assert_eq!(encoded(64), vec![0x01, 0x01]);
    assert_eq!(encoded(16_383), vec![0xFD, 0xFF]);
    assert_eq!(encoded(16_384), vec![0x02, 0x00, 0x01, 0x00]);
    assert_eq!(encoded(1_073_741_823), vec![0xFE, 0xFF, 0xFF, 0xFF]);
    assert_eq!(encoded(1_073_741_824), vec![0x03, 0x00, 0x00, 0x00, 0x01, 0x00, 0x00, 0x00]);
    assert_eq!(encoded(U64_MAX), vec![0xFF; 8]);
}

#[test]
fn read_leaves_what_follows() {
    let mut buf = Bytes::copy_from_slice(&[0xFC, 0xAA, 0xBB]);
    assert_eq!(portable_storage::raw_size::read(&mut buf), Ok(63));
    assert_eq!(&buf[..], &[0xAA, 0xBB]);
}

#[test]
fn read_accepts_a_wider_form_than_needed() {
    assert_eq!(decoded(&[0x05, 0x00]), Ok(1));
    assert_eq!(decoded(&[0x06, 0x00, 0x00, 0x00]), Ok(1));
    assert_eq!(decoded(&[0x07, 0, 0, 0, 0, 0, 0, 0]), Ok(1));
}

#[test]
fn end_of_input() {
    assert_eq!(decoded(&[]), Err(Error::UnexpectedEof { needed: 1 }));
    assert_eq!(decoded(&[0x01]), Err(Error::UnexpectedEof { needed: 2 }));
    assert_eq!(decoded(&[0x02, 0, 0]), Err(Error::UnexpectedEof { needed: 4 }));
    assert_eq!(decoded(&[0x03, 0, 0, 0, 0, 0, 0]), Err(Error::UnexpectedEof { needed: 8 }));
}

#[test]
fn end_of_input_consumes_nothing() {
    let mut buf = Bytes::copy_from_slice(&[0x02, 0, 0]);
    assert!(portable_storage::raw_size::read(&mut buf).is_err());
    assert_eq!(&buf[..], &[0x02, 0, 0]);
}

#[test]
fn too_big_is_refused() {
    let mut buf = BytesMut::new();
    assert!(!portable_storage::raw_size::try_write(&mut buf, U64_MAX + 1));
    assert!(!portable_storage::raw_size::try_write(&mut buf, 4_611_686_018_427_387_904));
    assert!(!portable_storage::raw_size::try_write(&mut buf, u64::MAX));
    assert_eq!(buf.len(), 0);
    assert!(portable_storage::raw_size::try_write(&mut buf, U64_MAX));
    assert_eq!(buf.to_vec(), vec![0xFF; 8]);
}
