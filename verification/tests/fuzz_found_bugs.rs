use bytes::Bytes;

#[test]
fn fuzz_case_de_0() {
    const BUF: &[u8] = &[1, 1, 2, 1, 1, 122, 2, 1, 1, 1, 255, 2, 255, 255];
    let mut buf = Bytes::from(BUF);
    portable_storage::read(&mut buf).ok();
}

#[test]
fn fuzz_case_de_1() {
    const BUF: &[u8] = &[
        1, 1, 2, 1, 1, 50, 2, 1, 1, 50, 122, 2, 1, 1, 1, 255, 255, 255, 35, 255, 0, 1, 1, 142,
    ];
    let mut buf = Bytes::from(BUF);
    portable_storage::read(&mut buf).ok();
}

#[test]
fn fuzz_case_de_2() {
    const BUF: &[u8] = &[
        1, 1, 2, 1, 50, 1, 122, 2, 1, 1, 1, 2, 1, 1, 141, 1, 5, 1, 1, 91, 1, 50, 122,
    ];
    let mut buf = Bytes::from(BUF);
    portable_storage::read(&mut buf).ok();
}
