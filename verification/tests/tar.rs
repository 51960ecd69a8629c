use aloe::tar::{Tar, TarError, TarHeader, HEADER_SIZE};

fn header(name: &[u8], size_field: &[u8]) -> Vec<u8> {
    let mut h = vec![0u8; HEADER_SIZE];
    h[..name.len()].copy_from_slice(name);
    h[124..124 + size_field.len()].copy_from_slice(size_field);
    h
}

fn archive() -> Vec<u8> {
    let mut bytes = header(b"hello.txt", b"00000000005\0");
    let mut data = vec![0u8; 512];
    data[..5].copy_from_slice(b"hello");
    bytes.extend_from_slice(&data);
    bytes.extend_from_slice(&header(b"second", b"00000000012\0"));
    let mut data = vec![0u8; 512];
    data[..10].copy_from_slice(b"0123456789");
    bytes.extend_from_slice(&data);
    bytes.extend_from_slice(&vec![0u8; 1024]);
    bytes
}

#[test]
fn header_needs_a_whole_block() {
    let short = vec![0u8; HEADER_SIZE - 1];
    assert!(matches!(
        TarHeader::try_from_bytes(&short),
        Err(TarError::NotEnoughBytesForHeader)
    ));
}

#[test]
fn header_reads_name_and_size() {
    let h = TarHeader::try_from_bytes(&header(b"hello.txt", b"00000000005\0")).unwrap();
    assert!(!h.is_empty());
    assert_eq!(h.filename().unwrap(), "hello.txt");
    assert!(h.is_file("hello.txt"));
    assert!(!h.is_file("hello.tx"));
    assert_eq!(h.filesize().unwrap(), 5);
}

#[test]
fn size_is_octal() {
    let h = TarHeader::try_from_bytes(&header(b"a", b"00000000017\0")).unwrap();
    assert_eq!(h.filesize().unwrap(), 15);
    let bad = TarHeader::try_from_bytes(&header(b"a", b"0000000009\0")).unwrap();
    assert!(matches!(bad.filesize(), Err(TarError::NotOctal)));
}

#[test]
fn name_without_nul_is_refused() {
    let h = TarHeader::try_from_bytes(&header(&[b'x'; 100], b"1\0")).unwrap();
    assert!(matches!(h.filename(), Err(TarError::StrConvertError)));
}

#[test]
fn empty_header_is_empty() {
    let h = TarHeader::try_from_bytes(&vec![0u8; HEADER_SIZE]).unwrap();
    assert!(h.is_empty());
}

#[test]
fn archive_walks_every_file() {
    let bytes = archive();
    let tar = Tar::new(&bytes);
    let mut iter = tar.iter();
    let first = iter.next().unwrap();
    assert_eq!(first.filename().unwrap(), "hello.txt");
    assert_eq!(first.filesize().unwrap(), 5);
    assert_eq!(first.file().unwrap(), b"hello");
    let second = iter.next().unwrap();
    assert!(second.is_file("second"));
    assert_eq!(second.file().unwrap(), b"0123456789");
    assert!(iter.next().is_none());
    assert!(iter.next().is_none());
}

#[test]
fn file_past_the_end_is_out_of_range() {
    let mut bytes = header(b"big", b"00000001000\0");
    bytes.extend_from_slice(&vec![0u8; 100]);
    let tar = Tar::new(&bytes);
    let file = tar.iter().next().unwrap();
    assert!(matches!(file.file(), Err(TarError::OutOfRange)));
}
