//! Positioned reader: typed reads, bounds and sub-streams.

use lyst::reader::{Error, MohawkReader};

#[test]
fn typed_reads_are_big_endian() {
    let mut r = MohawkReader::new(vec![
        0x12, 0x34, 0x56, 0x78, 0x9A, 0xBC, 0xDE, 0xF0, 0x01, 0x02, 0x03, 0x04,
    ]);
    assert_eq!(r.read_u16(), Ok(0x1234));
    assert_eq!(r.read_u32(), Ok(0x56789ABC));
    assert_eq!(r.read_u8(), Ok(0xDE));
    assert_eq!(r.stream_position(), 7);
    r.seek(0);
    assert_eq!(r.read_u64(), Ok(0x123456789ABCDEF0));
    assert_eq!(r.read_4_bytes(), Ok([0x01, 0x02, 0x03, 0x04]));
}

#[test]
fn signed_reads_use_twos_complement() {
    let mut r = MohawkReader::new(vec![0xFF, 0xFE, 0x00, 0x2A]);
    assert_eq!(r.read_i16(), Ok(-2));
    assert_eq!(r.read_i16(), Ok(42));
}

#[test]
fn read_past_end_reports_eof_and_keeps_position() {
    let mut r = MohawkReader::new(vec![0x01]);
    assert_eq!(r.read_u16(), Err(Error::UnexpectedEof));
    assert_eq!(r.stream_position(), 0);
    assert_eq!(r.read_u8(), Ok(0x01));
    assert_eq!(r.read_u8(), Err(Error::UnexpectedEof));
}

#[test]
fn nested_take_reads_min_of_both_bounds() {
    let data: Vec<u8> = (0..100u8).collect();
    let r = MohawkReader::new(data);
    let first = r.take(10);
    let second = first.take(25);
    assert_eq!(second.remaining_len(), 10);
    let third = first.take(4);
    assert_eq!(third.remaining_len(), 4);
    let mut cursor = second;
    for expected in 0..10u8 {
        assert_eq!(cursor.read_u8(), Ok(expected));
    }
    assert_eq!(cursor.read_u8(), Err(Error::UnexpectedEof));
}

#[test]
fn takes_are_independent_cursors() {
    let r = MohawkReader::new(vec![10, 20, 30, 40]);
    let mut a = r.take(4);
    let mut b = r.take(4);
    assert_eq!(a.read_u8(), Ok(10));
    assert_eq!(b.read_u8(), Ok(10));
    assert_eq!(a.read_u8(), Ok(20));
    assert_eq!(b.read_u8(), Ok(20));
}

#[test]
fn read_string_consumes_terminator() {
    let mut r = MohawkReader::new(vec![b'a', b'b', b'c', 0, b'd']);
    assert_eq!(r.read_string(), Ok(String::from("abc")));
    assert_eq!(r.read_u8(), Ok(b'd'));
}

#[test]
fn read_string_decodes_multibyte_utf8() {
    // "é" is two bytes in UTF-8 but one character
    let mut r = MohawkReader::new(vec![0xC3, 0xA9, 0]);
    let s = r.read_string().unwrap();
    assert_eq!(s, "é");
    assert_eq!(s.chars().count(), 1);
}

#[test]
fn read_string_rejects_invalid_utf8() {
    let mut r = MohawkReader::new(vec![0xFF, 0xFE, 0]);
    assert_eq!(r.read_string(), Err(Error::InvalidUtf8));
}

#[test]
fn read_string_without_terminator_is_eof() {
    let mut r = MohawkReader::new(vec![b'a', b'b']);
    assert_eq!(r.read_string(), Err(Error::UnexpectedEof));
}

#[test]
fn seek_beyond_bound_makes_reads_fail() {
    let mut r = MohawkReader::new(vec![1, 2, 3]);
    r.seek(10);
    assert_eq!(r.read_u8(), Err(Error::UnexpectedEof));
    r.seek(1);
    assert_eq!(r.read_u8(), Ok(2));
    r.skip(1);
    assert_eq!(r.read_u8(), Err(Error::UnexpectedEof));
}

#[test]
fn read_exact_returns_requested_range() {
    let mut r = MohawkReader::new(vec![9, 8, 7, 6, 5]);
    r.seek(1);
    assert_eq!(r.read_exact(3), Ok(vec![8, 7, 6]));
    assert_eq!(r.read_exact(2), Err(Error::UnexpectedEof));
}
