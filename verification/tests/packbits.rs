//! PackBits encoder vectors and round trips.

use lyst::packbits::{Decoder, Encoder};

fn encode_all(data: &[u8]) -> Vec<u8> {
    let mut encoder = Encoder::new();
    let mut out = encoder.encode(data);
    let mut tail = encoder.finalize();
    out.append(&mut tail);
    out
}

fn test_encode_to(to_encode: &[u8], expected: &[u8]) {
    assert_eq!(encode_all(to_encode), expected);
}

fn roundtrip(data: &[u8]) {
    let encoded = encode_all(data);
    let mut decoder = Decoder::new();
    let decoded = decoder.decode(&encoded);
    decoder.finalize().unwrap();
    assert_eq!(data, decoded.as_slice());
}

#[test]
fn single_byte() {
    test_encode_to(b"a", b"\x00a")
}

#[test]
fn literal() {
    test_encode_to(b"abcdefg", b"\x06abcdefg")
}

#[test]
fn repeated() {
    test_encode_to(b"aaaaaaaaaaaaaaaaa", b"\xF0a")
}

#[test]
fn long_repeated() {
    test_encode_to(
        std::iter::repeat(b'a')
            .take(128 + 16)
            .collect::<Vec<_>>()
            .as_slice(),
        b"\x81a\xF1a",
    )
}

#[test]
fn mixed() {
    test_encode_to(b"abcdeeeeeeeeeeeeeeeefg", b"\x03abcd\xF1e\x01fg")
}

#[test]
fn apple_example() {
    test_encode_to(
        &[
            0xAA, 0xAA, 0xAA, 0x80, 0x00, 0x2A, 0xAA, 0xAA, 0xAA, 0xAA, 0x80, 0x00, 0x2A, 0x22,
            0xAA, 0xAA, 0xAA, 0xAA, 0xAA, 0xAA, 0xAA, 0xAA, 0xAA, 0xAA,
        ],
        &[
            0xFE, 0xAA, 0x02, 0x80, 0x00, 0x2A, 0xFD, 0xAA, 0x03, 0x80, 0x00, 0x2A, 0x22, 0xF7,
            0xAA,
        ],
    )
}

#[test]
fn empty() {
    test_encode_to(&[], &[])
}

#[test]
fn roundtrip_single_byte() {
    roundtrip(&[0xAB])
}

#[test]
fn roundtrip_repeated_byte() {
    roundtrip(&std::iter::repeat(0xAB).take(512).collect::<Vec<_>>())
}

#[test]
fn roundtrip_incrementing_counter() {
    roundtrip(&(0..512usize).map(|b| (b & 0xFF) as u8).collect::<Vec<_>>())
}

#[test]
fn roundtrip_mixed_load() {
    let mut data: Vec<u8> = Vec::new();
    let mut repeat = true;
    while data.len() < 512 {
        if repeat {
            data.extend_from_slice(&[0u8; 5]);
        } else {
            data.extend_from_slice(&[0, 1, 2, 3, 4]);
        }
        repeat = !repeat;
    }
    data.truncate(512);
    roundtrip(&data)
}

#[test]
fn roundtrip_empty() {
    roundtrip(&[])
}

#[test]
fn roundtrip_long_run_and_ramp() {
    let mut data: Vec<u8> = std::iter::repeat(0x42).take(300).collect();
    data.extend((0..300usize).map(|b| (b & 0xFF) as u8));
    roundtrip(&data)
}

#[test]
fn decoder_reports_dangling_literal() {
    let mut decoder = Decoder::new();
    // control byte 0x05 owes six literal bytes; only two follow
    decoder.decode(&[0x05, 0x61, 0x62]);
    assert_eq!(
        decoder.finalize(),
        Err(lyst::packbits::Error::DanglingLiteral(4))
    );
}

#[test]
fn decoder_reports_dangling_repeated() {
    let mut decoder = Decoder::new();
    // 0xFE announces a repeat run but the byte to repeat is missing
    decoder.decode(&[0xFE]);
    assert_eq!(
        decoder.finalize(),
        Err(lyst::packbits::Error::DanglingRepeated)
    );
}

#[test]
fn decoder_skips_noop_control() {
    let mut decoder = Decoder::new();
    let decoded = decoder.decode(&[0x80, 0x00, 0x61, 0x80]);
    decoder.finalize().unwrap();
    assert_eq!(decoded, b"a");
}

#[test]
fn decoder_handles_chunked_input() {
    let mut decoder = Decoder::new();
    // a repeat run and a literal run split across three calls
    let mut out = decoder.decode(&[0xFD, 0x61, 0x02]);
    out.append(&mut decoder.decode(&[0x62]));
    out.append(&mut decoder.decode(&[0x63, 0x64]));
    decoder.finalize().unwrap();
    assert_eq!(out, b"aaaabcd");
}
