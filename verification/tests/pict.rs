//! PICT decoding on synthetic resources.

use lyst::mohawk::Mohawk;
use lyst::operation::Operation;
use lyst::packbits::Error as PackBitsError;
use lyst::pict::{Error, PICT};
use lyst::reader::MohawkReader;

fn push_u16(v: &mut Vec<u8>, x: u16) {
    v.extend_from_slice(&x.to_be_bytes());
}

fn push_u32(v: &mut Vec<u8>, x: u32) {
    v.extend_from_slice(&x.to_be_bytes());
}

/// Null header, ignored size word and bounding rectangle, then the
/// `VersionOp`, `Version`, `HeaderOp` preamble.
fn preamble() -> Vec<u8> {
    let mut v: Vec<u8> = vec![0u8; 512];
    push_u16(&mut v, 0); // size word, ignored
    v.extend_from_slice(&[0; 8]); // bounding rectangle, ignored
    push_u16(&mut v, 0x0011); // VersionOp
    push_u16(&mut v, 0x02FF); // Version
    push_u16(&mut v, 0x0C00); // HeaderOp
    push_u16(&mut v, 0xFFFE); // header version -2
    v.extend_from_slice(&[0; 2]); // reserved
    v.extend_from_slice(&[0; 8]); // resolution
    v.extend_from_slice(&[0; 8]); // source rectangle
    v.extend_from_slice(&[0; 4]); // reserved
    v
}

/// A QuickTime-compressed image opcode carrying `data` (even length).
fn quicktime_op(data: &[u8]) -> Vec<u8> {
    let mut v: Vec<u8> = Vec::new();
    push_u16(&mut v, 0x8200);
    push_u32(&mut v, data.len() as u32 + 154);
    push_u16(&mut v, 1); // version
    v.extend_from_slice(&[0; 36]); // transformation matrix
    push_u32(&mut v, 0); // matte size
    v.extend_from_slice(&[0; 8]); // matte rectangle
    push_u16(&mut v, 0); // mode
    v.extend_from_slice(&[0; 8]); // source rectangle
    push_u32(&mut v, 0); // accuracy
    push_u32(&mut v, 0); // mask size
    // image description, 86 bytes
    push_u32(&mut v, 86);
    v.extend_from_slice(b"jpeg");
    v.extend_from_slice(&[0; 8]); // reserved
    push_u16(&mut v, 0); // version
    push_u16(&mut v, 0); // revision
    v.extend_from_slice(b"appl");
    push_u32(&mut v, 0); // temporal quality
    push_u32(&mut v, 0); // spatial quality
    push_u16(&mut v, 2); // width
    push_u16(&mut v, 1); // height
    push_u32(&mut v, 0); // horizontal resolution
    push_u32(&mut v, 0); // vertical resolution
    push_u32(&mut v, data.len() as u32);
    push_u16(&mut v, 1); // frame count
    v.push(0); // name length
    v.extend_from_slice(&[0; 31]); // name bytes
    push_u16(&mut v, 24); // depth
    push_u16(&mut v, 0); // color table id
    v.extend_from_slice(data);
    v
}

/// A direct-bits opcode: one packed row of six planar bytes.
fn direct_bits_op(row: &[u8]) -> Vec<u8> {
    let mut v: Vec<u8> = Vec::new();
    push_u16(&mut v, 0x009A);
    // pixel map, 50 bytes
    push_u32(&mut v, 0xFF); // base address marker
    push_u16(&mut v, 6); // row bytes, no flags
    push_u16(&mut v, 0); // bounds top
    push_u16(&mut v, 0); // bounds left
    push_u16(&mut v, 1); // bounds bottom
    push_u16(&mut v, 2); // bounds right
    push_u16(&mut v, 0); // version
    push_u16(&mut v, 4); // pack type: packed planar rows
    push_u32(&mut v, 0); // pack size
    push_u32(&mut v, 0); // horizontal resolution
    push_u32(&mut v, 0); // vertical resolution
    push_u16(&mut v, 16); // pixel type: direct
    push_u16(&mut v, 24); // pixel size
    push_u16(&mut v, 3); // components count
    push_u16(&mut v, 8); // components size
    push_u32(&mut v, 0); // plane offset
    push_u32(&mut v, 0); // color table address
    v.extend_from_slice(&[0; 4]); // reserved
    // source and destination rectangles
    for _rect in 0..2 {
        push_u16(&mut v, 0);
        push_u16(&mut v, 0);
        push_u16(&mut v, 1);
        push_u16(&mut v, 2);
    }
    push_u16(&mut v, 0); // mode
    // one encoded row: a literal run of the six planar bytes
    v.push(row.len() as u8 + 1);
    v.push(row.len() as u8 - 1);
    v.extend_from_slice(row);
    v
}

fn end_op() -> Vec<u8> {
    let mut v: Vec<u8> = Vec::new();
    push_u16(&mut v, 0x00FF);
    v
}

fn parse(bytes: Vec<u8>) -> Result<PICT, Error> {
    PICT::parse(MohawkReader::new(bytes))
}

#[test]
fn decodes_quicktime_jpeg() {
    let mut v = preamble();
    v.extend_from_slice(&quicktime_op(&[0x11, 0x22, 0x33, 0x44]));
    v.extend_from_slice(&end_op());
    match parse(v).unwrap() {
        PICT::JPEG(data) => assert_eq!(data, vec![0x11, 0x22, 0x33, 0x44]),
        PICT::RGB24 { .. } => panic!("expected a JPEG image"),
    }
}

#[test]
fn decodes_direct_bits_planar_row() {
    let mut v = preamble();
    v.extend_from_slice(&direct_bits_op(&[1, 2, 3, 4, 5, 6]));
    v.extend_from_slice(&end_op());
    match parse(v).unwrap() {
        PICT::RGB24 { width, height, data } => {
            assert_eq!(width, 2);
            assert_eq!(height, 1);
            // planar thirds interleaved to R G B per pixel
            assert_eq!(data, vec![1, 3, 5, 2, 4, 6]);
        },
        PICT::JPEG(_) => panic!("expected an RGB image"),
    }
}

#[test]
fn ignores_drawing_opcodes() {
    let mut v = preamble();
    push_u16(&mut v, 0x0000); // Nop
    push_u16(&mut v, 0x001E); // DefHilite
    push_u16(&mut v, 0x0003); // TxFont
    push_u16(&mut v, 0x0007);
    push_u16(&mut v, 0x0004); // TxFace with zero filler
    v.push(1);
    v.push(0);
    v.extend_from_slice(&quicktime_op(&[0xAB, 0xCD]));
    v.extend_from_slice(&end_op());
    match parse(v).unwrap() {
        PICT::JPEG(data) => assert_eq!(data, vec![0xAB, 0xCD]),
        PICT::RGB24 { .. } => panic!("expected a JPEG image"),
    }
}

#[test]
fn rejects_non_empty_header() {
    let mut v = preamble();
    v[100] = 1;
    v.extend_from_slice(&end_op());
    assert_eq!(parse(v).unwrap_err(), Error::NonEmptyHeader);
}

#[test]
fn rejects_unsupported_opcode() {
    let mut v = preamble();
    push_u16(&mut v, 0x0002);
    assert_eq!(parse(v).unwrap_err(), Error::UnsupportedOpcode(0x0002));
}

#[test]
fn rejects_wrong_preamble_order() {
    let mut v: Vec<u8> = vec![0u8; 512];
    push_u16(&mut v, 0);
    v.extend_from_slice(&[0; 8]);
    push_u16(&mut v, 0x0000); // Nop where VersionOp is required
    assert_eq!(parse(v).unwrap_err(), Error::UnexpectedOpcode(0x0000));
}

#[test]
fn rejects_unsupported_header_version() {
    let mut v = preamble();
    v[528] = 0xFF;
    v[529] = 0xFF; // header version -1
    assert_eq!(parse(v).unwrap_err(), Error::UnsupportedHeaderVersion(-1));
}

#[test]
fn rejects_preamble_opcode_in_stream() {
    let mut v = preamble();
    push_u16(&mut v, 0x0011); // a second VersionOp
    assert_eq!(parse(v).unwrap_err(), Error::UnexpectedOpcode(0x0011));
}

#[test]
fn rejects_data_after_end() {
    let mut v = preamble();
    v.extend_from_slice(&quicktime_op(&[0x11, 0x22]));
    v.extend_from_slice(&end_op());
    v.push(0);
    assert_eq!(parse(v).unwrap_err(), Error::DataRemaining);
}

#[test]
fn rejects_stream_without_image() {
    let mut v = preamble();
    v.extend_from_slice(&end_op());
    assert_eq!(parse(v).unwrap_err(), Error::UnableToFindImage);
}

#[test]
fn rejects_nonzero_filler() {
    let mut v = preamble();
    push_u16(&mut v, 0x0004); // TxFace
    v.push(1);
    v.push(7); // filler must be zero
    assert_eq!(parse(v).unwrap_err(), Error::InvalidFiller(7));
}

#[test]
fn rejects_second_image() {
    let mut v = preamble();
    v.extend_from_slice(&quicktime_op(&[0x11, 0x22]));
    v.extend_from_slice(&quicktime_op(&[0x33, 0x44]));
    v.extend_from_slice(&end_op());
    assert_eq!(parse(v).unwrap_err(), Error::ImageAlreadyFound);
}

#[test]
fn rejects_odd_comment_size() {
    let mut v = preamble();
    push_u16(&mut v, 0x00A1); // LongComment
    push_u16(&mut v, 0); // kind
    push_u16(&mut v, 1); // odd size breaks alignment
    v.push(b'x');
    assert_eq!(parse(v).unwrap_err(), Error::UnevenOpcode(0x00A1));
}

#[test]
fn rejects_dangling_packbits_row() {
    let mut v = preamble();
    let mut op: Vec<u8> = Vec::new();
    push_u16(&mut op, 0x009A);
    push_u32(&mut op, 0xFF);
    push_u16(&mut op, 6);
    for x in [0u16, 0, 1, 2, 0, 4] {
        push_u16(&mut op, x);
    }
    push_u32(&mut op, 0);
    push_u32(&mut op, 0);
    push_u32(&mut op, 0);
    push_u16(&mut op, 16);
    push_u16(&mut op, 24);
    push_u16(&mut op, 3);
    push_u16(&mut op, 8);
    push_u32(&mut op, 0);
    push_u32(&mut op, 0);
    op.extend_from_slice(&[0; 4]);
    for _rect in 0..2 {
        for x in [0u16, 0, 1, 2] {
            push_u16(&mut op, x);
        }
    }
    push_u16(&mut op, 0);
    // the encoded row announces six literal bytes but carries two
    op.push(3);
    op.push(0x05);
    op.extend_from_slice(&[1, 2]);
    v.extend_from_slice(&op);
    assert_eq!(
        parse(v).unwrap_err(),
        Error::PackBits(PackBitsError::DanglingLiteral(4))
    );
}

#[test]
fn long_text_decodes_as_windows_1252() {
    // 0x80 is the euro sign in windows-1252, not a valid UTF-8 byte
    let mut v: Vec<u8> = Vec::new();
    push_u16(&mut v, 0x0028);
    push_u16(&mut v, 0); // location
    push_u16(&mut v, 0);
    v.push(3); // odd count, no filler
    v.extend_from_slice(&[0x80, 0x61, 0x62]);
    let mut r = MohawkReader::new(v);
    match Operation::parse(&mut r).unwrap() {
        Operation::LongText { text, .. } => assert_eq!(text, "\u{20AC}ab"),
        _ => panic!("expected a text operation"),
    }
}

/// An archive holding one `PICT` resource, id 9.
fn pict_archive(pict: &[u8]) -> Vec<u8> {
    let total: u32 = 62 + pict.len() as u32;
    let mut v: Vec<u8> = Vec::new();
    v.extend_from_slice(b"MHWK");
    push_u32(&mut v, total - 8);
    v.extend_from_slice(b"RSRC");
    push_u16(&mut v, 0x0100);
    push_u16(&mut v, 0x0001);
    push_u32(&mut v, total);
    push_u32(&mut v, 28); // resource directory offset
    push_u16(&mut v, 20); // file table offset in directory
    push_u16(&mut v, 14); // file table size
    push_u16(&mut v, 20); // name list offset (empty)
    push_u16(&mut v, 1); // type count
    v.extend_from_slice(b"PICT");
    push_u16(&mut v, 12); // resource table offset
    push_u16(&mut v, 18); // name table offset
    push_u16(&mut v, 1); // resource count
    push_u16(&mut v, 9); // resource id
    push_u16(&mut v, 1); // file id plus one
    push_u16(&mut v, 0); // name count
    push_u32(&mut v, 1); // file count
    push_u32(&mut v, 62); // resource offset
    v.push((pict.len() >> 16) as u8);
    v.push((pict.len() >> 8) as u8);
    v.push(pict.len() as u8);
    v.push(0); // flag
    push_u16(&mut v, 0); // unknown
    v.extend_from_slice(pict);
    v
}

#[test]
fn archive_to_image_end_to_end() {
    let mut pict = preamble();
    pict.extend_from_slice(&quicktime_op(&[9, 8, 7, 6, 5, 4]));
    pict.extend_from_slice(&end_op());
    let m = Mohawk::parse(pict_archive(&pict)).unwrap();
    match m.get_pict(9).unwrap().unwrap() {
        PICT::JPEG(data) => assert_eq!(data, vec![9, 8, 7, 6, 5, 4]),
        PICT::RGB24 { .. } => panic!("expected a JPEG image"),
    }
    assert!(m.get_pict(8).is_none());
}

#[test]
fn stream_end_without_image_is_unable_to_find() {
    // the bytes run out cleanly between opcodes, no end-of-picture seen
    let mut v = preamble();
    push_u16(&mut v, 0x0000); // Nop
    assert_eq!(parse(v).unwrap_err(), Error::UnableToFindImage);
}

#[test]
fn stream_end_after_image_yields_the_image() {
    // an image was collected and the bytes run out cleanly
    let mut v = preamble();
    v.extend_from_slice(&quicktime_op(&[0x42, 0x43]));
    match parse(v).unwrap() {
        PICT::JPEG(data) => assert_eq!(data, vec![0x42, 0x43]),
        PICT::RGB24 { .. } => panic!("expected a JPEG image"),
    }
}

#[test]
fn truncated_opcode_is_eof() {
    // one stray byte cannot hold an opcode tag
    let mut v = preamble();
    v.push(0);
    assert_eq!(
        parse(v).unwrap_err(),
        Error::Reader(lyst::reader::Error::UnexpectedEof)
    );
}
