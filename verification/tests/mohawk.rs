//! Mohawk archive parsing on synthetic archives.

use lyst::mohawk::{Error, Mohawk, TypeID};
use lyst::reader::Error as ReaderError;

fn push_u16(v: &mut Vec<u8>, x: u16) {
    v.extend_from_slice(&x.to_be_bytes());
}

fn push_u32(v: &mut Vec<u8>, x: u32) {
    v.extend_from_slice(&x.to_be_bytes());
}

/// One `MSND` resource, id 7, named "abc", with a 4-byte payload.
fn sample_archive() -> Vec<u8> {
    let mut v: Vec<u8> = Vec::new();
    v.extend_from_slice(b"MHWK");
    push_u32(&mut v, 74 - 8);
    v.extend_from_slice(b"RSRC");
    push_u16(&mut v, 0x0100); // version
    push_u16(&mut v, 0x0001); // compaction
    push_u32(&mut v, 74); // total file size
    push_u32(&mut v, 28); // resource directory offset
    push_u16(&mut v, 28); // file table offset in directory
    push_u16(&mut v, 14); // file table size
    // resource directory
    push_u16(&mut v, 24); // name list offset in directory
    push_u16(&mut v, 1); // type count
    v.extend_from_slice(b"MSND");
    push_u16(&mut v, 12); // resource table offset
    push_u16(&mut v, 18); // name table offset
    // resource table
    push_u16(&mut v, 1);
    push_u16(&mut v, 7); // resource id
    push_u16(&mut v, 1); // file id plus one
    // name table
    push_u16(&mut v, 1);
    push_u16(&mut v, 0); // offset in name list
    push_u16(&mut v, 7); // resource id
    // name list
    v.extend_from_slice(b"abc\0");
    // file table
    push_u32(&mut v, 1);
    push_u32(&mut v, 70); // payload offset
    v.push(0);
    v.push(0);
    v.push(4); // 24-bit size
    v.push(0x2A); // flag
    push_u16(&mut v, 0xBEEF); // unknown
    // payload
    v.extend_from_slice(&[0xDE, 0xAD, 0xBE, 0xEF]);
    assert_eq!(v.len(), 74);
    v
}

#[test]
fn parses_sample_archive() {
    let m = Mohawk::parse(sample_archive()).unwrap();
    assert_eq!(m.types.len(), 1);
    assert_eq!(m.types[0].0, TypeID::MSND);
    let resources = &m.types[0].1;
    assert_eq!(resources.len(), 1);
    let (id, resource) = &resources[0];
    assert_eq!(*id, 7);
    assert_eq!(resource.name, Some(String::from("abc")));
    assert_eq!(resource.file.size, 4);
    assert_eq!(resource.file.flag, 0x2A);
    assert_eq!(resource.file.unknown, 0xBEEF);
}

#[test]
fn resource_reader_yields_payload() {
    let m = Mohawk::parse(sample_archive()).unwrap();
    let resource = m.get(&TypeID::MSND, 7).unwrap();
    let mut r = resource.read();
    assert_eq!(r.remaining_len(), 4);
    assert_eq!(r.read_exact(4), Ok(vec![0xDE, 0xAD, 0xBE, 0xEF]));
    assert_eq!(r.read_u8(), Err(ReaderError::UnexpectedEof));
}

#[test]
fn lookup_misses_return_none() {
    let m = Mohawk::parse(sample_archive()).unwrap();
    assert!(m.get(&TypeID::MSND, 8).is_none());
    assert!(m.get(&TypeID::PICT, 7).is_none());
    assert!(m.get(&TypeID::Unknown(1, 2, 3, 4), 7).is_none());
    assert!(m.get_pict(7).is_none());
}

#[test]
fn rejects_bad_iff_signature() {
    let mut v = sample_archive();
    v[0] = b'X';
    assert_eq!(Mohawk::parse(v).unwrap_err(), Error::IFFSignature);
}

#[test]
fn rejects_bad_rsrc_signature() {
    let mut v = sample_archive();
    v[8] = b'X';
    assert_eq!(Mohawk::parse(v).unwrap_err(), Error::RSRCSignature);
}

#[test]
fn rejects_unsupported_version() {
    let mut v = sample_archive();
    v[12] = 0x02;
    assert_eq!(
        Mohawk::parse(v).unwrap_err(),
        Error::UnsupportedVersion(0x0200)
    );
}

#[test]
fn rejects_unsupported_compaction() {
    let mut v = sample_archive();
    v[15] = 0x02;
    assert_eq!(
        Mohawk::parse(v).unwrap_err(),
        Error::UnsupportedCompaction(0x0002)
    );
}

#[test]
fn rejects_uncoherent_file_size() {
    let mut v = sample_archive();
    v[19] = 73; // recorded size no longer matches the IFF header
    assert_eq!(Mohawk::parse(v).unwrap_err(), Error::UncoherentFileSize);
}

#[test]
fn rejects_too_big_file_table() {
    let mut v = sample_archive();
    // file entry count 0x0001_0000 does not fit a 16-bit file id
    v[56] = 0;
    v[57] = 1;
    v[58] = 0;
    v[59] = 0;
    assert_eq!(Mohawk::parse(v).unwrap_err(), Error::TooBigFileTable);
}

#[test]
fn rejects_uncoherent_file_table_size() {
    let mut v = sample_archive();
    v[27] = 15; // file table size contradicts one entry of ten bytes
    assert_eq!(
        Mohawk::parse(v).unwrap_err(),
        Error::UncoherentFileTableSize
    );
}

#[test]
fn rejects_unknown_file_id() {
    let mut v = sample_archive();
    v[45] = 2; // file id plus one points past the single file entry
    assert_eq!(Mohawk::parse(v).unwrap_err(), Error::UnknownFileID);
}

#[test]
fn rejects_zero_file_id() {
    let mut v = sample_archive();
    v[45] = 0; // a stored file id of zero never matches an entry
    assert_eq!(Mohawk::parse(v).unwrap_err(), Error::UnknownFileID);
}

#[test]
fn rejects_invalid_utf8_name() {
    let mut v = sample_archive();
    v[52] = 0xFF;
    v[53] = 0xFE;
    assert_eq!(
        Mohawk::parse(v).unwrap_err(),
        Error::Reader(ReaderError::InvalidUtf8)
    );
}

#[test]
fn decodes_multibyte_utf8_name() {
    let mut v = sample_archive();
    // name list becomes "é\0" followed by a stray zero byte
    v[52] = 0xC3;
    v[53] = 0xA9;
    v[54] = 0;
    v[55] = 0;
    let m = Mohawk::parse(v).unwrap();
    let resource = m.get(&TypeID::MSND, 7).unwrap();
    assert_eq!(resource.name, Some(String::from("é")));
}

#[test]
fn truncated_archive_is_eof() {
    // cut inside the file table: the headers still agree, the read fails
    let mut v = sample_archive();
    v.truncate(40);
    assert_eq!(
        Mohawk::parse(v).unwrap_err(),
        Error::Reader(ReaderError::UnexpectedEof)
    );
    // cut inside the IFF header itself
    let mut w = sample_archive();
    w.truncate(6);
    assert_eq!(
        Mohawk::parse(w).unwrap_err(),
        Error::Reader(ReaderError::UnexpectedEof)
    );
}

#[test]
fn rejects_shared_file_id() {
    // a second resource claiming the same file entry: the entry was
    // consumed by the first claim, so the file id is unknown
    let mut v = sample_archive();
    v[41] = 2; // resource count 2
    // splice a second entry (id 8, file id plus one 1) into the table
    let entry = [0u8, 8, 0, 1];
    for (k, b) in entry.iter().enumerate() {
        v.insert(46 + k, *b);
    }
    // shift the offsets that the extra four bytes displaced
    v[29] = 28; // name list offset
    v[39] = 22; // name table offset
    v[25] = 32; // file table offset in directory
    let total = v.len() as u32;
    v[4..8].copy_from_slice(&(total - 8).to_be_bytes());
    v[16..20].copy_from_slice(&total.to_be_bytes());
    // the payload moved by four bytes as well
    v[64..68].copy_from_slice(&74u32.to_be_bytes());
    assert_eq!(Mohawk::parse(v).unwrap_err(), Error::UnknownFileID);
}

#[test]
fn type_id_round_trips_through_tags() {
    assert_eq!(TypeID::from_tag(*b"PICT"), TypeID::PICT);
    assert_eq!(TypeID::from_tag(*b"MSND"), TypeID::MSND);
    assert_eq!(
        TypeID::from_tag(*b"tBMP"),
        TypeID::Unknown(b't', b'B', b'M', b'P')
    );
    assert_eq!(&TypeID::PICT.tag(), b"PICT");
    assert_eq!(&TypeID::MSND.tag(), b"MSND");
    assert_eq!(&TypeID::Unknown(b't', b'B', b'M', b'P').tag(), b"tBMP");
}
