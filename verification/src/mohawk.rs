//! Mohawk archive parsing.
//!
//! A Mohawk archive is an IFF container with an `RSRC` resource fork:
//! nested index tables (type table, per-type resource and name tables, a
//! file table and a name list) that map a `(TypeID, ResourceID)` pair to
//! a byte range of the archive.  The whole layout is specified here as
//! pure functions over the archive bytes; the executable parser is
//! proved to return exactly what those functions describe.

use vstd::prelude::*;
use crate::reader::MohawkReader;
use crate::reader::be16;
use crate::reader::be32;
use crate::reader::first_zero;
use crate::text::utf8_chars;
use crate::text::is_utf8;
use crate::pict::PICT;
use crate::pict::pict_matches;
use crate::pict::sp_pict;

verus! {

broadcast use crate::reader::lemma_reader_bounds;

/// Errors of the archive layer.
#[derive(Debug, Clone, Copy, PartialEq, Eq, Structural)]
pub enum Error {
    /// An underlying read failed (short read or bad UTF-8 in a name).
    Reader(crate::reader::Error),
    /// The file does not start with the `MHWK` magic.
    IFFSignature,
    /// The resource fork does not start with the `RSRC` magic.
    RSRCSignature,
    /// The archive version word is not the supported one.
    UnsupportedVersion(u16),
    /// The compaction word is not the supported one.
    UnsupportedCompaction(u16),
    /// The size recorded in the resource fork contradicts the IFF header.
    UncoherentFileSize,
    /// A resource refers to a file entry that does not exist or was
    /// already claimed by another resource.
    UnknownFileID,
    /// The file table claims more entries than a file id can address.
    TooBigFileTable,
    /// The file table size field contradicts the entry count.
    UncoherentFileTableSize,
    /// Decoding a PICT resource failed.
    PICT(crate::pict::Error),
}

/// Resource identifier, unique per type within one archive.
pub type ResourceID = u16;

/// The `MHWK` magic.
pub open spec fn mhwk_tag() -> Seq<u8> {
    seq![0x4Du8, 0x48u8, 0x57u8, 0x4Bu8]
}

/// The `RSRC` magic.
pub open spec fn rsrc_tag() -> Seq<u8> {
    seq![0x52u8, 0x53u8, 0x52u8, 0x43u8]
}

/// The `PICT` type tag.
pub open spec fn pict_tag() -> Seq<u8> {
    seq![0x50u8, 0x49u8, 0x43u8, 0x54u8]
}

/// The `MSND` type tag.
pub open spec fn msnd_tag() -> Seq<u8> {
    seq![0x4Du8, 0x53u8, 0x4Eu8, 0x44u8]
}

/// A resource type: a 4-byte ASCII tag, with the two tags this crate
/// knows how to interpret distinguished.
#[derive(Debug, Clone, Copy, PartialEq, Eq, Structural)]
pub enum TypeID {
    PICT,
    MSND,
    Unknown(u8, u8, u8, u8),
}

impl TypeID {
    /// The four raw tag bytes.
    pub open spec fn spec_tag(&self) -> Seq<u8> {
        match self {
            TypeID::PICT => pict_tag(),
            TypeID::MSND => msnd_tag(),
            TypeID::Unknown(a, b, c, d) => seq![*a, *b, *c, *d],
        }
    }
}

/// `t` is the `TypeID` for the raw tag bytes `tag`: known tags map to
/// their named variant, anything else stays raw.
pub open spec fn tag_matches(t: TypeID, tag: Seq<u8>) -> bool {
    &&& t.spec_tag() == tag
    &&& tag == pict_tag() ==> t is PICT
    &&& tag == msnd_tag() ==> t is MSND
}

impl TypeID {
    /// Classify four raw tag bytes.
    pub fn from_tag(tag: [u8; 4]) -> (r: TypeID)
        ensures
            tag_matches(r, tag@),
    {
        proof {
            assert(tag@.len() == 4);
        }
        if tag[0] == 0x50 && tag[1] == 0x49 && tag[2] == 0x43 && tag[3] == 0x54 {
            proof {
                assert(tag@ =~= pict_tag());
            }
            TypeID::PICT
        } else if tag[0] == 0x4D && tag[1] == 0x53 && tag[2] == 0x4E && tag[3] == 0x44 {
            proof {
                assert(tag@ =~= msnd_tag());
            }
            TypeID::MSND
        } else {
            let r = TypeID::Unknown(tag[0], tag[1], tag[2], tag[3]);
            proof {
                assert(r.spec_tag() =~= tag@);
                assert(tag@ != pict_tag());
                assert(tag@ != msnd_tag());
            }
            r
        }
    }

    /// The four raw tag bytes.
    pub fn tag(&self) -> (r: [u8; 4])
        ensures
            r@ == self.spec_tag(),
    {
        match self {
            TypeID::PICT => {
                let r: [u8; 4] = [0x50, 0x49, 0x43, 0x54];
                proof {
                    assert(r@ =~= pict_tag());
                }
                r
            },
            TypeID::MSND => {
                let r: [u8; 4] = [0x4D, 0x53, 0x4E, 0x44];
                proof {
                    assert(r@ =~= msnd_tag());
                }
                r
            },
            TypeID::Unknown(a, b, c, d) => {
                let r: [u8; 4] = [*a, *b, *c, *d];
                proof {
                    assert(r@ =~= self.spec_tag());
                }
                r
            },
        }
    }
}

/// An entry of the archive's file table: an absolute byte range plus two
/// opaque attributes.
#[derive(Debug, Clone, Copy, PartialEq, Eq, Structural)]
pub struct File {
    /// Absolute offset of the resource bytes in the archive.
    pub offset: u32,
    /// Length in bytes (a 24-bit value in the archive).
    pub size: u32,
    pub flag: u8,
    pub unknown: u16,
}

/// The fields of the `RSRC` header that the parser uses afterwards.
#[derive(Debug, Clone, Copy, PartialEq, Eq, Structural)]
pub struct RSRCHeader {
    pub resource_dir_offset: u32,
    pub file_table_offset: u16,
    pub file_table_size: u16,
}

/// An entry of the type table: where this type's resource table and name
/// table sit, relative to the resource directory.
#[derive(Debug, Clone, Copy, PartialEq, Eq, Structural)]
pub struct TypeTableEntry {
    pub resource_table_offset: u16,
    pub name_table_offset: u16,
}

/// Spec-level picture of one parsed resource: its id, the raw bytes of
/// its name (if a name table entry matched), and its file entry.
pub struct ResourceModel {
    pub id: u16,
    pub name_bytes: Option<Seq<u8>>,
    pub file: File,
}

/// Spec-level picture of one parsed type with its resources, in table
/// order.
pub struct TypeModel {
    pub tag: Seq<u8>,
    pub resources: Seq<ResourceModel>,
}

/// Spec-level picture of a parsed archive.
pub struct MohawkModel {
    pub types: Seq<TypeModel>,
}

/// Short alias used throughout the parsing specification.
pub open spec fn eof_err<T>() -> Result<T, Error> {
    Err(Error::Reader(crate::reader::Error::UnexpectedEof))
}

/// Parse the IFF header at offset 0: the `MHWK` magic and the file size
/// less eight.  Returns the total file size.
pub open spec fn sp_iff(s: Seq<u8>) -> Result<u64, Error> {
    if s.len() < 4 {
        eof_err()
    } else if s.subrange(0, 4) != mhwk_tag() {
        Err(Error::IFFSignature)
    } else if s.len() < 8 {
        eof_err()
    } else {
        Ok((be32(s, 4) + 8) as u64)
    }
}

/// Parse the `RSRC` header at offset 8 and validate it against the total
/// file size from the IFF header.
pub open spec fn sp_rsrc(s: Seq<u8>, total: u64) -> Result<RSRCHeader, Error> {
    if s.len() < 12 {
        eof_err()
    } else if s.subrange(8, 12) != rsrc_tag() {
        Err(Error::RSRCSignature)
    } else if s.len() < 14 {
        eof_err()
    } else if be16(s, 12) != 0x100 {
        Err(Error::UnsupportedVersion(be16(s, 12)))
    } else if s.len() < 16 {
        eof_err()
    } else if be16(s, 14) != 0x1 {
        Err(Error::UnsupportedCompaction(be16(s, 14)))
    } else if s.len() < 20 {
        eof_err()
    } else if be32(s, 16) != total {
        Err(Error::UncoherentFileSize)
    } else if s.len() < 28 {
        eof_err()
    } else {
        Ok(RSRCHeader {
            resource_dir_offset: be32(s, 20),
            file_table_offset: be16(s, 24),
            file_table_size: be16(s, 26),
        })
    }
}

/// Parse `n` type table entries at `pos`: tag, resource table offset,
/// name table offset, eight bytes each.
pub open spec fn sp_type_entries(s: Seq<u8>, pos: int, n: int) -> Result<
    Seq<(Seq<u8>, TypeTableEntry)>,
    Error,
>
    decreases n,
{
    if n <= 0 {
        Ok(Seq::empty())
    } else if pos < 0 || pos + 8 > s.len() {
        eof_err()
    } else {
        match sp_type_entries(s, pos + 8, n - 1) {
            Err(e) => Err(e),
            Ok(rest) => Ok(
                seq![
                    (s.subrange(pos, pos + 4), TypeTableEntry {
                        resource_table_offset: be16(s, pos + 4),
                        name_table_offset: be16(s, pos + 6),
                    })
                ] + rest,
            ),
        }
    }
}

/// Parse `n` file table entries at `pos`: offset, 24-bit big-endian
/// size, flag, unknown, ten bytes each.
pub open spec fn sp_file_entries(s: Seq<u8>, pos: int, n: int) -> Result<Seq<File>, Error>
    decreases n,
{
    if n <= 0 {
        Ok(Seq::empty())
    } else if pos < 0 || pos + 10 > s.len() {
        eof_err()
    } else {
        match sp_file_entries(s, pos + 10, n - 1) {
            Err(e) => Err(e),
            Ok(rest) => Ok(
                seq![
                    File {
                        offset: be32(s, pos),
                        size: (s[pos + 4] * 0x10000 + s[pos + 5] * 0x100 + s[pos + 6]) as u32,
                        flag: s[pos + 7],
                        unknown: be16(s, pos + 8),
                    }
                ] + rest,
            ),
        }
    }
}

/// Parse `n` resource table entries at `pos`: resource id and file id
/// plus one, four bytes each.
pub open spec fn sp_res_entries(s: Seq<u8>, pos: int, n: int) -> Result<Seq<(u16, u16)>, Error>
    decreases n,
{
    if n <= 0 {
        Ok(Seq::empty())
    } else if pos < 0 || pos + 4 > s.len() {
        eof_err()
    } else {
        match sp_res_entries(s, pos + 4, n - 1) {
            Err(e) => Err(e),
            Ok(rest) => Ok(seq![(be16(s, pos), be16(s, pos + 2))] + rest),
        }
    }
}

/// Parse `n` name table entries at `pos`: name list offset then resource
/// id, four bytes each; returned as `(resource id, name offset)`.
pub open spec fn sp_name_entries(s: Seq<u8>, pos: int, n: int) -> Result<Seq<(u16, u16)>, Error>
    decreases n,
{
    if n <= 0 {
        Ok(Seq::empty())
    } else if pos < 0 || pos + 4 > s.len() {
        eof_err()
    } else {
        match sp_name_entries(s, pos + 4, n - 1) {
            Err(e) => Err(e),
            Ok(rest) => Ok(seq![(be16(s, pos + 2), be16(s, pos))] + rest),
        }
    }
}

/// Read the null-terminated name bytes for every name table entry,
/// from the name list based at `base`.  Every name must be valid UTF-8.
pub open spec fn sp_names(s: Seq<u8>, base: int, entries: Seq<(u16, u16)>) -> Result<
    Seq<(u16, Seq<u8>)>,
    Error,
>
    decreases entries.len(),
{
    if entries.len() == 0 {
        Ok(Seq::empty())
    } else {
        let start = base + entries[0].1;
        match first_zero(s, start, s.len() as int) {
            None => eof_err(),
            Some(k) => {
                if !is_utf8(s.subrange(start, k)) {
                    Err(Error::Reader(crate::reader::Error::InvalidUtf8))
                } else {
                    match sp_names(s, base, entries.drop_first()) {
                        Err(e) => Err(e),
                        Ok(rest) => Ok(seq![(entries[0].0, s.subrange(start, k))] + rest),
                    }
                }
            },
        }
    }
}

/// The name bytes of the first name table entry for `rid`, if any.
pub open spec fn sp_lookup_name(names: Seq<(u16, Seq<u8>)>, rid: u16) -> Option<Seq<u8>>
    decreases names.len(),
{
    if names.len() == 0 {
        None
    } else if names[0].0 == rid {
        Some(names[0].1)
    } else {
        sp_lookup_name(names.drop_first(), rid)
    }
}

/// Join resource table entries with the file table, consuming each file
/// entry as it is claimed: a stored file id of zero, out of range, or
/// already claimed is `UnknownFileID`.
pub open spec fn sp_join(
    entries: Seq<(u16, u16)>,
    names: Seq<(u16, Seq<u8>)>,
    files: Seq<Option<File>>,
) -> Result<(Seq<ResourceModel>, Seq<Option<File>>), Error>
    decreases entries.len(),
{
    if entries.len() == 0 {
        Ok((Seq::empty(), files))
    } else {
        let rid = entries[0].0;
        let fid1 = entries[0].1;
        if fid1 == 0 || fid1 > files.len() {
            Err(Error::UnknownFileID)
        } else {
            match files[fid1 - 1] {
                None => Err(Error::UnknownFileID),
                Some(f) => match sp_join(entries.drop_first(), names, files.update(fid1 - 1, None)) {
                    Err(e) => Err(e),
                    Ok((rest, files2)) => Ok(
                        (
                            seq![
                                ResourceModel {
                                    id: rid,
                                    name_bytes: sp_lookup_name(names, rid),
                                    file: f,
                                }
                            ] + rest,
                            files2,
                        ),
                    ),
                },
            }
        }
    }
}

/// Parse one type's resource table, name table and names, and join them
/// with the file table.
pub open spec fn sp_type_resources(
    s: Seq<u8>,
    dir: int,
    name_list_offset: u16,
    entry: TypeTableEntry,
    files: Seq<Option<File>>,
) -> Result<(Seq<ResourceModel>, Seq<Option<File>>), Error> {
    let rt = dir + entry.resource_table_offset;
    if rt + 2 > s.len() {
        eof_err()
    } else {
        match sp_res_entries(s, rt + 2, be16(s, rt) as int) {
            Err(e) => Err(e),
            Ok(entries) => {
                let nt = dir + entry.name_table_offset;
                if nt + 2 > s.len() {
                    eof_err()
                } else {
                    match sp_name_entries(s, nt + 2, be16(s, nt) as int) {
                        Err(e) => Err(e),
                        Ok(nentries) => match sp_names(s, dir + name_list_offset, nentries) {
                            Err(e) => Err(e),
                            Ok(names) => sp_join(entries, names, files),
                        },
                    }
                }
            },
        }
    }
}

/// Parse every type's resources in type table order, threading the file
/// table through so that each file entry is claimed at most once.
pub open spec fn sp_all_types(
    s: Seq<u8>,
    dir: int,
    name_list_offset: u16,
    tts: Seq<(Seq<u8>, TypeTableEntry)>,
    files: Seq<Option<File>>,
) -> Result<(Seq<TypeModel>, Seq<Option<File>>), Error>
    decreases tts.len(),
{
    if tts.len() == 0 {
        Ok((Seq::empty(), files))
    } else {
        match sp_type_resources(s, dir, name_list_offset, tts[0].1, files) {
            Err(e) => Err(e),
            Ok((resources, files2)) => match sp_all_types(
                s,
                dir,
                name_list_offset,
                tts.drop_first(),
                files2,
            ) {
                Err(e) => Err(e),
                Ok((rest, files3)) => Ok(
                    (seq![TypeModel { tag: tts[0].0, resources }] + rest, files3),
                ),
            },
        }
    }
}

/// Parse a whole archive: IFF header, `RSRC` header, type table, file
/// table, then every type's tables, names and joined resources.
pub open spec fn sp_mohawk(s: Seq<u8>) -> Result<MohawkModel, Error> {
    match sp_iff(s) {
        Err(e) => Err(e),
        Ok(total) => match sp_rsrc(s, total) {
            Err(e) => Err(e),
            Ok(hdr) => {
                let dir = hdr.resource_dir_offset as int;
                if dir + 2 > s.len() {
                    eof_err()
                } else {
                    let name_list_offset = be16(s, dir);
                    if dir + 4 > s.len() {
                        eof_err()
                    } else {
                        match sp_type_entries(s, dir + 4, be16(s, dir + 2) as int) {
                            Err(e) => Err(e),
                            Ok(tts) => {
                                let ft = dir + hdr.file_table_offset;
                                if ft + 4 > s.len() {
                                    eof_err()
                                } else {
                                    let fcount = be32(s, ft) as int;
                                    if fcount > 0xFFFF {
                                        Err(Error::TooBigFileTable)
                                    } else if 4 + fcount * 10 != hdr.file_table_size {
                                        Err(Error::UncoherentFileTableSize)
                                    } else {
                                        match sp_file_entries(s, ft + 4, fcount) {
                                            Err(e) => Err(e),
                                            Ok(files) => {
                                                match sp_all_types(
                                                    s,
                                                    dir,
                                                    name_list_offset,
                                                    tts,
                                                    files.map(|i: int, f: File| Some(f)),
                                                ) {
                                                    Err(e) => Err(e),
                                                    Ok((types, unused)) => Ok(
                                                        MohawkModel { types },
                                                    ),
                                                }
                                            },
                                        }
                                    }
                                }
                            },
                        }
                    }
                }
            },
        },
    }
}

/// A reader that ranges over the whole archive.
pub open spec fn root_reader(r: &MohawkReader) -> bool {
    &&& r.wf()
    &&& r.end() == r.bytes().len()
}

/// Compare a 4-byte tag against the given bytes.
fn tag_is(t: &[u8; 4], a: u8, b: u8, c: u8, d: u8) -> (r: bool)
    ensures
        r == (t@ == seq![a, b, c, d]),
{
    let eq: bool = t[0] == a && t[1] == b && t[2] == c && t[3] == d;
    proof {
        if eq {
            assert(t@ =~= seq![a, b, c, d]);
        } else {
            if t@ == seq![a, b, c, d] {
                assert(t@[0] == a && t@[1] == b && t@[2] == c && t@[3] == d);
            }
        }
    }
    eq
}

/// Parse the IFF header and return the total file size.
fn parse_iff_header(r: &mut MohawkReader) -> (res: Result<u64, Error>)
    requires
        old(r).wf(),
        root_reader(old(r)),
        old(r).pos() == 0,
    ensures
        final(r).wf(),
        final(r).bytes() == old(r).bytes(),
        final(r).end() == old(r).end(),
        match sp_iff(old(r).bytes()) {
            Ok(total) => res == Result::<u64, Error>::Ok(total) && final(r).pos() == 8,
            Err(e) => res == Result::<u64, Error>::Err(e),
        },
{
    let tag: [u8; 4] = match r.read_4_bytes() {
        Ok(t) => t,
        Err(e) => {
            return Err(Error::Reader(e));
        },
    };
    if !tag_is(&tag, 0x4D, 0x48, 0x57, 0x4B) {
        return Err(Error::IFFSignature);
    }
    let size: u32 = match r.read_u32() {
        Ok(v) => v,
        Err(e) => {
            return Err(Error::Reader(e));
        },
    };
    Ok(size as u64 + 8)
}

/// Parse the `RSRC` header, validating magic, version, compaction and
/// the recorded file size.
fn parse_rsrc_header(r: &mut MohawkReader, total: u64) -> (res: Result<RSRCHeader, Error>)
    requires
        old(r).wf(),
        root_reader(old(r)),
        old(r).pos() == 8,
    ensures
        final(r).wf(),
        final(r).bytes() == old(r).bytes(),
        final(r).end() == old(r).end(),
        match sp_rsrc(old(r).bytes(), total) {
            Ok(hdr) => res == Result::<RSRCHeader, Error>::Ok(hdr) && final(r).pos() == 28,
            Err(e) => res == Result::<RSRCHeader, Error>::Err(e),
        },
{
    let tag: [u8; 4] = match r.read_4_bytes() {
        Ok(t) => t,
        Err(e) => {
            return Err(Error::Reader(e));
        },
    };
    if !tag_is(&tag, 0x52, 0x53, 0x52, 0x43) {
        return Err(Error::RSRCSignature);
    }
    let version: u16 = match r.read_u16() {
        Ok(v) => v,
        Err(e) => {
            return Err(Error::Reader(e));
        },
    };
    if version != 0x100 {
        return Err(Error::UnsupportedVersion(version));
    }
    let compaction: u16 = match r.read_u16() {
        Ok(v) => v,
        Err(e) => {
            return Err(Error::Reader(e));
        },
    };
    if compaction != 0x1 {
        return Err(Error::UnsupportedCompaction(compaction));
    }
    let recorded: u32 = match r.read_u32() {
        Ok(v) => v,
        Err(e) => {
            return Err(Error::Reader(e));
        },
    };
    if recorded as u64 != total {
        return Err(Error::UncoherentFileSize);
    }
    let resource_dir_offset: u32 = match r.read_u32() {
        Ok(v) => v,
        Err(e) => {
            return Err(Error::Reader(e));
        },
    };
    let file_table_offset: u16 = match r.read_u16() {
        Ok(v) => v,
        Err(e) => {
            return Err(Error::Reader(e));
        },
    };
    let file_table_size: u16 = match r.read_u16() {
        Ok(v) => v,
        Err(e) => {
            return Err(Error::Reader(e));
        },
    };
    Ok(RSRCHeader { resource_dir_offset, file_table_offset, file_table_size })
}

/// A parsed type table whose tags have been classified.
pub open spec fn type_entries_match(
    v: Seq<(TypeID, TypeTableEntry)>,
    m: Seq<(Seq<u8>, TypeTableEntry)>,
) -> bool {
    &&& v.len() == m.len()
    &&& forall|k: int| 0 <= k < v.len() ==> tag_matches((#[trigger] v[k]).0, m[k].0) && v[k].1
        == m[k].1
}

/// A successful type table parse yields one entry per count.
proof fn lemma_sp_type_entries_len(s: Seq<u8>, pos: int, n: int)
    requires
        n >= 0,
    ensures
        sp_type_entries(s, pos, n) matches Ok(m) ==> m.len() == n,
    decreases n,
{
    if n > 0 {
        lemma_sp_type_entries_len(s, pos + 8, n - 1);
    }
}

/// A successful file table parse yields one entry per count.
proof fn lemma_sp_file_entries_len(s: Seq<u8>, pos: int, n: int)
    requires
        n >= 0,
    ensures
        sp_file_entries(s, pos, n) matches Ok(m) ==> m.len() == n,
    decreases n,
{
    if n > 0 {
        lemma_sp_file_entries_len(s, pos + 10, n - 1);
    }
}

/// A successful resource table parse yields one entry per count.
proof fn lemma_sp_res_entries_len(s: Seq<u8>, pos: int, n: int)
    requires
        n >= 0,
    ensures
        sp_res_entries(s, pos, n) matches Ok(m) ==> m.len() == n,
    decreases n,
{
    if n > 0 {
        lemma_sp_res_entries_len(s, pos + 4, n - 1);
    }
}

/// A successful name table parse yields one entry per count.
proof fn lemma_sp_name_entries_len(s: Seq<u8>, pos: int, n: int)
    requires
        n >= 0,
    ensures
        sp_name_entries(s, pos, n) matches Ok(m) ==> m.len() == n,
    decreases n,
{
    if n > 0 {
        lemma_sp_name_entries_len(s, pos + 4, n - 1);
    }
}

/// Parse `n` type table entries.
fn parse_type_entries(r: &mut MohawkReader, n: u16) -> (res: Result<
    Vec<(TypeID, TypeTableEntry)>,
    Error,
>)
    requires
        root_reader(old(r)),
    ensures
        final(r).wf(),
        final(r).bytes() == old(r).bytes(),
        final(r).end() == old(r).end(),
        match sp_type_entries(old(r).bytes(), old(r).pos(), n as int) {
            Ok(m) => res matches Ok(v) && type_entries_match(v@, m) && final(r).pos() == old(
                r,
            ).pos() + 8 * (n as int),
            Err(e) => res matches Err(e2) && e2 == e,
        },
{
    let ghost s = r.bytes();
    let ghost pos0 = r.pos();
    proof {
        lemma_sp_type_entries_len(s, pos0, n as int);
    }
    let mut out: Vec<(TypeID, TypeTableEntry)> = Vec::new();
    let mut i: u16 = 0;
    while i < n
        invariant
            i <= n,
            root_reader(r),
            r.bytes() == s,
            r.end() == old(r).end(),
            r.pos() == pos0 + 8 * (i as int),
            out@.len() == i as int,
            match sp_type_entries(s, r.pos(), (n - i) as int) {
                Ok(rest) => sp_type_entries(s, pos0, n as int) matches Ok(all) && all.len() == n
                    && type_entries_match(out@, all.take(i as int)) && rest == all.skip(i as int),
                Err(e) => sp_type_entries(s, pos0, n as int) == Err::<
                    Seq<(Seq<u8>, TypeTableEntry)>,
                    Error,
                >(e),
            },
        decreases n - i,
    {
        let tag: [u8; 4] = match r.read_4_bytes() {
            Ok(t) => t,
            Err(e) => {
                return Err(Error::Reader(e));
            },
        };
        let rto: u16 = match r.read_u16() {
            Ok(v) => v,
            Err(e) => {
                return Err(Error::Reader(e));
            },
        };
        let nto: u16 = match r.read_u16() {
            Ok(v) => v,
            Err(e) => {
                return Err(Error::Reader(e));
            },
        };
        let tid: TypeID = TypeID::from_tag(tag);
        out.push((tid, TypeTableEntry { resource_table_offset: rto, name_table_offset: nto }));
        proof {
            let cur = pos0 + 8 * (i as int);
            if sp_type_entries(s, cur, (n - i) as int) is Ok {
                let rest = sp_type_entries(s, cur, (n - i) as int).unwrap();
                let all = sp_type_entries(s, pos0, n as int).unwrap();
                assert(rest[0] == (s.subrange(cur, cur + 4), TypeTableEntry {
                    resource_table_offset: be16(s, cur + 4),
                    name_table_offset: be16(s, cur + 6),
                }));
                assert(all.skip(i as int)[0] == all[i as int]);
                assert(rest.drop_first() =~= all.skip(i as int).drop_first());
                assert(all.skip(i as int).drop_first() =~= all.skip(i + 1));
                assert(all.take(i + 1) =~= all.take(i as int).push(all[i as int]));
                assert(type_entries_match(out@, all.take(i + 1)));
            }
        }
        i = i + 1;
    }
    proof {
        assert(sp_type_entries(s, r.pos(), 0) == Ok::<Seq<(Seq<u8>, TypeTableEntry)>, Error>(
            Seq::empty(),
        ));
        match sp_type_entries(s, pos0, n as int) {
            Ok(all) => {
                assert(all.take(n as int) =~= all);
            },
            Err(e) => {
            },
        }
    }
    Ok(out)
}

/// Parse `n` file table entries.
fn parse_file_entries(r: &mut MohawkReader, n: u32) -> (res: Result<Vec<File>, Error>)
    requires
        root_reader(old(r)),
        n <= 0xFFFF,
    ensures
        final(r).wf(),
        final(r).bytes() == old(r).bytes(),
        final(r).end() == old(r).end(),
        match sp_file_entries(old(r).bytes(), old(r).pos(), n as int) {
            Ok(m) => res matches Ok(v) && v@ == m && final(r).pos() == old(r).pos() + 10 * (
            n as int),
            Err(e) => res matches Err(e2) && e2 == e,
        },
{
    let ghost s = r.bytes();
    let ghost pos0 = r.pos();
    proof {
        lemma_sp_file_entries_len(s, pos0, n as int);
    }
    let mut out: Vec<File> = Vec::new();
    let mut i: u32 = 0;
    while i < n
        invariant
            i <= n,
            root_reader(r),
            r.bytes() == s,
            r.end() == old(r).end(),
            r.pos() == pos0 + 10 * (i as int),
            out@.len() == i as int,
            match sp_file_entries(s, r.pos(), (n - i) as int) {
                Ok(rest) => sp_file_entries(s, pos0, n as int) matches Ok(all) && all.len() == n
                    && out@ == all.take(i as int) && rest == all.skip(i as int),
                Err(e) => sp_file_entries(s, pos0, n as int) == Err::<Seq<File>, Error>(e),
            },
        decreases n - i,
    {
        let offset: u32 = match r.read_u32() {
            Ok(v) => v,
            Err(e) => {
                return Err(Error::Reader(e));
            },
        };
        let hi: u8 = match r.read_u8() {
            Ok(v) => v,
            Err(e) => {
                return Err(Error::Reader(e));
            },
        };
        let mid: u8 = match r.read_u8() {
            Ok(v) => v,
            Err(e) => {
                return Err(Error::Reader(e));
            },
        };
        let lo: u8 = match r.read_u8() {
            Ok(v) => v,
            Err(e) => {
                return Err(Error::Reader(e));
            },
        };
        let flag: u8 = match r.read_u8() {
            Ok(v) => v,
            Err(e) => {
                return Err(Error::Reader(e));
            },
        };
        let unknown: u16 = match r.read_u16() {
            Ok(v) => v,
            Err(e) => {
                return Err(Error::Reader(e));
            },
        };
        let size: u32 = (hi as u32) * 0x10000 + (mid as u32) * 0x100 + (lo as u32);
        out.push(File { offset, size, flag, unknown });
        proof {
            let cur = pos0 + 10 * (i as int);
            if sp_file_entries(s, cur, (n - i) as int) is Ok {
                let rest = sp_file_entries(s, cur, (n - i) as int).unwrap();
                let all = sp_file_entries(s, pos0, n as int).unwrap();
                assert(all.skip(i as int)[0] == all[i as int]);
                assert(rest.drop_first() =~= all.skip(i as int).drop_first());
                assert(all.skip(i as int).drop_first() =~= all.skip(i + 1));
                assert(out@ =~= all.take(i + 1));
            }
        }
        i = i + 1;
    }
    proof {
        match sp_file_entries(s, pos0, n as int) {
            Ok(all) => {
                assert(all.take(n as int) =~= all);
            },
            Err(e) => {
            },
        }
    }
    Ok(out)
}

/// Parse `n` resource table entries: `(resource id, file id plus one)`.
fn parse_res_entries(r: &mut MohawkReader, n: u16) -> (res: Result<Vec<(u16, u16)>, Error>)
    requires
        root_reader(old(r)),
    ensures
        final(r).wf(),
        final(r).bytes() == old(r).bytes(),
        final(r).end() == old(r).end(),
        match sp_res_entries(old(r).bytes(), old(r).pos(), n as int) {
            Ok(m) => res matches Ok(v) && v@ == m && final(r).pos() == old(r).pos() + 4 * (
            n as int),
            Err(e) => res matches Err(e2) && e2 == e,
        },
{
    let ghost s = r.bytes();
    let ghost pos0 = r.pos();
    proof {
        lemma_sp_res_entries_len(s, pos0, n as int);
    }
    let mut out: Vec<(u16, u16)> = Vec::new();
    let mut i: u16 = 0;
    while i < n
        invariant
            i <= n,
            root_reader(r),
            r.bytes() == s,
            r.end() == old(r).end(),
            r.pos() == pos0 + 4 * (i as int),
            out@.len() == i as int,
            match sp_res_entries(s, r.pos(), (n - i) as int) {
                Ok(rest) => sp_res_entries(s, pos0, n as int) matches Ok(all) && all.len() == n
                    && out@ == all.take(i as int) && rest == all.skip(i as int),
                Err(e) => sp_res_entries(s, pos0, n as int) == Err::<Seq<(u16, u16)>, Error>(e),
            },
        decreases n - i,
    {
        let rid: u16 = match r.read_u16() {
            Ok(v) => v,
            Err(e) => {
                return Err(Error::Reader(e));
            },
        };
        let fid1: u16 = match r.read_u16() {
            Ok(v) => v,
            Err(e) => {
                return Err(Error::Reader(e));
            },
        };
        out.push((rid, fid1));
        proof {
            let cur = pos0 + 4 * (i as int);
            if sp_res_entries(s, cur, (n - i) as int) is Ok {
                let all = sp_res_entries(s, pos0, n as int).unwrap();
                assert(all.skip(i as int)[0] == all[i as int]);
                assert(sp_res_entries(s, cur, (n - i) as int).unwrap().drop_first() =~= all.skip(
                    i as int).drop_first());
                assert(all.skip(i as int).drop_first() =~= all.skip(i + 1));
                assert(out@ =~= all.take(i + 1));
            }
        }
        i = i + 1;
    }
    proof {
        match sp_res_entries(s, pos0, n as int) {
            Ok(all) => {
                assert(all.take(n as int) =~= all);
            },
            Err(e) => {
            },
        }
    }
    Ok(out)
}

/// Parse `n` name table entries: `(resource id, name list offset)`.
fn parse_name_entries(r: &mut MohawkReader, n: u16) -> (res: Result<Vec<(u16, u16)>, Error>)
    requires
        root_reader(old(r)),
    ensures
        final(r).wf(),
        final(r).bytes() == old(r).bytes(),
        final(r).end() == old(r).end(),
        match sp_name_entries(old(r).bytes(), old(r).pos(), n as int) {
            Ok(m) => res matches Ok(v) && v@ == m && final(r).pos() == old(r).pos() + 4 * (
            n as int),
            Err(e) => res matches Err(e2) && e2 == e,
        },
{
    let ghost s = r.bytes();
    let ghost pos0 = r.pos();
    proof {
        lemma_sp_name_entries_len(s, pos0, n as int);
    }
    let mut out: Vec<(u16, u16)> = Vec::new();
    let mut i: u16 = 0;
    while i < n
        invariant
            i <= n,
            root_reader(r),
            r.bytes() == s,
            r.end() == old(r).end(),
            r.pos() == pos0 + 4 * (i as int),
            out@.len() == i as int,
            match sp_name_entries(s, r.pos(), (n - i) as int) {
                Ok(rest) => sp_name_entries(s, pos0, n as int) matches Ok(all) && all.len() == n
                    && out@ == all.take(i as int) && rest == all.skip(i as int),
                Err(e) => sp_name_entries(s, pos0, n as int) == Err::<Seq<(u16, u16)>, Error>(e),
            },
        decreases n - i,
    {
        let off: u16 = match r.read_u16() {
            Ok(v) => v,
            Err(e) => {
                return Err(Error::Reader(e));
            },
        };
        let rid: u16 = match r.read_u16() {
            Ok(v) => v,
            Err(e) => {
                return Err(Error::Reader(e));
            },
        };
        out.push((rid, off));
        proof {
            let cur = pos0 + 4 * (i as int);
            if sp_name_entries(s, cur, (n - i) as int) is Ok {
                let all = sp_name_entries(s, pos0, n as int).unwrap();
                assert(all.skip(i as int)[0] == all[i as int]);
                assert(sp_name_entries(s, cur, (n - i) as int).unwrap().drop_first() =~= all.skip(
                    i as int).drop_first());
                assert(all.skip(i as int).drop_first() =~= all.skip(i + 1));
                assert(out@ =~= all.take(i + 1));
            }
        }
        i = i + 1;
    }
    proof {
        match sp_name_entries(s, pos0, n as int) {
            Ok(all) => {
                assert(all.take(n as int) =~= all);
            },
            Err(e) => {
            },
        }
    }
    Ok(out)
}

/// A successful name read yields one name per entry.
proof fn lemma_sp_names_len(s: Seq<u8>, base: int, entries: Seq<(u16, u16)>)
    ensures
        sp_names(s, base, entries) matches Ok(m) ==> m.len() == entries.len(),
    decreases entries.len(),
{
    if entries.len() > 0 {
        lemma_sp_names_len(s, base, entries.drop_first());
    }
}

/// A successful join yields one resource per table entry.
proof fn lemma_sp_join_len(
    entries: Seq<(u16, u16)>,
    names: Seq<(u16, Seq<u8>)>,
    files: Seq<Option<File>>,
)
    ensures
        sp_join(entries, names, files) matches Ok(p) ==> p.0.len() == entries.len(),
    decreases entries.len(),
{
    if entries.len() > 0 {
        let fid1 = entries[0].1;
        if 1 <= fid1 <= files.len() {
            lemma_sp_join_len(entries.drop_first(), names, files.update(fid1 - 1, None));
        }
    }
}

/// Decoded names beside their spec-level raw bytes.
pub open spec fn names_match(v: Seq<(u16, String)>, m: Seq<(u16, Seq<u8>)>) -> bool {
    &&& v.len() == m.len()
    &&& forall|k: int| 0 <= k < v.len() ==> (#[trigger] v[k]).0 == m[k].0 && v[k].1@ == utf8_chars(
        m[k].1,
    )
}

/// Read the name list string for every name table entry.
fn read_names(r: &mut MohawkReader, base: u64, entries: &Vec<(u16, u16)>) -> (res: Result<
    Vec<(u16, String)>,
    Error,
>)
    requires
        root_reader(old(r)),
        base < 0x2_0000_0000,
    ensures
        final(r).wf(),
        final(r).bytes() == old(r).bytes(),
        final(r).end() == old(r).end(),
        match sp_names(old(r).bytes(), base as int, entries@) {
            Ok(m) => res matches Ok(v) && names_match(v@, m),
            Err(e) => res matches Err(e2) && e2 == e,
        },
{
    let ghost s = r.bytes();
    proof {
        lemma_sp_names_len(s, base as int, entries@);
    }
    let mut out: Vec<(u16, String)> = Vec::new();
    let n: usize = entries.len();
    let mut i: usize = 0;
    proof {
        assert(entries@.skip(0) =~= entries@);
    }
    while i < n
        invariant
            i <= n,
            n == entries@.len(),
            root_reader(r),
            r.bytes() == s,
            r.end() == old(r).end(),
            out@.len() == i as int,
            match sp_names(s, base as int, entries@.skip(i as int)) {
                Ok(rest) => sp_names(s, base as int, entries@) matches Ok(all) && all.len()
                    == entries@.len() && names_match(out@, all.take(i as int)) && rest == all.skip(
                    i as int,
                ),
                Err(e) => sp_names(s, base as int, entries@) == Err::<Seq<(u16, Seq<u8>)>, Error>(
                    e,
                ),
            },
        decreases n - i,
    {
        let rid: u16 = entries[i].0;
        let off: u16 = entries[i].1;
        proof {
            assert(entries@.skip(i as int)[0] == entries@[i as int]);
        }
        r.seek_to(base + off as u64);
        let name: String = match r.read_string() {
            Ok(st) => st,
            Err(crate::reader::Error::UnexpectedEof) => {
                return Err(Error::Reader(crate::reader::Error::UnexpectedEof));
            },
            Err(crate::reader::Error::InvalidUtf8) => {
                return Err(Error::Reader(crate::reader::Error::InvalidUtf8));
            },
        };
        out.push((rid, name));
        proof {
            if sp_names(s, base as int, entries@.skip(i as int)) is Ok {
                let rest = sp_names(s, base as int, entries@.skip(i as int)).unwrap();
                let all = sp_names(s, base as int, entries@).unwrap();
                assert(all.skip(i as int)[0] == all[i as int]);
                assert(entries@.skip(i as int).drop_first() =~= entries@.skip(i + 1));
                assert(rest.drop_first() =~= all.skip(i as int).drop_first());
                assert(all.skip(i as int).drop_first() =~= all.skip(i + 1));
                assert(all.take(i + 1) =~= all.take(i as int).push(all[i as int]));
                assert(names_match(out@, all.take(i + 1)));
            } else {
                assert(entries@.skip(i as int).drop_first() =~= entries@.skip(i + 1));
            }
        }
        i = i + 1;
    }
    proof {
        assert(entries@.skip(n as int) =~= Seq::<(u16, u16)>::empty());
        match sp_names(s, base as int, entries@) {
            Ok(all) => {
                assert(all.take(n as int) =~= all);
            },
            Err(e) => {
            },
        }
    }
    Ok(out)
}

/// Skipping entries that do not match leaves the lookup unchanged.
proof fn lemma_sp_lookup_advance(m: Seq<(u16, Seq<u8>)>, rid: u16, k: int)
    requires
        0 <= k <= m.len(),
        forall|j: int| 0 <= j < k ==> (#[trigger] m[j]).0 != rid,
    ensures
        sp_lookup_name(m, rid) == sp_lookup_name(m.skip(k), rid),
    decreases k,
{
    if k > 0 {
        assert(m[0].0 != rid);
        assert forall|j: int| 0 <= j < k - 1 implies (#[trigger] m.drop_first()[j]).0 != rid by {
            assert(m.drop_first()[j] == m[j + 1]);
        }
        lemma_sp_lookup_advance(m.drop_first(), rid, k - 1);
        assert(m.drop_first().skip(k - 1) =~= m.skip(k));
    } else {
        assert(m.skip(0) =~= m);
    }
}

/// First name table entry for `rid`, decoded.
fn lookup_name(names: &Vec<(u16, String)>, rid: u16, Ghost(m): Ghost<Seq<(u16, Seq<u8>)>>) -> (r:
    Option<String>)
    requires
        names_match(names@, m),
    ensures
        match sp_lookup_name(m, rid) {
            None => r is None,
            Some(bs) => r matches Some(st) && st@ == utf8_chars(bs),
        },
{
    let n: usize = names.len();
    let mut k: usize = 0;
    while k < n && names[k].0 != rid
        invariant
            k <= n,
            n == names@.len(),
            names_match(names@, m),
            forall|j: int| 0 <= j < k ==> (#[trigger] names@[j]).0 != rid,
        decreases n - k,
    {
        k = k + 1;
    }
    proof {
        assert forall|j: int| 0 <= j < k implies (#[trigger] m[j]).0 != rid by {
            assert(names@[j].0 == m[j].0);
        }
        lemma_sp_lookup_advance(m, rid, k as int);
    }
    if k < n {
        proof {
            assert(m.skip(k as int)[0] == m[k as int]);
        }
        Some(names[k].1.clone())
    } else {
        proof {
            assert(m.skip(k as int) =~= Seq::<(u16, Seq<u8>)>::empty());
        }
        None
    }
}

/// A joined resource triple beside its spec-level picture.
pub open spec fn res_triple_match(x: (u16, Option<String>, File), rm: ResourceModel) -> bool {
    &&& x.0 == rm.id
    &&& x.2 == rm.file
    &&& match rm.name_bytes {
        None => x.1 is None,
        Some(bs) => x.1 matches Some(st) && st@ == utf8_chars(bs),
    }
}

/// Joined resource triples beside their spec-level pictures.
pub open spec fn res_triples_match(
    v: Seq<(u16, Option<String>, File)>,
    m: Seq<ResourceModel>,
) -> bool {
    &&& v.len() == m.len()
    &&& forall|k: int| 0 <= k < v.len() ==> res_triple_match(#[trigger] v[k], m[k])
}

/// Join resource table entries with the file table, claiming each file
/// entry at most once.
fn join_resources(
    entries: &Vec<(u16, u16)>,
    names: &Vec<(u16, String)>,
    files: &mut Vec<Option<File>>,
    Ghost(nm): Ghost<Seq<(u16, Seq<u8>)>>,
) -> (res: Result<Vec<(u16, Option<String>, File)>, Error>)
    requires
        names_match(names@, nm),
    ensures
        match sp_join(entries@, nm, old(files)@) {
            Ok(p) => res matches Ok(v) && res_triples_match(v@, p.0) && final(files)@ == p.1,
            Err(e) => res matches Err(e2) && e2 == e,
        },
{
    let ghost files0 = files@;
    proof {
        lemma_sp_join_len(entries@, nm, files0);
    }
    let mut out: Vec<(u16, Option<String>, File)> = Vec::new();
    let n: usize = entries.len();
    let mut i: usize = 0;
    proof {
        assert(entries@.skip(0) =~= entries@);
    }
    while i < n
        invariant
            i <= n,
            n == entries@.len(),
            names_match(names@, nm),
            out@.len() == i as int,
            match sp_join(entries@.skip(i as int), nm, files@) {
                Ok(rest) => sp_join(entries@, nm, files0) matches Ok(all) && all.1 == rest.1
                    && all.0.len() == entries@.len() && res_triples_match(
                    out@,
                    all.0.take(i as int),
                ) && rest.0 == all.0.skip(i as int),
                Err(e) => sp_join(entries@, nm, files0) == Err::<
                    (Seq<ResourceModel>, Seq<Option<File>>),
                    Error,
                >(e),
            },
        decreases n - i,
    {
        let rid: u16 = entries[i].0;
        let fid1: u16 = entries[i].1;
        proof {
            assert(entries@.skip(i as int)[0] == entries@[i as int]);
        }
        if fid1 == 0 || fid1 as usize > files.len() {
            return Err(Error::UnknownFileID);
        }
        let slot: Option<File> = files[fid1 as usize - 1];
        let f: File = match slot {
            Some(f) => f,
            None => {
                return Err(Error::UnknownFileID);
            },
        };
        files.set(fid1 as usize - 1, None);
        let name: Option<String> = lookup_name(names, rid, Ghost(nm));
        out.push((rid, name, f));
        proof {
            assert(entries@.skip(i as int).drop_first() =~= entries@.skip(i + 1));
            if sp_join(entries@.skip(i + 1), nm, files@) is Ok {
                let rest0 = sp_join(entries@.skip(i as int), nm, old(files)@);
                let all = sp_join(entries@, nm, files0).unwrap();
                assert(all.0.skip(i as int)[0] == all.0[i as int]);
                assert(all.0.skip(i as int).drop_first() =~= all.0.skip(i + 1));
                assert(all.0.take(i + 1) =~= all.0.take(i as int).push(all.0[i as int]));
                assert(res_triples_match(out@, all.0.take(i + 1)));
            }
        }
        i = i + 1;
    }
    proof {
        assert(entries@.skip(n as int) =~= Seq::<(u16, u16)>::empty());
        match sp_join(entries@, nm, files0) {
            Ok(all) => {
                assert(all.0.take(n as int) =~= all.0);
            },
            Err(e) => {
            },
        }
    }
    Ok(out)
}

/// Parse one type's resource table, name table and names, then join
/// with the file table.
fn parse_type_resources(
    r: &mut MohawkReader,
    dir: u32,
    name_list_offset: u16,
    entry: TypeTableEntry,
    files: &mut Vec<Option<File>>,
) -> (res: Result<Vec<(u16, Option<String>, File)>, Error>)
    requires
        root_reader(old(r)),
    ensures
        final(r).wf(),
        final(r).bytes() == old(r).bytes(),
        final(r).end() == old(r).end(),
        match sp_type_resources(
            old(r).bytes(),
            dir as int,
            name_list_offset,
            entry,
            old(files)@,
        ) {
            Ok(p) => res matches Ok(v) && res_triples_match(v@, p.0) && final(files)@ == p.1,
            Err(e) => res matches Err(e2) && e2 == e,
        },
{
    let ghost s = r.bytes();
    r.seek_to(dir as u64 + entry.resource_table_offset as u64);
    let rcount: u16 = match r.read_u16() {
        Ok(v) => v,
        Err(e) => {
            return Err(Error::Reader(e));
        },
    };
    let entries: Vec<(u16, u16)> = match parse_res_entries(r, rcount) {
        Ok(v) => v,
        Err(e) => {
            return Err(e);
        },
    };
    r.seek_to(dir as u64 + entry.name_table_offset as u64);
    let ncount: u16 = match r.read_u16() {
        Ok(v) => v,
        Err(e) => {
            return Err(Error::Reader(e));
        },
    };
    let nentries: Vec<(u16, u16)> = match parse_name_entries(r, ncount) {
        Ok(v) => v,
        Err(e) => {
            return Err(e);
        },
    };
    let names: Vec<(u16, String)> = match read_names(
        r,
        dir as u64 + name_list_offset as u64,
        &nentries,
    ) {
        Ok(v) => v,
        Err(e) => {
            return Err(e);
        },
    };
    let ghost nm = sp_names(s, dir as int + name_list_offset as int, nentries@).unwrap();
    join_resources(&entries, &names, files, Ghost(nm))
}

/// A named, typed byte range of the archive, with its own reader.
#[derive(Debug)]
pub struct Resource {
    /// Name from the name table, if one matched this resource.
    pub name: Option<String>,
    /// The file table entry giving the byte range.
    pub file: File,
    reader: MohawkReader,
}

impl Resource {
    /// The resource's reader, for contracts.
    pub closed spec fn spec_reader(&self) -> MohawkReader {
        self.reader
    }

    /// The resource's name, for contracts.
    pub closed spec fn spec_name(&self) -> Option<String> {
        self.name
    }

    /// The resource's file entry, for contracts.
    pub closed spec fn spec_file(&self) -> File {
        self.file
    }

    /// Bind a name and file entry to a reader, positioned at the
    /// resource's offset (or at the reader's bound if the offset lies
    /// beyond it).
    pub fn new(name: Option<String>, file: File, reader: MohawkReader) -> (r: Self)
        requires
            reader.wf(),
        ensures
            r.spec_name() == name,
            r.spec_file() == file,
            r.spec_reader().wf(),
            r.spec_reader().bytes() == reader.bytes(),
            r.spec_reader().end() == reader.end(),
            r.spec_reader().pos() == if file.offset as int <= reader.end() {
                file.offset as int
            } else {
                reader.end()
            },
    {
        let mut rd: MohawkReader = reader;
        rd.seek_to(file.offset as u64);
        Resource { name, file, reader: rd }
    }

    /// A fresh bounded view of the resource's bytes: positioned at the
    /// resource's offset, limited to its size.
    pub fn read(&self) -> (r: MohawkReader)
        requires
            self.spec_reader().wf(),
        ensures
            r.wf(),
            MohawkReader::take_rel(&self.spec_reader(), self.spec_file().size as usize, &r),
            r.remaining() == if self.spec_reader().remaining() < self.spec_file().size as usize {
                self.spec_reader().remaining()
            } else {
                self.spec_file().size as int
            },
    {
        self.reader.take(self.file.size as usize)
    }
}

/// A parsed catalogue entry beside its spec-level picture: same id, same
/// file entry, the name decoded from the picture's raw bytes, and a
/// well-formed reader over the archive positioned at the resource.
pub open spec fn resource_entry_matches(x: (u16, Resource), rm: ResourceModel, s: Seq<u8>) -> bool {
    &&& x.0 == rm.id
    &&& x.1.spec_file() == rm.file
    &&& match rm.name_bytes {
        None => x.1.spec_name() is None,
        Some(bs) => x.1.spec_name() matches Some(st) && st@ == utf8_chars(bs),
    }
    &&& x.1.spec_reader().wf()
    &&& x.1.spec_reader().bytes() == s
    &&& x.1.spec_reader().end() == s.len()
    &&& x.1.spec_reader().pos() == if rm.file.offset as int <= s.len() {
        rm.file.offset as int
    } else {
        s.len() as int
    }
}

/// A parsed type beside its spec-level picture.
pub open spec fn type_entry_matches(
    t: (TypeID, Vec<(u16, Resource)>),
    tm: TypeModel,
    s: Seq<u8>,
) -> bool {
    &&& tag_matches(t.0, tm.tag)
    &&& t.1@.len() == tm.resources.len()
    &&& forall|j: int| 0 <= j < t.1@.len() ==> resource_entry_matches(
        #[trigger] t.1@[j],
        tm.resources[j],
        s,
    )
}

/// A parsed catalogue beside its spec-level picture.
pub open spec fn mohawk_matches(m: &Mohawk, model: MohawkModel, s: Seq<u8>) -> bool {
    &&& m.spec_types().len() == model.types.len()
    &&& forall|i: int| 0 <= i < m.spec_types().len() ==> type_entry_matches(
        #[trigger] m.spec_types()[i],
        model.types[i],
        s,
    )
}

/// A parsed Mohawk archive: the catalogue of its resources, grouped by
/// type in type table order.
#[derive(Debug)]
pub struct Mohawk {
    archive: MohawkReader,
    /// The catalogue: each type with its resources in table order.
    pub types: Vec<(TypeID, Vec<(u16, Resource)>)>,
}

/// A successful parse of every type yields one group per type entry.
proof fn lemma_sp_all_types_len(
    s: Seq<u8>,
    dir: int,
    name_list_offset: u16,
    tts: Seq<(Seq<u8>, TypeTableEntry)>,
    files: Seq<Option<File>>,
)
    ensures
        sp_all_types(s, dir, name_list_offset, tts, files) matches Ok(p) ==> p.0.len()
            == tts.len(),
    decreases tts.len(),
{
    if tts.len() > 0 {
        match sp_type_resources(s, dir, name_list_offset, tts[0].1, files) {
            Err(e) => {
            },
            Ok(p) => {
                lemma_sp_all_types_len(s, dir, name_list_offset, tts.drop_first(), p.1);
            },
        }
    }
}

/// Turn joined triples into catalogue entries, each with its own reader.
fn build_resources(
    r: &MohawkReader,
    triples: Vec<(u16, Option<String>, File)>,
    Ghost(ms): Ghost<Seq<ResourceModel>>,
) -> (out: Vec<(u16, Resource)>)
    requires
        root_reader(r),
        res_triples_match(triples@, ms),
    ensures
        out@.len() == ms.len(),
        forall|j: int| 0 <= j < out@.len() ==> resource_entry_matches(
            #[trigger] out@[j],
            ms[j],
            r.bytes(),
        ),
{
    let ghost triples0 = triples@;
    let mut rest: Vec<(u16, Option<String>, File)> = triples;
    let mut out: Vec<(u16, Resource)> = Vec::new();
    let n: usize = rest.len();
    let mut i: usize = 0;
    proof {
        assert(rest@ =~= triples0.skip(0));
    }
    while i < n
        invariant
            i <= n,
            n == triples0.len(),
            triples0.len() == ms.len(),
            res_triples_match(triples0, ms),
            rest@ == triples0.skip(i as int),
            out@.len() == i as int,
            root_reader(r),
            forall|j: int| 0 <= j < out@.len() ==> resource_entry_matches(
                #[trigger] out@[j],
                ms[j],
                r.bytes(),
            ),
        decreases n - i,
    {
        let t: (u16, Option<String>, File) = rest.remove(0);
        proof {
            assert(triples0.skip(i as int)[0] == triples0[i as int]);
        }
        let res: Resource = Resource::new(t.1, t.2, r.dup());
        out.push((t.0, res));
        proof {
            assert(rest@ =~= triples0.skip(i + 1));
        }
        i = i + 1;
    }
    out
}

impl Mohawk {
    /// The bytes of the archive this catalogue was parsed from.
    pub closed spec fn spec_bytes(&self) -> Seq<u8> {
        self.archive.bytes()
    }

    /// The catalogue, for contracts.
    pub closed spec fn spec_types(&self) -> Seq<(TypeID, Vec<(u16, Resource)>)> {
        self.types@
    }

    /// Parse an archive held in memory into a catalogue.
    pub fn parse(data: Vec<u8>) -> (res: Result<Mohawk, Error>)
        ensures
            res matches Ok(m) ==> m.wf(),
            match sp_mohawk(data@) {
                Ok(model) => res matches Ok(m) && m.spec_bytes() == data@ && mohawk_matches(
                    &m,
                    model,
                    data@,
                ),
                Err(e) => res matches Err(e2) && e2 == e,
            },
    {
        let ghost s = data@;
        let mut r: MohawkReader = MohawkReader::new(data);
        let total: u64 = match parse_iff_header(&mut r) {
            Ok(v) => v,
            Err(e) => {
                return Err(e);
            },
        };
        let hdr: RSRCHeader = match parse_rsrc_header(&mut r, total) {
            Ok(v) => v,
            Err(e) => {
                return Err(e);
            },
        };
        let dir: u32 = hdr.resource_dir_offset;
        r.seek_to(dir as u64);
        let name_list_offset: u16 = match r.read_u16() {
            Ok(v) => v,
            Err(e) => {
                return Err(Error::Reader(e));
            },
        };
        let tcount: u16 = match r.read_u16() {
            Ok(v) => v,
            Err(e) => {
                return Err(Error::Reader(e));
            },
        };
        let tts: Vec<(TypeID, TypeTableEntry)> = match parse_type_entries(&mut r, tcount) {
            Ok(v) => v,
            Err(e) => {
                return Err(e);
            },
        };
        r.seek_to(dir as u64 + hdr.file_table_offset as u64);
        let fcount: u32 = match r.read_u32() {
            Ok(v) => v,
            Err(e) => {
                return Err(Error::Reader(e));
            },
        };
        if fcount > 0xFFFF {
            return Err(Error::TooBigFileTable);
        }
        if 4 + fcount * 10 != hdr.file_table_size as u32 {
            return Err(Error::UncoherentFileTableSize);
        }
        let fvec: Vec<File> = match parse_file_entries(&mut r, fcount) {
            Ok(v) => v,
            Err(e) => {
                return Err(e);
            },
        };
        let mut files: Vec<Option<File>> = Vec::new();
        let nf: usize = fvec.len();
        let mut k: usize = 0;
        while k < nf
            invariant
                k <= nf,
                nf == fvec@.len(),
                files@.len() == k as int,
                forall|j: int| 0 <= j < k ==> files@[j] == Some(#[trigger] fvec@[j]),
            decreases nf - k,
        {
            files.push(Some(fvec[k]));
            k = k + 1;
        }
        let ghost ttm = sp_type_entries(s, dir + 4, tcount as int).unwrap();
        proof {
            assert(files@ =~= sp_file_entries(s, dir + hdr.file_table_offset + 4,
                fcount as int).unwrap().map(|i: int, f: File| Some(f)));
        }
        let ghost files_model0 = files@;
        proof {
            lemma_sp_all_types_len(s, dir as int, name_list_offset, ttm, files_model0);
            assert(ttm.skip(0) =~= ttm);
        }
        let mut types: Vec<(TypeID, Vec<(u16, Resource)>)> = Vec::new();
        let nt: usize = tts.len();
        let mut i: usize = 0;
        while i < nt
            invariant
                i <= nt,
                nt == tts@.len(),
                tts@.len() == ttm.len(),
                type_entries_match(tts@, ttm),
                root_reader(&r),
                r.bytes() == s,
                types@.len() == i as int,
                match sp_all_types(s, dir as int, name_list_offset, ttm.skip(i as int), files@) {
                    Ok(rest) => sp_all_types(s, dir as int, name_list_offset, ttm, files_model0)
                        matches Ok(all) && all.1 == rest.1 && all.0.len() == ttm.len() && rest.0
                        == all.0.skip(i as int) && forall|j: int| 0 <= j < i ==> type_entry_matches(
                        #[trigger] types@[j],
                        all.0[j],
                        s,
                    ),
                    Err(e) => sp_all_types(s, dir as int, name_list_offset, ttm, files_model0)
                        == Err::<(Seq<TypeModel>, Seq<Option<File>>), Error>(e),
                },
            decreases nt - i,
        {
            let tid: TypeID = tts[i].0;
            let entry: TypeTableEntry = tts[i].1;
            proof {
                assert(ttm.skip(i as int)[0] == ttm[i as int]);
            }
            let ghost files_before = files@;
            let trips: Vec<(u16, Option<String>, File)> = match parse_type_resources(
                &mut r,
                dir,
                name_list_offset,
                entry,
                &mut files,
            ) {
                Ok(v) => v,
                Err(e) => {
                    return Err(e);
                },
            };
            let ghost tmodel = sp_type_resources(s, dir as int, name_list_offset, entry,
                files_before).unwrap();
            let resources: Vec<(u16, Resource)> = build_resources(&r, trips, Ghost(tmodel.0));
            types.push((tid, resources));
            proof {
                assert(ttm.skip(i as int).drop_first() =~= ttm.skip(i + 1));
                if sp_all_types(s, dir as int, name_list_offset, ttm.skip(i + 1), files@) is Ok {
                    let all = sp_all_types(s, dir as int, name_list_offset, ttm,
                        files_model0).unwrap();
                    assert(all.0.skip(i as int)[0] == all.0[i as int]);
                    assert(all.0.skip(i as int).drop_first() =~= all.0.skip(i + 1));
                    assert(type_entry_matches(types@[i as int], all.0[i as int], s));
                }
            }
            i = i + 1;
        }
        proof {
            assert(ttm.skip(nt as int) =~= Seq::<(Seq<u8>, TypeTableEntry)>::empty());
        }
        Ok(Mohawk { archive: r, types })
    }
}

/// The resource group of the first type with the given tag, if any.
pub open spec fn sp_find_type(
    ts: Seq<(TypeID, Vec<(u16, Resource)>)>,
    tag: Seq<u8>,
) -> Option<Vec<(u16, Resource)>>
    decreases ts.len(),
{
    if ts.len() == 0 {
        None
    } else if ts[0].0.spec_tag() == tag {
        Some(ts[0].1)
    } else {
        sp_find_type(ts.drop_first(), tag)
    }
}

/// The first resource with the given id, if any.
pub open spec fn sp_find_res(rs: Seq<(u16, Resource)>, id: u16) -> Option<Resource>
    decreases rs.len(),
{
    if rs.len() == 0 {
        None
    } else if rs[0].0 == id {
        Some(rs[0].1)
    } else {
        sp_find_res(rs.drop_first(), id)
    }
}

/// Skipping types whose tag does not match leaves the lookup unchanged.
proof fn lemma_find_type_advance(ts: Seq<(TypeID, Vec<(u16, Resource)>)>, tag: Seq<u8>, k: int)
    requires
        0 <= k <= ts.len(),
        forall|j: int| 0 <= j < k ==> (#[trigger] ts[j]).0.spec_tag() != tag,
    ensures
        sp_find_type(ts, tag) == sp_find_type(ts.skip(k), tag),
    decreases k,
{
    if k > 0 {
        assert(ts[0].0.spec_tag() != tag);
        assert forall|j: int| 0 <= j < k - 1 implies (#[trigger] ts.drop_first()[j]).0.spec_tag()
            != tag by {
            assert(ts.drop_first()[j] == ts[j + 1]);
        }
        lemma_find_type_advance(ts.drop_first(), tag, k - 1);
        assert(ts.drop_first().skip(k - 1) =~= ts.skip(k));
    } else {
        assert(ts.skip(0) =~= ts);
    }
}

/// Skipping resources whose id does not match leaves the lookup
/// unchanged.
proof fn lemma_find_res_advance(rs: Seq<(u16, Resource)>, id: u16, k: int)
    requires
        0 <= k <= rs.len(),
        forall|j: int| 0 <= j < k ==> (#[trigger] rs[j]).0 != id,
    ensures
        sp_find_res(rs, id) == sp_find_res(rs.skip(k), id),
    decreases k,
{
    if k > 0 {
        assert(rs[0].0 != id);
        assert forall|j: int| 0 <= j < k - 1 implies (#[trigger] rs.drop_first()[j]).0 != id by {
            assert(rs.drop_first()[j] == rs[j + 1]);
        }
        lemma_find_res_advance(rs.drop_first(), id, k - 1);
        assert(rs.drop_first().skip(k - 1) =~= rs.skip(k));
    } else {
        assert(rs.skip(0) =~= rs);
    }
}


/// No two groups share a type tag.
pub open spec fn unique_type_tags(ts: Seq<(TypeID, Vec<(u16, Resource)>)>) -> bool {
    forall|a: int, b: int|
        0 <= a < b < ts.len() ==> (#[trigger] ts[a]).0.spec_tag() != (#[trigger] ts[b]).0.spec_tag()
}

/// No two resources of one group share an id.
pub open spec fn unique_resource_ids(rs: Seq<(u16, Resource)>) -> bool {
    forall|a: int, b: int| 0 <= a < b < rs.len() ==> (#[trigger] rs[a]).0 != (#[trigger] rs[b]).0
}

/// Under unique type tags, the first matching group is the only one:
/// any group with the looked-up tag is the lookup's result.
pub proof fn lemma_find_type_unique(ts: Seq<(TypeID, Vec<(u16, Resource)>)>, tag: Seq<u8>, i: int)
    requires
        unique_type_tags(ts),
        0 <= i < ts.len(),
        ts[i].0.spec_tag() == tag,
    ensures
        sp_find_type(ts, tag) == Some(ts[i].1),
    decreases ts.len(),
{
    if i > 0 {
        assert(ts[0].0.spec_tag() != tag);
        let t = ts.drop_first();
        assert forall|a: int, b: int| 0 <= a < b < t.len() implies (
        #[trigger] t[a]).0.spec_tag() != (#[trigger] t[b]).0.spec_tag() by {
            assert(t[a] == ts[a + 1] && t[b] == ts[b + 1]);
        }
        assert(t[i - 1] == ts[i]);
        lemma_find_type_unique(t, tag, i - 1);
    }
}

/// Under unique resource ids, the first matching resource is the only
/// one: any resource with the looked-up id is the lookup's result.
pub proof fn lemma_find_res_unique(rs: Seq<(u16, Resource)>, id: u16, i: int)
    requires
        unique_resource_ids(rs),
        0 <= i < rs.len(),
        rs[i].0 == id,
    ensures
        sp_find_res(rs, id) == Some(rs[i].1),
    decreases rs.len(),
{
    if i > 0 {
        assert(rs[0].0 != id);
        let t = rs.drop_first();
        assert forall|a: int, b: int| 0 <= a < b < t.len() implies (#[trigger] t[a]).0 != (
        #[trigger] t[b]).0 by {
            assert(t[a] == rs[a + 1] && t[b] == rs[b + 1]);
        }
        assert(t[i - 1] == rs[i]);
        lemma_find_res_unique(t, id, i - 1);
    }
}

/// Compare two type identifiers by their raw tags.
fn type_id_eq(a: &TypeID, b: &TypeID) -> (r: bool)
    ensures
        r == (a.spec_tag() == b.spec_tag()),
{
    let ta: [u8; 4] = a.tag();
    let tb: [u8; 4] = b.tag();
    let eq: bool = ta[0] == tb[0] && ta[1] == tb[1] && ta[2] == tb[2] && ta[3] == tb[3];
    proof {
        assert(a.spec_tag().len() == 4 && b.spec_tag().len() == 4);
        if eq {
            assert(ta@ =~= tb@);
        } else {
            if ta@ == tb@ {
                assert(ta@[0] == tb@[0] && ta@[1] == tb@[1] && ta@[2] == tb@[2] && ta@[3]
                    == tb@[3]);
            }
        }
    }
    eq
}

impl Mohawk {
    /// The catalogue key invariant of the data model: type tags are
    /// unique, and resource ids are unique within each type.  A
    /// well-formed archive honours it; the parser carries over whatever
    /// the archive's tables hold, so a malformed archive can break it.
    /// `get` returns the first match either way, which under this
    /// invariant is the only match (`lemma_find_type_unique`,
    /// `lemma_find_res_unique`).
    pub open spec fn unique_keys(&self) -> bool {
        &&& unique_type_tags(self.spec_types())
        &&& forall|i: int| 0 <= i < self.spec_types().len() ==> unique_resource_ids(
            (#[trigger] self.spec_types()[i]).1@,
        )
    }

    /// Every resource in the catalogue carries a well-formed reader.
    pub open spec fn wf(&self) -> bool {
        forall|i: int, j: int|
            0 <= i < self.spec_types().len() && 0 <= j < self.spec_types()[i].1@.len() ==> (
            #[trigger] self.spec_types()[i].1@[j]).1.spec_reader().wf()
    }

    /// Look a resource up by type and id: the first type with the same
    /// tag, then its first resource with the same id.
    pub fn get(&self, type_id: &TypeID, id: u16) -> (res: Option<&Resource>)
        ensures
            match sp_find_type(self.spec_types(), type_id.spec_tag()) {
                None => res is None,
                Some(rs) => match sp_find_res(rs@, id) {
                    None => res is None,
                    Some(rsc) => res matches Some(rref) && *rref == rsc && (self.wf()
                        ==> rsc.spec_reader().wf()),
                },
            },
    {
        let nt: usize = self.types.len();
        let mut i: usize = 0;
        while i < nt && !type_id_eq(&self.types[i].0, type_id)
            invariant
                i <= nt,
                nt == self.spec_types().len(),
                forall|j: int| 0 <= j < i ==> (#[trigger] self.spec_types()[j]).0.spec_tag()
                    != type_id.spec_tag(),
            decreases nt - i,
        {
            i = i + 1;
        }
        proof {
            lemma_find_type_advance(self.spec_types(), type_id.spec_tag(), i as int);
        }
        if i >= nt {
            proof {
                assert(self.spec_types().skip(nt as int)
                    =~= Seq::<(TypeID, Vec<(u16, Resource)>)>::empty());
            }
            return None;
        }
        proof {
            assert(self.spec_types().skip(i as int)[0] == self.spec_types()[i as int]);
        }
        let rs: &Vec<(u16, Resource)> = &self.types[i].1;
        let nr: usize = rs.len();
        let mut j: usize = 0;
        while j < nr && rs[j].0 != id
            invariant
                j <= nr,
                nr == rs@.len(),
                forall|k: int| 0 <= k < j ==> (#[trigger] rs@[k]).0 != id,
            decreases nr - j,
        {
            j = j + 1;
        }
        proof {
            lemma_find_res_advance(rs@, id, j as int);
        }
        if j >= nr {
            proof {
                assert(rs@.skip(nr as int) =~= Seq::<(u16, Resource)>::empty());
            }
            return None;
        }
        proof {
            assert(rs@.skip(j as int)[0] == rs@[j as int]);
        }
        Some(&self.types[i].1[j].1)
    }

    /// Look up the PICT resource with the given id and decode it:
    /// absent when there is no such resource, otherwise the decoded
    /// image or the decoding error.
    pub fn get_pict(&self, id: u16) -> (res: Option<Result<PICT, Error>>)
        requires
            self.wf(),
        ensures
            match sp_find_type(self.spec_types(), pict_tag()) {
                None => res is None,
                Some(rs) => match sp_find_res(rs@, id) {
                    None => res is None,
                    Some(rsc) => res matches Some(pr) && {
                        let rd = rsc.spec_reader();
                        let rd_end = if rd.pos() + rsc.spec_file().size <= rd.end() {
                            rd.pos() + rsc.spec_file().size
                        } else {
                            rd.end()
                        };
                        match sp_pict(rd.bytes(), rd.pos(), rd_end) {
                            Ok(m) => pr matches Ok(p) && pict_matches(&p, m),
                            Err(e) => pr == Result::<PICT, Error>::Err(Error::PICT(e)),
                        }
                    },
                },
            },
    {
        let resource: &Resource = match self.get(&TypeID::PICT, id) {
            Some(r) => r,
            None => {
                return None;
            },
        };
        let rd: MohawkReader = resource.read();
        match PICT::parse(rd) {
            Ok(p) => Some(Ok(p)),
            Err(e) => Some(Err(Error::PICT(e))),
        }
    }
}


} // verus!
