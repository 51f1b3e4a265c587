//! QuickTime-compressed image pieces embedded in PICT opcodes: the
//! transformation matrix and the image description.

use vstd::prelude::*;
use crate::reader::MohawkReader;
use crate::reader::be16;
use crate::reader::be32;
use crate::text::string_from_utf8;
use crate::text::utf8_chars;
use crate::text::is_utf8;
use crate::pict::Error;

verus! {

broadcast use crate::reader::lemma_reader_bounds;

/// Parse a 3-by-3 transformation matrix at `pos`: nine big-endian
/// 32-bit values, row-major.
pub open spec fn sp_matrix(s: Seq<u8>, pos: int, end: int) -> Result<(Seq<u32>, int), Error> {
    if pos + 36 > end {
        Err(Error::Reader(crate::reader::Error::UnexpectedEof))
    } else {
        Ok((Seq::new(9, |i: int| be32(s, pos + 4 * i)), pos + 36))
    }
}

/// Read a 3-by-3 transformation matrix, row-major.
pub fn parse_matrix(r: &mut MohawkReader) -> (res: Result<Vec<u32>, Error>)
    requires
        old(r).wf(),
    ensures
        final(r).wf(),
        final(r).bytes() == old(r).bytes(),
        final(r).end() == old(r).end(),
        match sp_matrix(old(r).bytes(), old(r).pos(), old(r).end()) {
            Ok(p) => res matches Ok(v) && v@ == p.0 && final(r).pos() == p.1,
            Err(e) => res matches Err(e2) && e2 == e,
        },
{
    if r.remaining_len() < 36 {
        return Err(Error::Reader(crate::reader::Error::UnexpectedEof));
    }
    let ghost pos0 = r.pos();
    let mut out: Vec<u32> = Vec::new();
    let mut i: usize = 0;
    while i < 9
        invariant
            i <= 9,
            r.wf(),
            r.bytes() == old(r).bytes(),
            r.end() == old(r).end(),
            r.pos() == pos0 + 4 * (i as int),
            pos0 + 36 <= r.end(),
            out@.len() == i as int,
            forall|j: int| 0 <= j < i ==> out@[j] == be32(r.bytes(), pos0 + 4 * j),
        decreases 9 - i,
    {
        let v: u32 = match r.read_u32() {
            Ok(v) => v,
            Err(e) => {
                return Err(Error::Reader(e));
            },
        };
        out.push(v);
        i = i + 1;
    }
    proof {
        assert(out@ =~= Seq::new(9, |j: int| be32(r.bytes(), pos0 + 4 * j)));
    }
    Ok(out)
}

/// A QuickTime image description: geometry and size of the compressed
/// image data that follows it.
#[derive(Debug)]
pub struct ImageDescription {
    pub compressor_type: [u8; 4],
    pub version: u16,
    pub revision: u16,
    pub vendor: [u8; 4],
    pub temporal_quality: u32,
    pub spatial_quality: u32,
    pub width: u16,
    pub height: u16,
    pub horizontal_resolution: u32,
    pub vertical_resolution: u32,
    pub data_size: u32,
    pub frame_count: u16,
    pub name: String,
    pub depth: u16,
    pub color_table_id: u16,
}

/// Spec-level picture of an image description, with the name kept as
/// its raw bytes.
pub struct ImageDescriptionModel {
    pub compressor_type: Seq<u8>,
    pub version: u16,
    pub revision: u16,
    pub vendor: Seq<u8>,
    pub temporal_quality: u32,
    pub spatial_quality: u32,
    pub width: u16,
    pub height: u16,
    pub horizontal_resolution: u32,
    pub vertical_resolution: u32,
    pub data_size: u32,
    pub frame_count: u16,
    pub name_raw: Seq<u8>,
    pub depth: u16,
    pub color_table_id: u16,
}

/// The parsed description beside its spec-level picture: equal fields,
/// with the name decoded from the picture's raw bytes.
pub open spec fn image_description_matches(d: &ImageDescription, m: ImageDescriptionModel) -> bool {
    &&& d.compressor_type@ == m.compressor_type
    &&& d.version == m.version
    &&& d.revision == m.revision
    &&& d.vendor@ == m.vendor
    &&& d.temporal_quality == m.temporal_quality
    &&& d.spatial_quality == m.spatial_quality
    &&& d.width == m.width
    &&& d.height == m.height
    &&& d.horizontal_resolution == m.horizontal_resolution
    &&& d.vertical_resolution == m.vertical_resolution
    &&& d.data_size == m.data_size
    &&& d.frame_count == m.frame_count
    &&& d.name@ == utf8_chars(m.name_raw)
    &&& d.depth == m.depth
    &&& d.color_table_id == m.color_table_id
}

/// Parse an 86-byte image description at `pos`.  The structure size
/// field must hold exactly 86, the Pascal-string length at most 31, and
/// the name must be valid UTF-8.
pub open spec fn sp_image_description(s: Seq<u8>, pos: int, end: int) -> Result<
    (ImageDescriptionModel, int),
    Error,
> {
    if pos + 86 > end {
        Err(Error::Reader(crate::reader::Error::UnexpectedEof))
    } else if be32(s, pos) != 86 {
        Err(Error::InvalidImageDescriptionSize(be32(s, pos)))
    } else if s[pos + 50] > 31 {
        Err(Error::InvalidPascalString(s[pos + 50]))
    } else if !is_utf8(s.subrange(pos + 51, pos + 51 + s[pos + 50])) {
        Err(Error::InvalidUtf8)
    } else {
        Ok(
            (
                ImageDescriptionModel {
                    compressor_type: s.subrange(pos + 4, pos + 8),
                    version: be16(s, pos + 16),
                    revision: be16(s, pos + 18),
                    vendor: s.subrange(pos + 20, pos + 24),
                    temporal_quality: be32(s, pos + 24),
                    spatial_quality: be32(s, pos + 28),
                    width: be16(s, pos + 32),
                    height: be16(s, pos + 34),
                    horizontal_resolution: be32(s, pos + 36),
                    vertical_resolution: be32(s, pos + 40),
                    data_size: be32(s, pos + 44),
                    frame_count: be16(s, pos + 48),
                    name_raw: s.subrange(pos + 51, pos + 51 + s[pos + 50]),
                    depth: be16(s, pos + 82),
                    color_table_id: be16(s, pos + 84),
                },
                pos + 86,
            ),
        )
    }
}

impl ImageDescription {
    /// Read an 86-byte image description.
    pub fn parse(r: &mut MohawkReader) -> (res: Result<ImageDescription, Error>)
        requires
            old(r).wf(),
        ensures
            final(r).wf(),
            final(r).bytes() == old(r).bytes(),
            final(r).end() == old(r).end(),
            match sp_image_description(old(r).bytes(), old(r).pos(), old(r).end()) {
                Ok(p) => res matches Ok(d) && image_description_matches(&d, p.0)
                    && final(r).pos() == p.1,
                Err(e) => res matches Err(e2) && e2 == e,
            },
    {
        if r.remaining_len() < 86 {
            return Err(Error::Reader(crate::reader::Error::UnexpectedEof));
        }
        let struct_size: u32 = match r.read_u32() {
            Ok(v) => v,
            Err(e) => {
                return Err(Error::Reader(e));
            },
        };
        if struct_size != 86 {
            return Err(Error::InvalidImageDescriptionSize(struct_size));
        }
        let compressor_type: [u8; 4] = match r.read_4_bytes() {
            Ok(v) => v,
            Err(e) => {
                return Err(Error::Reader(e));
            },
        };
        match r.read_exact(8) {
            Ok(v) => v,
            Err(e) => {
                return Err(Error::Reader(e));
            },
        };
        let version: u16 = match r.read_u16() {
            Ok(v) => v,
            Err(e) => {
                return Err(Error::Reader(e));
            },
        };
        let revision: u16 = match r.read_u16() {
            Ok(v) => v,
            Err(e) => {
                return Err(Error::Reader(e));
            },
        };
        let vendor: [u8; 4] = match r.read_4_bytes() {
            Ok(v) => v,
            Err(e) => {
                return Err(Error::Reader(e));
            },
        };
        let temporal_quality: u32 = match r.read_u32() {
            Ok(v) => v,
            Err(e) => {
                return Err(Error::Reader(e));
            },
        };
        let spatial_quality: u32 = match r.read_u32() {
            Ok(v) => v,
            Err(e) => {
                return Err(Error::Reader(e));
            },
        };
        let width: u16 = match r.read_u16() {
            Ok(v) => v,
            Err(e) => {
                return Err(Error::Reader(e));
            },
        };
        let height: u16 = match r.read_u16() {
            Ok(v) => v,
            Err(e) => {
                return Err(Error::Reader(e));
            },
        };
        let horizontal_resolution: u32 = match r.read_u32() {
            Ok(v) => v,
            Err(e) => {
                return Err(Error::Reader(e));
            },
        };
        let vertical_resolution: u32 = match r.read_u32() {
            Ok(v) => v,
            Err(e) => {
                return Err(Error::Reader(e));
            },
        };
        let data_size: u32 = match r.read_u32() {
            Ok(v) => v,
            Err(e) => {
                return Err(Error::Reader(e));
            },
        };
        let frame_count: u16 = match r.read_u16() {
            Ok(v) => v,
            Err(e) => {
                return Err(Error::Reader(e));
            },
        };
        let name_size: u8 = match r.read_u8() {
            Ok(v) => v,
            Err(e) => {
                return Err(Error::Reader(e));
            },
        };
        if name_size > 31 {
            return Err(Error::InvalidPascalString(name_size));
        }
        let raw: Vec<u8> = match r.read_exact(name_size as usize) {
            Ok(v) => v,
            Err(e) => {
                return Err(Error::Reader(e));
            },
        };
        match r.read_exact(31 - name_size as usize) {
            Ok(v) => v,
            Err(e) => {
                return Err(Error::Reader(e));
            },
        };
        let name: String = match string_from_utf8(raw) {
            Some(st) => st,
            None => {
                return Err(Error::InvalidUtf8);
            },
        };
        let depth: u16 = match r.read_u16() {
            Ok(v) => v,
            Err(e) => {
                return Err(Error::Reader(e));
            },
        };
        let color_table_id: u16 = match r.read_u16() {
            Ok(v) => v,
            Err(e) => {
                return Err(Error::Reader(e));
            },
        };
        Ok(
            ImageDescription {
                compressor_type,
                version,
                revision,
                vendor,
                temporal_quality,
                spatial_quality,
                width,
                height,
                horizontal_resolution,
                vertical_resolution,
                data_size,
                frame_count,
                name,
                depth,
                color_table_id,
            },
        )
    }
}

} // verus!
