//! QuickDraw pixel map descriptors.

use vstd::prelude::*;
use crate::reader::MohawkReader;
use crate::reader::be16;
use crate::reader::be32;
use crate::geometry::Rectangle;
use crate::geometry::sp_rect;
use crate::pict::Error;

verus! {

broadcast use crate::reader::lemma_reader_bounds;

/// How pixel values are to be interpreted.
#[derive(Debug, Clone, Copy, PartialEq, Eq, Structural)]
pub enum PixelType {
    Indexed,
    Direct,
}

/// A pixel map descriptor: geometry, stride and packing of the pixel
/// data that follows it.
#[derive(Debug, Clone, Copy, PartialEq, Eq, Structural)]
pub struct PixMap {
    pub base_addr: u32,
    /// Bytes per row of the stored pixel data.
    pub row_bytes: u16,
    pub pointed_is_pixmap_record: bool,
    pub bounds: Rectangle,
    pub version: u16,
    pub pack_type: u16,
    pub pack_size: u32,
    pub horizontal_resolution: u32,
    pub vertical_resolution: u32,
    pub pixel_type: PixelType,
    pub pixel_size: u16,
    pub components_count: u16,
    pub components_size: u16,
    pub plane_offset: u32,
    pub color_table_addr: u32,
}

/// Parse a 50-byte pixel map descriptor at `pos`.  The stride word
/// carries the row stride in its low 14 bits; the stride must be even,
/// the low flag bit must be clear, and the high flag bit marks a pixmap
/// record.  The version must be zero, the pack type below five, and an
/// unpacked map must declare a zero pack size.
pub open spec fn sp_pixmap(s: Seq<u8>, pos: int, end: int) -> Result<(PixMap, int), Error> {
    if pos + 50 > end {
        Err(Error::Reader(crate::reader::Error::UnexpectedEof))
    } else {
        let raw = be16(s, pos + 4);
        let row_bytes = (raw % 0x4000) as u16;
        let flags = raw / 0x4000;
        if row_bytes % 2 != 0 || flags % 2 != 0 {
            Err(Error::InvalidRowBytes(raw))
        } else if be16(s, pos + 14) != 0 {
            Err(Error::InvalidPixMapVersion(be16(s, pos + 14)))
        } else if be16(s, pos + 16) >= 5 {
            Err(Error::UnsupportedPackType(be16(s, pos + 16)))
        } else if be16(s, pos + 16) == 0 && be32(s, pos + 18) != 0 {
            Err(Error::InvalidPackSize(be32(s, pos + 18)))
        } else if be16(s, pos + 30) != 0 && be16(s, pos + 30) != 16 {
            Err(Error::InvalidPixelType(be16(s, pos + 30)))
        } else {
            Ok(
                (
                    PixMap {
                        base_addr: be32(s, pos),
                        row_bytes,
                        pointed_is_pixmap_record: flags == 2,
                        bounds: Rectangle {
                            top: be16(s, pos + 6),
                            left: be16(s, pos + 8),
                            bottom: be16(s, pos + 10),
                            right: be16(s, pos + 12),
                        },
                        version: 0,
                        pack_type: be16(s, pos + 16),
                        pack_size: be32(s, pos + 18),
                        horizontal_resolution: be32(s, pos + 22),
                        vertical_resolution: be32(s, pos + 26),
                        pixel_type: if be16(s, pos + 30) == 0 {
                            PixelType::Indexed
                        } else {
                            PixelType::Direct
                        },
                        pixel_size: be16(s, pos + 32),
                        components_count: be16(s, pos + 34),
                        components_size: be16(s, pos + 36),
                        plane_offset: be32(s, pos + 38),
                        color_table_addr: be32(s, pos + 42),
                    },
                    pos + 50,
                ),
            )
        }
    }
}

impl PixMap {
    /// Read a pixel map descriptor from the reader.
    pub fn parse(r: &mut MohawkReader) -> (res: Result<PixMap, Error>)
        requires
            old(r).wf(),
        ensures
            final(r).wf(),
            final(r).bytes() == old(r).bytes(),
            final(r).end() == old(r).end(),
            match sp_pixmap(old(r).bytes(), old(r).pos(), old(r).end()) {
                Ok(p) => res == Result::<PixMap, Error>::Ok(p.0) && final(r).pos() == p.1,
                Err(e) => res == Result::<PixMap, Error>::Err(e) && final(r).pos() == old(
                    r,
                ).pos(),
            },
    {
        if r.remaining_len() < 50 {
            return Err(Error::Reader(crate::reader::Error::UnexpectedEof));
        }
        let d: &mut MohawkReader = &mut r.dup();
        let base_addr: u32 = match d.read_u32() {
            Ok(v) => v,
            Err(e) => {
                return Err(Error::Reader(e));
            },
        };
        let raw: u16 = match d.read_u16() {
            Ok(v) => v,
            Err(e) => {
                return Err(Error::Reader(e));
            },
        };
        let row_bytes: u16 = raw % 0x4000;
        let flags: u16 = raw / 0x4000;
        if row_bytes % 2 != 0 || flags % 2 != 0 {
            return Err(Error::InvalidRowBytes(raw));
        }
        let pointed_is_pixmap_record: bool = flags == 2;
        let bounds: Rectangle = match Rectangle::parse(d) {
            Ok(v) => v,
            Err(e) => {
                return Err(e);
            },
        };
        let version: u16 = match d.read_u16() {
            Ok(v) => v,
            Err(e) => {
                return Err(Error::Reader(e));
            },
        };
        if version != 0 {
            return Err(Error::InvalidPixMapVersion(version));
        }
        let pack_type: u16 = match d.read_u16() {
            Ok(v) => v,
            Err(e) => {
                return Err(Error::Reader(e));
            },
        };
        if pack_type >= 5 {
            return Err(Error::UnsupportedPackType(pack_type));
        }
        let pack_size: u32 = match d.read_u32() {
            Ok(v) => v,
            Err(e) => {
                return Err(Error::Reader(e));
            },
        };
        if pack_type == 0 && pack_size != 0 {
            return Err(Error::InvalidPackSize(pack_size));
        }
        let horizontal_resolution: u32 = match d.read_u32() {
            Ok(v) => v,
            Err(e) => {
                return Err(Error::Reader(e));
            },
        };
        let vertical_resolution: u32 = match d.read_u32() {
            Ok(v) => v,
            Err(e) => {
                return Err(Error::Reader(e));
            },
        };
        let raw_pixel_type: u16 = match d.read_u16() {
            Ok(v) => v,
            Err(e) => {
                return Err(Error::Reader(e));
            },
        };
        let pixel_type: PixelType = if raw_pixel_type == 0 {
            PixelType::Indexed
        } else if raw_pixel_type == 16 {
            PixelType::Direct
        } else {
            return Err(Error::InvalidPixelType(raw_pixel_type));
        };
        let pixel_size: u16 = match d.read_u16() {
            Ok(v) => v,
            Err(e) => {
                return Err(Error::Reader(e));
            },
        };
        let components_count: u16 = match d.read_u16() {
            Ok(v) => v,
            Err(e) => {
                return Err(Error::Reader(e));
            },
        };
        let components_size: u16 = match d.read_u16() {
            Ok(v) => v,
            Err(e) => {
                return Err(Error::Reader(e));
            },
        };
        let plane_offset: u32 = match d.read_u32() {
            Ok(v) => v,
            Err(e) => {
                return Err(Error::Reader(e));
            },
        };
        let color_table_addr: u32 = match d.read_u32() {
            Ok(v) => v,
            Err(e) => {
                return Err(Error::Reader(e));
            },
        };
        match d.read_exact(4) {
            Ok(v) => v,
            Err(e) => {
                return Err(Error::Reader(e));
            },
        };
        r.seek(d.stream_position());
        Ok(
            PixMap {
                base_addr,
                row_bytes,
                pointed_is_pixmap_record,
                bounds,
                version,
                pack_type,
                pack_size,
                horizontal_resolution,
                vertical_resolution,
                pixel_type,
                pixel_size,
                components_count,
                components_size,
                plane_offset,
                color_table_addr,
            },
        )
    }
}

} // verus!
