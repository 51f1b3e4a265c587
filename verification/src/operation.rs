//! QuickDraw opcodes: framing, operands, and the decoding of
//! direct-bits pixel data.
//!
//! Each opcode is a big-endian 16-bit tag followed by operands whose
//! layout the tag determines.  Every opcode consumes an even number of
//! bytes in total; filler bytes that keep that alignment must be zero.

use vstd::prelude::*;
use crate::reader::MohawkReader;
use crate::reader::be16;
use crate::reader::be32;
use crate::reader::be_i16;
use crate::geometry::Point;
use crate::geometry::Rectangle;
use crate::pixmap::PixMap;
use crate::pixmap::sp_pixmap;
use crate::quicktime::ImageDescription;
use crate::quicktime::parse_matrix;
use crate::quicktime::sp_image_description;
use crate::quicktime::sp_matrix;
use crate::packbits::DecState;
use crate::packbits::Decoder;
use crate::packbits::dec_run_output;
use crate::packbits::dec_run_state;
use crate::text::decode_windows_1252;
use crate::text::win1252_chars;
use crate::pict::Error;

verus! {

broadcast use crate::reader::lemma_reader_bounds;

/// A parsed opcode with its decoded operands.
pub enum Operation {
    Nop,
    Clip { size: u16, bounding: Rectangle },
    TxFont(i16),
    TxFace(u8),
    PnSize(Point),
    TxSize(i16),
    TxRatio { numerator: Point, denominator: Point },
    VersionOp,
    DefHilite,
    LongText { location: Point, text: String },
    DirectBitsRect {
        pix_map: PixMap,
        source: Rectangle,
        destination: Rectangle,
        mode: u16,
        pix_data: Vec<u8>,
    },
    LongComment { kind: i16, text: String },
    OpEndPic,
    Version,
    HeaderOp { version: i16, resolution: (u32, u32), source: Rectangle },
    CompressedQuickTime {
        version: u16,
        transformation: Vec<u32>,
        matte_rect: Rectangle,
        mode: u16,
        source: Rectangle,
        accuracy: u32,
        mask: Option<Vec<u8>>,
        data: Vec<u8>,
    },
}

/// Spec-level picture of a parsed opcode, with text operands kept as
/// their raw bytes.
pub enum OpShape {
    Nop,
    Clip { size: u16, bounding: Rectangle },
    TxFont(i16),
    TxFace(u8),
    PnSize(Point),
    TxSize(i16),
    TxRatio { numerator: Point, denominator: Point },
    VersionOp,
    DefHilite,
    LongText { location: Point, raw: Seq<u8> },
    DirectBitsRect {
        pix_map: PixMap,
        source: Rectangle,
        destination: Rectangle,
        mode: u16,
        pix_data: Seq<u8>,
    },
    LongComment { kind: i16, raw: Seq<u8> },
    OpEndPic,
    Version,
    HeaderOp { version: i16, resolution: (u32, u32), source: Rectangle },
    CompressedQuickTime {
        version: u16,
        transformation: Seq<u32>,
        matte_rect: Rectangle,
        mode: u16,
        source: Rectangle,
        accuracy: u32,
        mask: Option<Seq<u8>>,
        data: Seq<u8>,
    },
}

impl Operation {
    /// The opcode number of this operation.
    pub open spec fn spec_opcode(&self) -> u16 {
        match self {
            Operation::Nop => 0x0000,
            Operation::Clip { .. } => 0x0001,
            Operation::TxFont(..) => 0x0003,
            Operation::TxFace(..) => 0x0004,
            Operation::PnSize(..) => 0x0007,
            Operation::TxSize(..) => 0x000D,
            Operation::TxRatio { .. } => 0x0010,
            Operation::VersionOp => 0x0011,
            Operation::DefHilite => 0x001E,
            Operation::LongText { .. } => 0x0028,
            Operation::DirectBitsRect { .. } => 0x009A,
            Operation::LongComment { .. } => 0x00A1,
            Operation::OpEndPic => 0x00FF,
            Operation::Version => 0x02FF,
            Operation::HeaderOp { .. } => 0x0C00,
            Operation::CompressedQuickTime { .. } => 0x8200,
        }
    }

    /// The opcode number of this operation.
    pub fn opcode(&self) -> (r: u16)
        ensures
            r == self.spec_opcode(),
    {
        match self {
            Operation::Nop => 0x0000,
            Operation::Clip { .. } => 0x0001,
            Operation::TxFont(..) => 0x0003,
            Operation::TxFace(..) => 0x0004,
            Operation::PnSize(..) => 0x0007,
            Operation::TxSize(..) => 0x000D,
            Operation::TxRatio { .. } => 0x0010,
            Operation::VersionOp => 0x0011,
            Operation::DefHilite => 0x001E,
            Operation::LongText { .. } => 0x0028,
            Operation::DirectBitsRect { .. } => 0x009A,
            Operation::LongComment { .. } => 0x00A1,
            Operation::OpEndPic => 0x00FF,
            Operation::Version => 0x02FF,
            Operation::HeaderOp { .. } => 0x0C00,
            Operation::CompressedQuickTime { .. } => 0x8200,
        }
    }
}

/// A parsed operation beside its spec-level picture: equal fields, with
/// text operands decoded as windows-1252 from the picture's raw bytes.
pub open spec fn op_matches(op: &Operation, m: OpShape) -> bool {
    match m {
        OpShape::Nop => op is Nop,
        OpShape::Clip { size, bounding } => op matches Operation::Clip {
            size: s2,
            bounding: b2,
        } && s2 == size && b2 == bounding,
        OpShape::TxFont(v) => op matches Operation::TxFont(v2) && v2 == v,
        OpShape::TxFace(v) => op matches Operation::TxFace(v2) && v2 == v,
        OpShape::PnSize(v) => op matches Operation::PnSize(v2) && v2 == v,
        OpShape::TxSize(v) => op matches Operation::TxSize(v2) && v2 == v,
        OpShape::TxRatio { numerator, denominator } => op matches Operation::TxRatio {
            numerator: n2,
            denominator: d2,
        } && n2 == numerator && d2 == denominator,
        OpShape::VersionOp => op is VersionOp,
        OpShape::DefHilite => op is DefHilite,
        OpShape::LongText { location, raw } => op matches Operation::LongText {
            location: l2,
            text,
        } && l2 == location && text@ == win1252_chars(raw),
        OpShape::DirectBitsRect { pix_map, source, destination, mode, pix_data } => op matches
            Operation::DirectBitsRect {
            pix_map: pm2,
            source: s2,
            destination: d2,
            mode: m2,
            pix_data: pd2,
        } && pm2 == pix_map && s2 == source && d2 == destination && m2 == mode && pd2@ == pix_data,
        OpShape::LongComment { kind, raw } => op matches Operation::LongComment {
            kind: k2,
            text,
        } && k2 == kind && text@ == win1252_chars(raw),
        OpShape::OpEndPic => op is OpEndPic,
        OpShape::Version => op is Version,
        OpShape::HeaderOp { version, resolution, source } => op matches Operation::HeaderOp {
            version: v2,
            resolution: r2,
            source: s2,
        } && v2 == version && r2 == resolution && s2 == source,
        OpShape::CompressedQuickTime {
            version,
            transformation,
            matte_rect,
            mode,
            source,
            accuracy,
            mask,
            data,
        } => op matches Operation::CompressedQuickTime {
            version: v2,
            transformation: t2,
            matte_rect: mr2,
            mode: m2,
            source: s2,
            accuracy: a2,
            mask: mk2,
            data: d2,
        } && v2 == version && t2@ == transformation && mr2 == matte_rect && m2 == mode && s2
            == source && a2 == accuracy && d2@ == data && (match mask {
            None => mk2 is None,
            Some(bs) => mk2 matches Some(v) && v@ == bs,
        }),
    }
}

/// One planar row re-ordered to interleaved RGB: the row's first third
/// is red, its second green, its last blue.
pub open spec fn interleave3(line: Seq<u8>) -> Seq<u8> {
    Seq::new(line.len(), |i: int| line[(i % 3) * (line.len() / 3) + i / 3])
}

/// Decode `rows` packed pixel rows at `pos`: each row is a length field
/// (one byte for short strides, two for strides over 250), that many
/// PackBits-encoded bytes, which must decode to a complete run sequence
/// whose length is a multiple of three, and which is then interleaved.
/// The parity flag tracks whether an odd number of bytes was consumed.
pub open spec fn sp_rows(
    s: Seq<u8>,
    pos: int,
    end: int,
    rows: int,
    row_bytes: u16,
    parity: bool,
) -> Result<(Seq<u8>, int, bool), Error>
    decreases rows, 1int,
{
    if rows <= 0 {
        Ok((Seq::empty(), pos, parity))
    } else if row_bytes > 250 {
        if pos + 2 > end {
            Err(Error::Reader(crate::reader::Error::UnexpectedEof))
        } else {
            sp_row_tail(s, pos + 2, end, be16(s, pos) as int, parity, rows, row_bytes)
        }
    } else {
        if pos + 1 > end {
            Err(Error::Reader(crate::reader::Error::UnexpectedEof))
        } else {
            sp_row_tail(s, pos + 1, end, s[pos] as int, !parity, rows, row_bytes)
        }
    }
}

/// The remainder of one packed row after its length field: the encoded
/// bytes, their PackBits decoding, the interleave, and the rows after.
pub open spec fn sp_row_tail(
    s: Seq<u8>,
    q: int,
    end: int,
    len: int,
    parity: bool,
    rows: int,
    row_bytes: u16,
) -> Result<(Seq<u8>, int, bool), Error>
    decreases rows, 0int,
        when rows >= 1
{
    if q + len > end {
        Err(Error::Reader(crate::reader::Error::UnexpectedEof))
    } else {
        let enc = s.subrange(q, q + len);
        let par2 = if len % 2 == 1 {
            !parity
        } else {
            parity
        };
        match dec_run_state(DecState::Idle, enc) {
            DecState::Literal { remaining } => Err(
                Error::PackBits(crate::packbits::Error::DanglingLiteral(remaining)),
            ),
            DecState::Repeat { count } => Err(
                Error::PackBits(crate::packbits::Error::DanglingRepeated),
            ),
            DecState::Idle => {
                let line = dec_run_output(DecState::Idle, enc);
                if line.len() % 3 != 0 {
                    Err(Error::InvalidPlanarRow)
                } else {
                    match sp_rows(s, q + len, end, rows - 1, row_bytes, par2) {
                        Err(e) => Err(e),
                        Ok(rest) => Ok((interleave3(line) + rest.0, rest.1, rest.2)),
                    }
                }
            },
        }
    }
}

/// Parse one opcode at `pos`: the tag, its operands, and any filler
/// that keeps the opcode even.
pub open spec fn sp_operation(s: Seq<u8>, pos: int, end: int) -> Result<(OpShape, int), Error> {
    if pos + 2 > end {
        Err(Error::Reader(crate::reader::Error::UnexpectedEof))
    } else {
        let tag = be16(s, pos);
        let p = pos + 2;
        if tag == 0x0000 {
            Ok((OpShape::Nop, p))
        } else if tag == 0x0001 {
            if p + 10 > end {
                Err(Error::Reader(crate::reader::Error::UnexpectedEof))
            } else {
                Ok(
                    (
                        OpShape::Clip {
                            size: be16(s, p),
                            bounding: Rectangle {
                                top: be16(s, p + 2),
                                left: be16(s, p + 4),
                                bottom: be16(s, p + 6),
                                right: be16(s, p + 8),
                            },
                        },
                        p + 10,
                    ),
                )
            }
        } else if tag == 0x0003 {
            if p + 2 > end {
                Err(Error::Reader(crate::reader::Error::UnexpectedEof))
            } else {
                Ok((OpShape::TxFont(be_i16(s, p)), p + 2))
            }
        } else if tag == 0x0004 {
            if p + 2 > end {
                Err(Error::Reader(crate::reader::Error::UnexpectedEof))
            } else if s[p + 1] != 0 {
                Err(Error::InvalidFiller(s[p + 1]))
            } else {
                Ok((OpShape::TxFace(s[p]), p + 2))
            }
        } else if tag == 0x0007 {
            if p + 4 > end {
                Err(Error::Reader(crate::reader::Error::UnexpectedEof))
            } else {
                Ok((OpShape::PnSize(Point { x: be16(s, p), y: be16(s, p + 2) }), p + 4))
            }
        } else if tag == 0x000D {
            if p + 2 > end {
                Err(Error::Reader(crate::reader::Error::UnexpectedEof))
            } else {
                Ok((OpShape::TxSize(be_i16(s, p)), p + 2))
            }
        } else if tag == 0x0010 {
            if p + 8 > end {
                Err(Error::Reader(crate::reader::Error::UnexpectedEof))
            } else {
                Ok(
                    (
                        OpShape::TxRatio {
                            numerator: Point { x: be16(s, p), y: be16(s, p + 2) },
                            denominator: Point { x: be16(s, p + 4), y: be16(s, p + 6) },
                        },
                        p + 8,
                    ),
                )
            }
        } else if tag == 0x0011 {
            Ok((OpShape::VersionOp, p))
        } else if tag == 0x001E {
            Ok((OpShape::DefHilite, p))
        } else if tag == 0x0028 {
            sp_long_text(s, p, end)
        } else if tag == 0x009A {
            sp_direct_bits(s, p, end)
        } else if tag == 0x00A1 {
            sp_long_comment(s, p, end)
        } else if tag == 0x00FF {
            Ok((OpShape::OpEndPic, p))
        } else if tag == 0x02FF {
            Ok((OpShape::Version, p))
        } else if tag == 0x0C00 {
            if p + 24 > end {
                Err(Error::Reader(crate::reader::Error::UnexpectedEof))
            } else {
                Ok(
                    (
                        OpShape::HeaderOp {
                            version: be_i16(s, p),
                            resolution: (be32(s, p + 4), be32(s, p + 8)),
                            source: Rectangle {
                                top: be16(s, p + 12),
                                left: be16(s, p + 14),
                                bottom: be16(s, p + 16),
                                right: be16(s, p + 18),
                            },
                        },
                        p + 24,
                    ),
                )
            }
        } else if tag == 0x8200 {
            sp_compressed_quicktime(s, p, end)
        } else {
            Err(Error::UnsupportedOpcode(tag))
        }
    }
}

/// The text opcode: a location, a count byte, that many windows-1252
/// bytes, and a zero filler when the count is even.
pub open spec fn sp_long_text(s: Seq<u8>, p: int, end: int) -> Result<(OpShape, int), Error> {
    if p + 5 > end {
        Err(Error::Reader(crate::reader::Error::UnexpectedEof))
    } else {
        let location = Point { x: be16(s, p), y: be16(s, p + 2) };
        let count = s[p + 4];
        let q = p + 5;
        if q + count > end {
            Err(Error::Reader(crate::reader::Error::UnexpectedEof))
        } else {
            let raw = s.subrange(q, q + count);
            if count % 2 == 0 {
                if q + count + 1 > end {
                    Err(Error::Reader(crate::reader::Error::UnexpectedEof))
                } else if s[q + count] != 0 {
                    Err(Error::InvalidFiller(s[q + count]))
                } else {
                    Ok((OpShape::LongText { location, raw }, q + count + 1))
                }
            } else {
                Ok((OpShape::LongText { location, raw }, q + count))
            }
        }
    }
}

/// The comment opcode: a kind, a size, and that many windows-1252
/// bytes; an odd size would break the two-byte alignment.
pub open spec fn sp_long_comment(s: Seq<u8>, p: int, end: int) -> Result<(OpShape, int), Error> {
    if p + 4 > end {
        Err(Error::Reader(crate::reader::Error::UnexpectedEof))
    } else {
        let kind = be_i16(s, p);
        let size = be16(s, p + 2);
        if size % 2 != 0 {
            Err(Error::UnevenOpcode(0x00A1))
        } else if p + 4 + size > end {
            Err(Error::Reader(crate::reader::Error::UnexpectedEof))
        } else {
            Ok((OpShape::LongComment { kind, raw: s.subrange(p + 4, p + 4 + size) }, p + 4 + size))
        }
    }
}

/// The direct-bits opcode: a pixel map whose base address must be the
/// fixed marker, source and destination rectangles, a mode, then the
/// pixel rows, raw or packed, with a filler when an odd count was read.
pub open spec fn sp_direct_bits(s: Seq<u8>, p: int, end: int) -> Result<(OpShape, int), Error> {
    match sp_pixmap(s, p, end) {
        Err(e) => Err(e),
        Ok(pm) => {
            let pix_map = pm.0;
            let p1 = pm.1;
            if pix_map.base_addr != 0xFF {
                Err(Error::InvalidBaseAddress(pix_map.base_addr))
            } else if p1 + 18 > end {
                Err(Error::Reader(crate::reader::Error::UnexpectedEof))
            } else {
                let source = Rectangle {
                    top: be16(s, p1),
                    left: be16(s, p1 + 2),
                    bottom: be16(s, p1 + 4),
                    right: be16(s, p1 + 6),
                };
                let destination = Rectangle {
                    top: be16(s, p1 + 8),
                    left: be16(s, p1 + 10),
                    bottom: be16(s, p1 + 12),
                    right: be16(s, p1 + 14),
                };
                let mode = be16(s, p1 + 16);
                let q = p1 + 18;
                if pix_map.bounds.bottom < pix_map.bounds.top {
                    Err(Error::InvalidBounds)
                } else {
                    let height = pix_map.bounds.bottom - pix_map.bounds.top;
                    if pix_map.pack_type == 1 {
                        let size = pix_map.row_bytes * height;
                        if q + size > end {
                            Err(Error::Reader(crate::reader::Error::UnexpectedEof))
                        } else {
                            sp_db_filler(
                                s,
                                q + size,
                                end,
                                OpShape::DirectBitsRect {
                                    pix_map,
                                    source,
                                    destination,
                                    mode,
                                    pix_data: s.subrange(q, q + size),
                                },
                                size % 2 == 1,
                            )
                        }
                    } else if pix_map.pack_type == 4 {
                        match sp_rows(s, q, end, height as int, pix_map.row_bytes, false) {
                            Err(e) => Err(e),
                            Ok(t) => sp_db_filler(
                                s,
                                t.1,
                                end,
                                OpShape::DirectBitsRect {
                                    pix_map,
                                    source,
                                    destination,
                                    mode,
                                    pix_data: t.0,
                                },
                                t.2,
                            ),
                        }
                    } else {
                        Err(Error::UnsupportedPackType(pix_map.pack_type))
                    }
                }
            }
        },
    }
}

/// After the pixel rows: one zero filler byte when an odd number of
/// bytes was read.
pub open spec fn sp_db_filler(s: Seq<u8>, q: int, end: int, shape: OpShape, parity: bool) -> Result<
    (OpShape, int),
    Error,
> {
    if parity {
        if q + 1 > end {
            Err(Error::Reader(crate::reader::Error::UnexpectedEof))
        } else if s[q] != 0 {
            Err(Error::InvalidFiller(s[q]))
        } else {
            Ok((shape, q + 1))
        }
    } else {
        Ok((shape, q))
    }
}

/// The QuickTime opcode: a declared even size, a version, a matrix, a
/// matte that must be empty, geometry, an optional even-sized mask, an
/// image description, the compressed data, and up to one filler so that
/// everything after the size field spans exactly the declared size less
/// two.
pub open spec fn sp_compressed_quicktime(s: Seq<u8>, p: int, end: int) -> Result<
    (OpShape, int),
    Error,
> {
    if p + 4 > end {
        Err(Error::Reader(crate::reader::Error::UnexpectedEof))
    } else {
        let size = be32(s, p);
        if size % 2 != 0 {
            Err(Error::UnevenQuickTimeSize(size))
        } else if p + 6 > end {
            Err(Error::Reader(crate::reader::Error::UnexpectedEof))
        } else {
            let version = be16(s, p + 4);
            match sp_matrix(s, p + 6, end) {
                Err(e) => Err(e),
                Ok(mat) => {
                    let q2 = mat.1;
                    if q2 + 30 > end {
                        Err(Error::Reader(crate::reader::Error::UnexpectedEof))
                    } else {
                        let matte_size = be32(s, q2);
                        let matte_rect = Rectangle {
                            top: be16(s, q2 + 4),
                            left: be16(s, q2 + 6),
                            bottom: be16(s, q2 + 8),
                            right: be16(s, q2 + 10),
                        };
                        let mode = be16(s, q2 + 12);
                        let source = Rectangle {
                            top: be16(s, q2 + 14),
                            left: be16(s, q2 + 16),
                            bottom: be16(s, q2 + 18),
                            right: be16(s, q2 + 20),
                        };
                        let accuracy = be32(s, q2 + 22);
                        let mask_size = be32(s, q2 + 26);
                        let q3 = q2 + 30;
                        if matte_size > 0 {
                            Err(Error::UnsupportedMatte(matte_size))
                        } else if mask_size % 2 != 0 {
                            Err(Error::UnevenOpcode(0x8200))
                        } else if q3 + mask_size > end {
                            Err(Error::Reader(crate::reader::Error::UnexpectedEof))
                        } else {
                            let mask = if mask_size > 0 {
                                Some(s.subrange(q3, q3 + mask_size))
                            } else {
                                None
                            };
                            let q4 = q3 + mask_size;
                            match sp_image_description(s, q4, end) {
                                Err(e) => Err(e),
                                Ok(idm) => {
                                    let q5 = idm.1;
                                    let data_size = idm.0.data_size;
                                    if q5 + data_size > end {
                                        Err(Error::Reader(crate::reader::Error::UnexpectedEof))
                                    } else if size < data_size + 154 || size > data_size + 155 {
                                        Err(Error::InvalidQuickTimeSize(size))
                                    } else {
                                        let data = s.subrange(q5, q5 + data_size);
                                        let q6 = q5 + data_size;
                                        let shape = OpShape::CompressedQuickTime {
                                            version,
                                            transformation: mat.0,
                                            matte_rect,
                                            mode,
                                            source,
                                            accuracy,
                                            mask,
                                            data,
                                        };
                                        if size == data_size + 155 {
                                            if q6 + 1 > end {
                                                Err(
                                                    Error::Reader(
                                                        crate::reader::Error::UnexpectedEof,
                                                    ),
                                                )
                                            } else if s[q6] != 0 {
                                                Err(Error::InvalidFiller(s[q6]))
                                            } else {
                                                Ok((shape, q6 + 1))
                                            }
                                        } else {
                                            Ok((shape, q6))
                                        }
                                    }
                                },
                            }
                        }
                    }
                },
            }
        }
    }
}

/// Consume one filler byte, which must be zero.
fn skip_filler(r: &mut MohawkReader) -> (res: Result<(), Error>)
    requires
        old(r).wf(),
    ensures
        final(r).wf(),
        final(r).bytes() == old(r).bytes(),
        final(r).end() == old(r).end(),
        if old(r).can_read(1) {
            if old(r).bytes()[old(r).pos()] == 0 {
                res == Result::<(), Error>::Ok(()) && final(r).pos() == old(r).pos() + 1
            } else {
                res == Result::<(), Error>::Err(
                    Error::InvalidFiller(old(r).bytes()[old(r).pos()]),
                ) && final(r).pos() == old(r).pos() + 1
            }
        } else {
            res == Result::<(), Error>::Err(Error::Reader(crate::reader::Error::UnexpectedEof))
                && final(r).pos() == old(r).pos()
        },
{
    let b: u8 = match r.read_u8() {
        Ok(v) => v,
        Err(e) => {
            return Err(Error::Reader(e));
        },
    };
    if b != 0 {
        return Err(Error::InvalidFiller(b));
    }
    Ok(())
}

/// Decode the packed pixel rows of a direct-bits opcode.  Returns the
/// interleaved RGB bytes and whether an odd byte count was consumed.
#[verifier::rlimit(100)]
#[verifier::spinoff_prover]
fn parse_packed_rows(r: &mut MohawkReader, rows: u16, row_bytes: u16) -> (res: Result<
    (Vec<u8>, bool),
    Error,
>)
    requires
        old(r).wf(),
    ensures
        final(r).wf(),
        final(r).bytes() == old(r).bytes(),
        final(r).end() == old(r).end(),
        match sp_rows(old(r).bytes(), old(r).pos(), old(r).end(), rows as int, row_bytes, false) {
            Ok(t) => res matches Ok(p) && p.0@ == t.0 && p.1 == t.2 && final(r).pos() == t.1,
            Err(e) => res matches Err(e2) && e2 == e,
        },
{
    let ghost s = r.bytes();
    let ghost end = r.end();
    let ghost pos0 = r.pos();
    let mut out: Vec<u8> = Vec::new();
    let mut parity: bool = false;
    let mut i: u16 = 0;
    proof {
        assert(out@ + sp_rows(s, pos0, end, rows as int, row_bytes, false).unwrap().0
            =~= sp_rows(s, pos0, end, rows as int, row_bytes, false).unwrap().0);
    }
    while i < rows
        invariant
            i <= rows,
            r.wf(),
            r.bytes() == s,
            r.end() == end,
            match sp_rows(s, r.pos(), end, (rows - i) as int, row_bytes, parity) {
                Ok(t) => sp_rows(s, pos0, end, rows as int, row_bytes, false) == Ok::<
                    (Seq<u8>, int, bool),
                    Error,
                >((out@ + t.0, t.1, t.2)),
                Err(e) => sp_rows(s, pos0, end, rows as int, row_bytes, false) == Err::<
                    (Seq<u8>, int, bool),
                    Error,
                >(e),
            },
        decreases rows - i,
    {
        let ghost parity0 = parity;
        let ghost cur = r.pos();
        let len: usize = if row_bytes > 250 {
            let v: u16 = match r.read_u16() {
                Ok(v) => v,
                Err(e) => {
                    return Err(Error::Reader(e));
                },
            };
            v as usize
        } else {
            let v: u8 = match r.read_u8() {
                Ok(v) => v,
                Err(e) => {
                    return Err(Error::Reader(e));
                },
            };
            parity = !parity;
            v as usize
        };
        let ghost q = r.pos();
        let enc: Vec<u8> = match r.read_exact(len) {
            Ok(v) => v,
            Err(e) => {
                return Err(Error::Reader(e));
            },
        };
        if len % 2 == 1 {
            parity = !parity;
        }
        let mut dec: Decoder = Decoder::new();
        let line: Vec<u8> = dec.decode(enc.as_slice());
        match dec.finalize() {
            Ok(u) => u,
            Err(e) => {
                return Err(Error::PackBits(e));
            },
        };
        if line.len() % 3 != 0 {
            return Err(Error::InvalidPlanarRow);
        }
        let third: usize = line.len() / 3;
        let ghost out_before = out@;
        let mut p: usize = 0;
        while p < third
            invariant
                p <= third,
                3 * third == line@.len(),
                out@ == out_before + interleave3(line@).take(3 * p),
            decreases third - p,
        {
            out.push(line[p]);
            out.push(line[third + p]);
            out.push(line[2 * third + p]);
            proof {
                let il = interleave3(line@);
                assert(il.len() == line@.len());
                assert(0 <= 3 * p as int && 3 * p as int + 2 < il.len());
                assert((3 * p as int) % 3 == 0 && (3 * p as int) / 3 == p as int)
                    by (nonlinear_arith);
                assert((3 * p as int + 1) % 3 == 1 && (3 * p as int + 1) / 3 == p as int)
                    by (nonlinear_arith);
                assert((3 * p as int + 2) % 3 == 2 && (3 * p as int + 2) / 3 == p as int)
                    by (nonlinear_arith);
                assert(line@.len() / 3 == third as int);
                assert(il[3 * p as int] == line@[p as int]);
                assert(il[3 * p as int + 1] == line@[third + p]);
                assert(il[3 * p as int + 2] == line@[2 * third + p]);
                assert(out@ =~= out_before + il.take(3 * (p + 1)));
            }
            p = p + 1;
        }
        proof {
            assert(interleave3(line@).take(3 * (third as int)) =~= interleave3(line@));
            if sp_rows(s, r.pos(), end, (rows - (i + 1)) as int, row_bytes, parity) is Ok {
                let t2 = sp_rows(s, r.pos(), end, (rows - (i + 1)) as int, row_bytes,
                    parity).unwrap();
                assert((out_before + (interleave3(line@) + t2.0))
                    =~= (out_before + interleave3(line@)) + t2.0);
            }
        }
        i = i + 1;
    }
    proof {
        if sp_rows(s, r.pos(), end, 0, row_bytes, parity) is Ok {
            assert(out@ + Seq::<u8>::empty() =~= out@);
        }
    }
    Ok((out, parity))
}


/// Parse the text opcode's operands.
fn parse_long_text(r: &mut MohawkReader) -> (res: Result<Operation, Error>)
    requires
        old(r).wf(),
    ensures
        final(r).wf(),
        final(r).bytes() == old(r).bytes(),
        final(r).end() == old(r).end(),
        match sp_long_text(old(r).bytes(), old(r).pos(), old(r).end()) {
            Ok(t) => res matches Ok(op) && op_matches(&op, t.0) && final(r).pos() == t.1,
            Err(e) => res matches Err(e2) && e2 == e,
        },
{
    let location: Point = match Point::parse(r) {
        Ok(v) => v,
        Err(e) => {
            return Err(e);
        },
    };
    let count: u8 = match r.read_u8() {
        Ok(v) => v,
        Err(e) => {
            return Err(Error::Reader(e));
        },
    };
    let raw: Vec<u8> = match r.read_exact(count as usize) {
        Ok(v) => v,
        Err(e) => {
            return Err(Error::Reader(e));
        },
    };
    let text: String = match decode_windows_1252(raw.as_slice()) {
        Some(t) => t,
        None => {
            // the windows-1252 decode is total; this arm is unreachable
            proof {
                assert(false);
            }
            return Err(Error::InvalidCP1252Format);
        },
    };
    if count % 2 == 0 {
        match skip_filler(r) {
            Ok(u) => u,
            Err(e) => {
                return Err(e);
            },
        };
    }
    Ok(Operation::LongText { location, text })
}

/// Parse the direct-bits opcode's operands and pixel data.
#[verifier::rlimit(60)]
fn parse_direct_bits(r: &mut MohawkReader) -> (res: Result<Operation, Error>)
    requires
        old(r).wf(),
    ensures
        final(r).wf(),
        final(r).bytes() == old(r).bytes(),
        final(r).end() == old(r).end(),
        match sp_direct_bits(old(r).bytes(), old(r).pos(), old(r).end()) {
            Ok(t) => res matches Ok(op) && op_matches(&op, t.0) && final(r).pos() == t.1,
            Err(e) => res matches Err(e2) && e2 == e,
        },
{
    let pix_map: PixMap = match PixMap::parse(r) {
        Ok(v) => v,
        Err(e) => {
            return Err(e);
        },
    };
    if pix_map.base_addr != 0xFF {
        return Err(Error::InvalidBaseAddress(pix_map.base_addr));
    }
    let source: Rectangle = match Rectangle::parse(r) {
        Ok(v) => v,
        Err(e) => {
            return Err(e);
        },
    };
    let destination: Rectangle = match Rectangle::parse(r) {
        Ok(v) => v,
        Err(e) => {
            return Err(e);
        },
    };
    let mode: u16 = match r.read_u16() {
        Ok(v) => v,
        Err(e) => {
            return Err(Error::Reader(e));
        },
    };
    if pix_map.bounds.bottom < pix_map.bounds.top {
        return Err(Error::InvalidBounds);
    }
    let height: u16 = pix_map.bounds.bottom - pix_map.bounds.top;
    let pix_data: Vec<u8>;
    let parity: bool;
    if pix_map.pack_type == 1 {
        let rb64: u64 = pix_map.row_bytes as u64;
        let h64: u64 = height as u64;
        proof {
            assert(rb64 * h64 <= 0xFFFF_FFFF) by (nonlinear_arith)
                requires
                    rb64 <= 0xFFFF,
                    h64 <= 0xFFFF,
            ;
        }
        if rb64 * h64 > r.remaining_len() as u64 {
            return Err(Error::Reader(crate::reader::Error::UnexpectedEof));
        }
        let size: usize = (rb64 * h64) as usize;
        pix_data = match r.read_exact(size) {
            Ok(v) => v,
            Err(e) => {
                return Err(Error::Reader(e));
            },
        };
        parity = size % 2 == 1;
    } else if pix_map.pack_type == 4 {
        let pair: (Vec<u8>, bool) = match parse_packed_rows(r, height, pix_map.row_bytes) {
            Ok(v) => v,
            Err(e) => {
                return Err(e);
            },
        };
        pix_data = pair.0;
        parity = pair.1;
    } else {
        return Err(Error::UnsupportedPackType(pix_map.pack_type));
    }
    if parity {
        match skip_filler(r) {
            Ok(u) => u,
            Err(e) => {
                return Err(e);
            },
        };
    }
    Ok(Operation::DirectBitsRect { pix_map, source, destination, mode, pix_data })
}

/// Parse the comment opcode's operands.
fn parse_long_comment(r: &mut MohawkReader) -> (res: Result<Operation, Error>)
    requires
        old(r).wf(),
    ensures
        final(r).wf(),
        final(r).bytes() == old(r).bytes(),
        final(r).end() == old(r).end(),
        match sp_long_comment(old(r).bytes(), old(r).pos(), old(r).end()) {
            Ok(t) => res matches Ok(op) && op_matches(&op, t.0) && final(r).pos() == t.1,
            Err(e) => res matches Err(e2) && e2 == e,
        },
{
    let kind: i16 = match r.read_i16() {
        Ok(v) => v,
        Err(e) => {
            return Err(Error::Reader(e));
        },
    };
    let size: u16 = match r.read_u16() {
        Ok(v) => v,
        Err(e) => {
            return Err(Error::Reader(e));
        },
    };
    if size % 2 != 0 {
        return Err(Error::UnevenOpcode(0x00A1));
    }
    let raw: Vec<u8> = match r.read_exact(size as usize) {
        Ok(v) => v,
        Err(e) => {
            return Err(Error::Reader(e));
        },
    };
    let text: String = match decode_windows_1252(raw.as_slice()) {
        Some(t) => t,
        None => {
            // the windows-1252 decode is total; this arm is unreachable
            proof {
                assert(false);
            }
            return Err(Error::InvalidCP1252Format);
        },
    };
    Ok(Operation::LongComment { kind, text })
}

/// Parse the QuickTime opcode's operands and compressed data.
#[verifier::rlimit(60)]
fn parse_compressed_quicktime(r: &mut MohawkReader) -> (res: Result<Operation, Error>)
    requires
        old(r).wf(),
    ensures
        final(r).wf(),
        final(r).bytes() == old(r).bytes(),
        final(r).end() == old(r).end(),
        match sp_compressed_quicktime(old(r).bytes(), old(r).pos(), old(r).end()) {
            Ok(t) => res matches Ok(op) && op_matches(&op, t.0) && final(r).pos() == t.1,
            Err(e) => res matches Err(e2) && e2 == e,
        },
{
    let size: u32 = match r.read_u32() {
        Ok(v) => v,
        Err(e) => {
            return Err(Error::Reader(e));
        },
    };
    if size % 2 != 0 {
        return Err(Error::UnevenQuickTimeSize(size));
    }
    let version: u16 = match r.read_u16() {
        Ok(v) => v,
        Err(e) => {
            return Err(Error::Reader(e));
        },
    };
    let transformation: Vec<u32> = match parse_matrix(r) {
        Ok(v) => v,
        Err(e) => {
            return Err(e);
        },
    };
    let matte_size: u32 = match r.read_u32() {
        Ok(v) => v,
        Err(e) => {
            return Err(Error::Reader(e));
        },
    };
    let matte_rect: Rectangle = match Rectangle::parse(r) {
        Ok(v) => v,
        Err(e) => {
            return Err(e);
        },
    };
    let mode: u16 = match r.read_u16() {
        Ok(v) => v,
        Err(e) => {
            return Err(Error::Reader(e));
        },
    };
    let source: Rectangle = match Rectangle::parse(r) {
        Ok(v) => v,
        Err(e) => {
            return Err(e);
        },
    };
    let accuracy: u32 = match r.read_u32() {
        Ok(v) => v,
        Err(e) => {
            return Err(Error::Reader(e));
        },
    };
    let mask_size: u32 = match r.read_u32() {
        Ok(v) => v,
        Err(e) => {
            return Err(Error::Reader(e));
        },
    };
    if matte_size > 0 {
        return Err(Error::UnsupportedMatte(matte_size));
    }
    if mask_size % 2 != 0 {
        return Err(Error::UnevenOpcode(0x8200));
    }
    if mask_size as u64 > r.remaining_len() as u64 {
        return Err(Error::Reader(crate::reader::Error::UnexpectedEof));
    }
    let mask: Option<Vec<u8>> = if mask_size > 0 {
        let m: Vec<u8> = match r.read_exact(mask_size as usize) {
            Ok(v) => v,
            Err(e) => {
                return Err(Error::Reader(e));
            },
        };
        Some(m)
    } else {
        None
    };
    let desc: ImageDescription = match ImageDescription::parse(r) {
        Ok(v) => v,
        Err(e) => {
            return Err(e);
        },
    };
    if desc.data_size as u64 > r.remaining_len() as u64 {
        return Err(Error::Reader(crate::reader::Error::UnexpectedEof));
    }
    let data: Vec<u8> = match r.read_exact(desc.data_size as usize) {
        Ok(v) => v,
        Err(e) => {
            return Err(Error::Reader(e));
        },
    };
    if (size as u64) < desc.data_size as u64 + 154 || (size as u64) > desc.data_size
        as u64 + 155 {
        return Err(Error::InvalidQuickTimeSize(size));
    }
    if size as u64 == desc.data_size as u64 + 155 {
        match skip_filler(r) {
            Ok(u) => u,
            Err(e) => {
                return Err(e);
            },
        };
    }
    Ok(
        Operation::CompressedQuickTime {
            version,
            transformation,
            matte_rect,
            mode,
            source,
            accuracy,
            mask,
            data,
        },
    )
}

impl Operation {
    /// Parse one opcode from the reader: the tag, its operands, and any
    /// alignment filler.
    #[verifier::rlimit(100)]
    #[verifier::spinoff_prover]
    pub fn parse(r: &mut MohawkReader) -> (res: Result<Operation, Error>)
        requires
            old(r).wf(),
        ensures
            final(r).wf(),
            final(r).bytes() == old(r).bytes(),
            final(r).end() == old(r).end(),
            match sp_operation(old(r).bytes(), old(r).pos(), old(r).end()) {
                Ok(t) => res matches Ok(op) && op_matches(&op, t.0) && final(r).pos() == t.1,
                Err(e) => res matches Err(e2) && e2 == e,
            },
    {
        let tag: u16 = match r.read_u16() {
            Ok(v) => v,
            Err(e) => {
                return Err(Error::Reader(e));
            },
        };
        if tag == 0x0000 {
            Ok(Operation::Nop)
        } else if tag == 0x0001 {
            let size: u16 = match r.read_u16() {
                Ok(v) => v,
                Err(e) => {
                    return Err(Error::Reader(e));
                },
            };
            let bounding: Rectangle = match Rectangle::parse(r) {
                Ok(v) => v,
                Err(e) => {
                    return Err(e);
                },
            };
            Ok(Operation::Clip { size, bounding })
        } else if tag == 0x0003 {
            let font: i16 = match r.read_i16() {
                Ok(v) => v,
                Err(e) => {
                    return Err(Error::Reader(e));
                },
            };
            Ok(Operation::TxFont(font))
        } else if tag == 0x0004 {
            let face: u8 = match r.read_u8() {
                Ok(v) => v,
                Err(e) => {
                    return Err(Error::Reader(e));
                },
            };
            match skip_filler(r) {
                Ok(u) => u,
                Err(e) => {
                    return Err(e);
                },
            };
            Ok(Operation::TxFace(face))
        } else if tag == 0x0007 {
            let point: Point = match Point::parse(r) {
                Ok(v) => v,
                Err(e) => {
                    return Err(e);
                },
            };
            Ok(Operation::PnSize(point))
        } else if tag == 0x000D {
            let size: i16 = match r.read_i16() {
                Ok(v) => v,
                Err(e) => {
                    return Err(Error::Reader(e));
                },
            };
            Ok(Operation::TxSize(size))
        } else if tag == 0x0010 {
            let numerator: Point = match Point::parse(r) {
                Ok(v) => v,
                Err(e) => {
                    return Err(e);
                },
            };
            let denominator: Point = match Point::parse(r) {
                Ok(v) => v,
                Err(e) => {
                    return Err(e);
                },
            };
            Ok(Operation::TxRatio { numerator, denominator })
        } else if tag == 0x0011 {
            Ok(Operation::VersionOp)
        } else if tag == 0x001E {
            Ok(Operation::DefHilite)
        } else if tag == 0x0028 {
            parse_long_text(r)
        } else if tag == 0x009A {
            parse_direct_bits(r)
        } else if tag == 0x00A1 {
            parse_long_comment(r)
        } else if tag == 0x00FF {
            Ok(Operation::OpEndPic)
        } else if tag == 0x02FF {
            Ok(Operation::Version)
        } else if tag == 0x0C00 {
            let version: i16 = match r.read_i16() {
                Ok(v) => v,
                Err(e) => {
                    return Err(Error::Reader(e));
                },
            };
            match r.read_exact(2) {
                Ok(v) => v,
                Err(e) => {
                    return Err(Error::Reader(e));
                },
            };
            let res_h: u32 = match r.read_u32() {
                Ok(v) => v,
                Err(e) => {
                    return Err(Error::Reader(e));
                },
            };
            let res_v: u32 = match r.read_u32() {
                Ok(v) => v,
                Err(e) => {
                    return Err(Error::Reader(e));
                },
            };
            let source: Rectangle = match Rectangle::parse(r) {
                Ok(v) => v,
                Err(e) => {
                    return Err(e);
                },
            };
            match r.read_exact(4) {
                Ok(v) => v,
                Err(e) => {
                    return Err(Error::Reader(e));
                },
            };
            Ok(Operation::HeaderOp { version, resolution: (res_h, res_v), source })
        } else if tag == 0x8200 {
            parse_compressed_quicktime(r)
        } else {
            Err(Error::UnsupportedOpcode(tag))
        }
    }
}

/// One when the flag is set, zero otherwise.
pub open spec fn pbit(b: bool) -> int {
    if b {
        1
    } else {
        0
    }
}

/// The opcode number of a spec-level opcode picture.
pub open spec fn shape_opcode(m: OpShape) -> u16 {
    match m {
        OpShape::Nop => 0x0000,
        OpShape::Clip { .. } => 0x0001,
        OpShape::TxFont(..) => 0x0003,
        OpShape::TxFace(..) => 0x0004,
        OpShape::PnSize(..) => 0x0007,
        OpShape::TxSize(..) => 0x000D,
        OpShape::TxRatio { .. } => 0x0010,
        OpShape::VersionOp => 0x0011,
        OpShape::DefHilite => 0x001E,
        OpShape::LongText { .. } => 0x0028,
        OpShape::DirectBitsRect { .. } => 0x009A,
        OpShape::LongComment { .. } => 0x00A1,
        OpShape::OpEndPic => 0x00FF,
        OpShape::Version => 0x02FF,
        OpShape::HeaderOp { .. } => 0x0C00,
        OpShape::CompressedQuickTime { .. } => 0x8200,
    }
}

/// A parsed operation carries the opcode number of its picture.
pub proof fn lemma_op_matches_opcode(op: &Operation, m: OpShape)
    requires
        op_matches(op, m),
    ensures
        op.spec_opcode() == shape_opcode(m),
{
}

/// Packed rows stay within bounds, and the parity flag tracks exactly
/// whether an odd number of bytes was consumed.
pub proof fn lemma_sp_rows_bounds(
    s: Seq<u8>,
    pos: int,
    end: int,
    rows: int,
    row_bytes: u16,
    parity: bool,
)
    requires
        pos <= end,
    ensures
        sp_rows(s, pos, end, rows, row_bytes, parity) matches Ok(t) ==> pos <= t.1 <= end && (t.1
            - pos + pbit(parity) + pbit(t.2)) % 2 == 0,
    decreases rows, 1int,
{
    if rows > 0 {
        if row_bytes > 250 {
            if pos + 2 <= end {
                lemma_sp_row_tail_bounds(s, pos + 2, end, be16(s, pos) as int, parity, rows,
                    row_bytes);
            }
        } else {
            if pos + 1 <= end {
                lemma_sp_row_tail_bounds(s, pos + 1, end, s[pos] as int, !parity, rows, row_bytes);
            }
        }
    }
}

/// Bounds and parity for the remainder of one packed row.
proof fn lemma_sp_row_tail_bounds(
    s: Seq<u8>,
    q: int,
    end: int,
    len: int,
    parity: bool,
    rows: int,
    row_bytes: u16,
)
    requires
        q <= end,
        len >= 0,
        rows >= 1,
    ensures
        sp_row_tail(s, q, end, len, parity, rows, row_bytes) matches Ok(t) ==> q <= t.1 <= end && (
        t.1 - q + pbit(parity) + pbit(t.2)) % 2 == 0,
    decreases rows, 0int,
{
    if q + len <= end {
        let par2 = if len % 2 == 1 {
            !parity
        } else {
            parity
        };
        lemma_sp_rows_bounds(s, q + len, end, rows - 1, row_bytes, par2);
    }
}

/// An even number times anything is even.
proof fn lemma_even_mul(a: int, b: int)
    requires
        a % 2 == 0,
        0 <= a,
        0 <= b,
    ensures
        (a * b) % 2 == 0,
{
    let k = a / 2;
    assert(a * b == (k * b) * 2) by (nonlinear_arith)
        requires
            a == 2 * k,
    ;
    vstd::arithmetic::div_mod::lemma_mod_multiples_basic(k * b, 2);
}

/// Bounds and evenness of the text opcode's operands.
proof fn lemma_sp_long_text_even(s: Seq<u8>, p: int, end: int)
    ensures
        sp_long_text(s, p, end) matches Ok(t) ==> p <= t.1 <= end && (t.1 - p) % 2 == 0,
{
}

/// Bounds and evenness of the comment opcode's operands.
proof fn lemma_sp_long_comment_even(s: Seq<u8>, p: int, end: int)
    ensures
        sp_long_comment(s, p, end) matches Ok(t) ==> p <= t.1 <= end && (t.1 - p) % 2 == 0,
{
}

/// Bounds and evenness of the direct-bits opcode's operands.
proof fn lemma_sp_direct_bits_even(s: Seq<u8>, p: int, end: int)
    ensures
        sp_direct_bits(s, p, end) matches Ok(t) ==> p <= t.1 <= end && (t.1 - p) % 2 == 0,
{
    if let Ok(pm) = sp_pixmap(s, p, end) {
        let pix_map = pm.0;
        let p1 = pm.1;
        if pix_map.base_addr == 0xFF && p1 + 18 <= end && pix_map.bounds.bottom
            >= pix_map.bounds.top {
            let q = p1 + 18;
            let height = pix_map.bounds.bottom - pix_map.bounds.top;
            if pix_map.pack_type == 1 {
                lemma_even_mul(pix_map.row_bytes as int, height as int);
            } else if pix_map.pack_type == 4 {
                lemma_sp_rows_bounds(s, q, end, height as int, pix_map.row_bytes, false);
            }
        }
    }
}

/// Bounds and evenness of the QuickTime opcode's operands.
#[verifier::rlimit(100)]
#[verifier::spinoff_prover]
proof fn lemma_sp_cqt_even(s: Seq<u8>, p: int, end: int)
    ensures
        sp_compressed_quicktime(s, p, end) matches Ok(t) ==> p <= t.1 <= end && (t.1 - p) % 2
            == 0,
{
    if p + 4 <= end {
        let size = be32(s, p);
        if size % 2 == 0 && p + 6 <= end {
            if let Ok(mat) = sp_matrix(s, p + 6, end) {
                let q2 = mat.1;
                assert(q2 == p + 42);
                if q2 + 30 <= end {
                    let mask_size = be32(s, q2 + 26);
                    let q3 = q2 + 30;
                    if be32(s, q2) == 0 && mask_size % 2 == 0 && q3 + mask_size <= end {
                        let q4 = q3 + mask_size;
                        if let Ok(idm) = sp_image_description(s, q4, end) {
                            let q5 = idm.1;
                            assert(q5 == q4 + 86);
                            let data_size = idm.0.data_size;
                            if q5 + data_size <= end && data_size + 154 <= size <= data_size
                                + 155 {
                                let q6 = q5 + data_size;
                                assert((q6 - p + (size - data_size - 154)) % 2 == 0);
                            }
                        }
                    }
                }
            }
        }
    }
}

/// Every opcode parse moves forward, stays within bounds, and consumes
/// an even number of bytes: the two-byte alignment of the opcode
/// stream.
#[verifier::rlimit(100)]
#[verifier::spinoff_prover]
pub proof fn lemma_sp_operation_even(s: Seq<u8>, pos: int, end: int)
    ensures
        sp_operation(s, pos, end) matches Ok(t) ==> pos + 2 <= t.1 <= end && (t.1 - pos) % 2 == 0,
{
    if pos + 2 <= end {
        let tag = be16(s, pos);
        let p = pos + 2;
        if tag == 0x0028 {
            lemma_sp_long_text_even(s, p, end);
        } else if tag == 0x009A {
            lemma_sp_direct_bits_even(s, p, end);
        } else if tag == 0x00A1 {
            lemma_sp_long_comment_even(s, p, end);
        } else if tag == 0x8200 {
            lemma_sp_cqt_even(s, p, end);
        }
    }
}

} // verus!
