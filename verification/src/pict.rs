//! PICT images: the assembler that drives the opcode stream.
//!
//! A PICT resource is a 512-byte null header, a size word and bounding
//! rectangle, then a stream of QuickDraw opcodes.  The stream must open
//! with `VersionOp`, `Version`, `HeaderOp` and ends at `OpEndPic`; on
//! the way exactly one image-bearing opcode is expected, either a
//! QuickTime-compressed image (JPEG bytes) or a direct-bits rectangle
//! (decoded RGB24 pixels).

use vstd::prelude::*;
use crate::reader::MohawkReader;
use crate::geometry::Rectangle;
use crate::operation::OpShape;
use crate::operation::Operation;
use crate::operation::lemma_op_matches_opcode;
use crate::operation::lemma_sp_operation_even;
use crate::operation::op_matches;
use crate::operation::shape_opcode;
use crate::operation::sp_operation;

verus! {

broadcast use crate::reader::lemma_reader_bounds;

/// Errors of the PICT layer.  Invariants that QuickDraw writers never
/// break (base address, alignment, matte, padding) are surfaced as
/// errors on malformed input rather than aborts.
#[derive(Debug, Clone, Copy, PartialEq, Eq, Structural)]
pub enum Error {
    /// An underlying read failed.
    Reader(crate::reader::Error),
    /// The 512-byte header holds a nonzero byte.
    NonEmptyHeader,
    /// The version opcode carries an unsupported version.
    UnsupportedVersion(u8),
    /// The header opcode carries a version other than the supported one.
    UnsupportedHeaderVersion(i16),
    /// An opcode number this parser does not recognise.
    UnsupportedOpcode(u16),
    /// A recognised opcode in a position where another was required.
    UnexpectedOpcode(u16),
    /// Text operand bytes that windows-1252 cannot decode.
    InvalidCP1252Format,
    /// A name that strict UTF-8 cannot decode.
    InvalidUtf8,
    /// Readable bytes remain after the end-of-picture opcode.
    DataRemaining,
    /// The stream ended without yielding an image.
    UnableToFindImage,
    /// A filler byte was not zero.
    InvalidFiller(u8),
    /// An opcode whose operands would end at an odd offset.
    UnevenOpcode(u16),
    /// A pixel map whose base address field is not the expected marker.
    InvalidBaseAddress(u32),
    /// A pixel map row stride that is odd or carries a set flag bit.
    InvalidRowBytes(u16),
    /// A pixel map version other than zero.
    InvalidPixMapVersion(u16),
    /// A pixel map packing scheme this parser does not support.
    UnsupportedPackType(u16),
    /// A nonzero pack size on an unpacked pixel map.
    InvalidPackSize(u32),
    /// A pixel type that is neither indexed nor direct.
    InvalidPixelType(u16),
    /// A rectangle whose bottom-right corner lies above or left of its
    /// top-left corner.
    InvalidBounds,
    /// A packed pixel row whose run-length data ends mid-run.
    PackBits(crate::packbits::Error),
    /// A packed pixel row whose length is not a multiple of three.
    InvalidPlanarRow,
    /// A QuickTime image with an odd declared size.
    UnevenQuickTimeSize(u32),
    /// A QuickTime image with matte data, which is not supported.
    UnsupportedMatte(u32),
    /// A QuickTime image whose declared size contradicts its payload.
    InvalidQuickTimeSize(u32),
    /// An image description whose structure size is not the fixed one.
    InvalidImageDescriptionSize(u32),
    /// An image description name longer than its fixed field.
    InvalidPascalString(u8),
    /// A second image-bearing opcode in one picture.
    ImageAlreadyFound,
}

/// A decoded PICT image.
#[derive(Debug)]
pub enum PICT {
    /// A QuickTime-compressed image: the embedded JPEG bytes.
    JPEG(Vec<u8>),
    /// A direct-bits image: packed RGB triples, row after row.
    RGB24 { width: usize, height: usize, data: Vec<u8> },
}

/// Spec-level picture of a decoded PICT image.
pub enum PictModel {
    JPEG(Seq<u8>),
    RGB24 { width: int, height: int, data: Seq<u8> },
}

/// A decoded image beside its spec-level picture.
pub open spec fn pict_matches(p: &PICT, m: PictModel) -> bool {
    match m {
        PictModel::JPEG(d) => p matches PICT::JPEG(v) && v@ == d,
        PictModel::RGB24 { width, height, data } => p matches PICT::RGB24 {
            width: w2,
            height: h2,
            data: d2,
        } && w2 == width && h2 == height && d2@ == data,
    }
}

/// Drive the opcode stream from `pos` until the end-of-picture opcode
/// or the end of the bytes: drawing opcodes are parsed and discarded,
/// the two image-bearing opcodes each yield the picture's single image
/// (a second one is an error), the three preamble opcodes may not
/// reappear, a stream that ends without an image is an error, and after
/// the end-of-picture opcode no readable byte may remain.
pub open spec fn sp_pict_ops(s: Seq<u8>, pos: int, end: int, img: Option<PictModel>) -> Result<
    PictModel,
    Error,
>
    decreases end - pos,
        via sp_pict_ops_dec
{
    if pos >= end {
        match img {
            None => Err(Error::UnableToFindImage),
            Some(m) => Ok(m),
        }
    } else {
        match sp_operation(s, pos, end) {
            Err(e) => Err(e),
            Ok(t) => {
                let p2 = t.1;
                match t.0 {
                    OpShape::OpEndPic => {
                        if p2 < end {
                            Err(Error::DataRemaining)
                        } else {
                            match img {
                                None => Err(Error::UnableToFindImage),
                                Some(m) => Ok(m),
                            }
                        }
                    },
                    OpShape::VersionOp => Err(Error::UnexpectedOpcode(0x0011)),
                    OpShape::Version => Err(Error::UnexpectedOpcode(0x02FF)),
                    OpShape::HeaderOp { .. } => Err(Error::UnexpectedOpcode(0x0C00)),
                    OpShape::CompressedQuickTime { data, .. } => {
                        if img is Some {
                            Err(Error::ImageAlreadyFound)
                        } else {
                            sp_pict_ops(s, p2, end, Some(PictModel::JPEG(data)))
                        }
                    },
                    OpShape::DirectBitsRect { destination, pix_data, .. } => {
                        if img is Some {
                            Err(Error::ImageAlreadyFound)
                        } else if destination.right < destination.left || destination.bottom
                            < destination.top {
                            Err(Error::InvalidBounds)
                        } else {
                            sp_pict_ops(
                                s,
                                p2,
                                end,
                                Some(
                                    PictModel::RGB24 {
                                        width: destination.right - destination.left,
                                        height: destination.bottom - destination.top,
                                        data: pix_data,
                                    },
                                ),
                            )
                        }
                    },
                    _ => sp_pict_ops(s, p2, end, img),
                }
            },
        }
    }
}

#[via_fn]
proof fn sp_pict_ops_dec(s: Seq<u8>, pos: int, end: int, img: Option<PictModel>) {
    if pos < end {
        lemma_sp_operation_even(s, pos, end);
    }
}

/// Parse the fixed front matter of a PICT resource at `pos`: 512 zero
/// bytes, a size word and bounding rectangle (both ignored), then the
/// `VersionOp`, `Version` and `HeaderOp` preamble with the supported
/// header version.  Returns the offset of the first stream opcode.
pub open spec fn sp_preamble(s: Seq<u8>, pos: int, end: int) -> Result<int, Error> {
    if pos + 512 > end {
        Err(Error::Reader(crate::reader::Error::UnexpectedEof))
    } else if exists|i: int| pos <= i < pos + 512 && s[i] != 0 {
        Err(Error::NonEmptyHeader)
    } else if pos + 522 > end {
        Err(Error::Reader(crate::reader::Error::UnexpectedEof))
    } else {
        match sp_operation(s, pos + 522, end) {
            Err(e) => Err(e),
            Ok(t1) => {
                if shape_opcode(t1.0) != 0x0011 {
                    Err(Error::UnexpectedOpcode(shape_opcode(t1.0)))
                } else {
                    match sp_operation(s, t1.1, end) {
                        Err(e) => Err(e),
                        Ok(t2) => {
                            if shape_opcode(t2.0) != 0x02FF {
                                Err(Error::UnexpectedOpcode(shape_opcode(t2.0)))
                            } else {
                                match sp_operation(s, t2.1, end) {
                                    Err(e) => Err(e),
                                    Ok(t3) => match t3.0 {
                                        OpShape::HeaderOp { version, .. } => {
                                            if version != -2 {
                                                Err(Error::UnsupportedHeaderVersion(version))
                                            } else {
                                                Ok(t3.1)
                                            }
                                        },
                                        _ => Err(Error::UnexpectedOpcode(shape_opcode(t3.0))),
                                    },
                                }
                            }
                        },
                    }
                }
            },
        }
    }
}

/// Parse a whole PICT resource at `pos`: the front matter, then the
/// opcode stream driven to its single image.
pub open spec fn sp_pict(s: Seq<u8>, pos: int, end: int) -> Result<PictModel, Error> {
    match sp_preamble(s, pos, end) {
        Err(e) => Err(e),
        Ok(p) => sp_pict_ops(s, p, end, None),
    }
}

/// Law: a PICT resource that decodes successfully begins with 512 zero
/// bytes, and its first three opcodes are `VersionOp`, `Version` and
/// `HeaderOp` carrying the supported header version.
pub proof fn lemma_pict_header_invariant(s: Seq<u8>, pos: int, end: int)
    requires
        sp_pict(s, pos, end) is Ok,
    ensures
        forall|i: int| pos <= i < pos + 512 ==> s[i] == 0,
        match sp_operation(s, pos + 522, end) {
            Ok(t1) => shape_opcode(t1.0) == 0x0011 && match sp_operation(s, t1.1, end) {
                Ok(t2) => shape_opcode(t2.0) == 0x02FF && match sp_operation(s, t2.1, end) {
                    Ok(t3) => t3.0 matches OpShape::HeaderOp { version, .. } && version == -2,
                    Err(e) => false,
                },
                Err(e) => false,
            },
            Err(e) => false,
        },
{
}

/// Parse the next opcode and require a particular one.
fn expect_op(r: &mut MohawkReader, expected: u16) -> (res: Result<Operation, Error>)
    requires
        old(r).wf(),
    ensures
        final(r).wf(),
        final(r).bytes() == old(r).bytes(),
        final(r).end() == old(r).end(),
        match sp_operation(old(r).bytes(), old(r).pos(), old(r).end()) {
            Ok(t) => if shape_opcode(t.0) == expected {
                res matches Ok(op) && op_matches(&op, t.0) && final(r).pos() == t.1
            } else {
                res == Result::<Operation, Error>::Err(
                    Error::UnexpectedOpcode(shape_opcode(t.0)),
                )
            },
            Err(e) => res matches Err(e2) && e2 == e,
        },
{
    let op: Operation = match Operation::parse(r) {
        Ok(v) => v,
        Err(e) => {
            return Err(e);
        },
    };
    proof {
        if let Ok(t) = sp_operation(old(r).bytes(), old(r).pos(), old(r).end()) {
            lemma_op_matches_opcode(&op, t.0);
        }
    }
    let code: u16 = op.opcode();
    if code != expected {
        return Err(Error::UnexpectedOpcode(code));
    }
    Ok(op)
}

/// Read and validate the fixed front matter of a PICT resource.
#[verifier::rlimit(100)]
#[verifier::spinoff_prover]
fn parse_preamble(r: &mut MohawkReader) -> (res: Result<(), Error>)
    requires
        old(r).wf(),
    ensures
        final(r).wf(),
        final(r).bytes() == old(r).bytes(),
        final(r).end() == old(r).end(),
        match sp_preamble(old(r).bytes(), old(r).pos(), old(r).end()) {
            Ok(p) => res is Ok && final(r).pos() == p,
            Err(e) => res matches Err(e2) && e2 == e,
        },
{
    let ghost s = r.bytes();
    let ghost pos0 = r.pos();
    let header: Vec<u8> = match r.read_exact(512) {
        Ok(v) => v,
        Err(e) => {
            return Err(Error::Reader(e));
        },
    };
    let n: usize = header.len();
    let mut i: usize = 0;
    while i < n
        invariant
            i <= n,
            n == 512,
            header@ == s.subrange(pos0, pos0 + 512),
            forall|j: int| 0 <= j < i ==> header@[j] == 0,
        decreases n - i,
    {
        if header[i] != 0 {
            return Err(Error::NonEmptyHeader);
        }
        i = i + 1;
    }
    proof {
        assert(forall|k: int| pos0 <= k < pos0 + 512 ==> s[k] == header@[k - pos0] && s[k] == 0);
    }
    match r.read_u16() {
        Ok(v) => v,
        Err(e) => {
            return Err(Error::Reader(e));
        },
    };
    match Rectangle::parse(r) {
        Ok(v) => v,
        Err(e) => {
            return Err(e);
        },
    };
    match expect_op(r, 0x0011) {
        Ok(v) => v,
        Err(e) => {
            return Err(e);
        },
    };
    match expect_op(r, 0x02FF) {
        Ok(v) => v,
        Err(e) => {
            return Err(e);
        },
    };
    let header_op: Operation = match expect_op(r, 0x0C00) {
        Ok(v) => v,
        Err(e) => {
            return Err(e);
        },
    };
    match header_op {
        Operation::HeaderOp { version, .. } => {
            if version != -2 {
                return Err(Error::UnsupportedHeaderVersion(version));
            }
        },
        _ => {
            // expect_op already pinned the opcode to the header opcode
            proof {
                assert(false);
            }
            return Err(Error::UnsupportedVersion(0));
        },
    }
    Ok(())
}

/// Drive the opcode stream to its single image.
#[verifier::rlimit(100)]
#[verifier::spinoff_prover]
fn drive_ops(r: &mut MohawkReader) -> (res: Result<PICT, Error>)
    requires
        old(r).wf(),
    ensures
        match sp_pict_ops(old(r).bytes(), old(r).pos(), old(r).end(), None) {
            Ok(m) => res matches Ok(p) && pict_matches(&p, m),
            Err(e) => res matches Err(e2) && e2 == e,
        },
{
    let ghost s = r.bytes();
    let ghost pos0 = r.pos();
    let ghost end = r.end();
    let mut image: Option<PICT> = None;
    let ghost mut gimg: Option<PictModel> = None;
    loop
        invariant
            r.wf(),
            r.bytes() == s,
            r.end() == end,
            match gimg {
                None => image is None,
                Some(m) => image matches Some(p) && pict_matches(&p, m),
            },
            sp_pict_ops(s, pos0, end, None) == sp_pict_ops(s, r.pos(), end, gimg),
        decreases r.end() - r.pos() + 1,
    {
        if r.remaining_len() == 0 {
            match image {
                Some(p) => {
                    return Ok(p);
                },
                None => {
                    return Err(Error::UnableToFindImage);
                },
            }
        }
        let ghost cur = r.pos();
        proof {
            lemma_sp_operation_even(s, cur, end);
        }
        let op: Operation = match Operation::parse(r) {
            Ok(v) => v,
            Err(e) => {
                return Err(e);
            },
        };
        let ghost shape = sp_operation(s, cur, end).unwrap().0;
        proof {
            lemma_op_matches_opcode(&op, shape);
        }
        match op {
            Operation::OpEndPic => {
                if r.remaining_len() > 0 {
                    return Err(Error::DataRemaining);
                }
                match image {
                    Some(p) => {
                        return Ok(p);
                    },
                    None => {
                        return Err(Error::UnableToFindImage);
                    },
                }
            },
            Operation::VersionOp => {
                return Err(Error::UnexpectedOpcode(0x0011));
            },
            Operation::Version => {
                return Err(Error::UnexpectedOpcode(0x02FF));
            },
            Operation::HeaderOp { .. } => {
                return Err(Error::UnexpectedOpcode(0x0C00));
            },
            Operation::CompressedQuickTime { data, .. } => {
                if image.is_some() {
                    return Err(Error::ImageAlreadyFound);
                }
                proof {
                    gimg = Some(
                        PictModel::JPEG(
                            match shape {
                                OpShape::CompressedQuickTime { data: d, .. } => d,
                                _ => Seq::empty(),
                            },
                        ),
                    );
                }
                image = Some(PICT::JPEG(data));
            },
            Operation::DirectBitsRect { destination, pix_data, .. } => {
                if image.is_some() {
                    return Err(Error::ImageAlreadyFound);
                }
                if destination.right < destination.left || destination.bottom
                    < destination.top {
                    return Err(Error::InvalidBounds);
                }
                let width: usize = (destination.right - destination.left) as usize;
                let height: usize = (destination.bottom - destination.top) as usize;
                proof {
                    gimg = Some(
                        PictModel::RGB24 {
                            width: width as int,
                            height: height as int,
                            data: match shape {
                                OpShape::DirectBitsRect { pix_data: d, .. } => d,
                                _ => Seq::empty(),
                            },
                        },
                    );
                }
                image = Some(PICT::RGB24 { width, height, data: pix_data });
            },
            _ => {
            },
        }
    }
}

impl PICT {
    /// Decode a PICT resource from a bounded reader: validate the null
    /// header and preamble, then drive the opcode stream to its single
    /// image.
    pub fn parse(reader: MohawkReader) -> (res: Result<PICT, Error>)
        requires
            reader.wf(),
        ensures
            match sp_pict(reader.bytes(), reader.pos(), reader.end()) {
                Ok(m) => res matches Ok(p) && pict_matches(&p, m),
                Err(e) => res matches Err(e2) && e2 == e,
            },
    {
        let mut r: MohawkReader = reader;
        match parse_preamble(&mut r) {
            Ok(u) => u,
            Err(e) => {
                return Err(e);
            },
        };
        drive_ops(&mut r)
    }
}

} // verus!
