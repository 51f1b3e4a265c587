//! Points and rectangles as QuickDraw stores them: big-endian 16-bit
//! coordinates.

use vstd::prelude::*;
use crate::reader::MohawkReader;
use crate::reader::be16;
use crate::pict::Error;

verus! {

broadcast use crate::reader::lemma_reader_bounds;

/// A QuickDraw point.
#[derive(Debug, Clone, Copy, PartialEq, Eq, Structural)]
pub struct Point {
    pub x: u16,
    pub y: u16,
}

/// A QuickDraw rectangle.
#[derive(Debug, Clone, Copy, PartialEq, Eq, Structural)]
pub struct Rectangle {
    pub top: u16,
    pub left: u16,
    pub bottom: u16,
    pub right: u16,
}

/// Parse a point at `pos`: two big-endian 16-bit values.
pub open spec fn sp_point(s: Seq<u8>, pos: int, end: int) -> Result<(Point, int), Error> {
    if pos + 4 > end {
        Err(Error::Reader(crate::reader::Error::UnexpectedEof))
    } else {
        Ok((Point { x: be16(s, pos), y: be16(s, pos + 2) }, pos + 4))
    }
}

/// Parse a rectangle at `pos`: top, left, bottom, right.
pub open spec fn sp_rect(s: Seq<u8>, pos: int, end: int) -> Result<(Rectangle, int), Error> {
    if pos + 8 > end {
        Err(Error::Reader(crate::reader::Error::UnexpectedEof))
    } else {
        Ok(
            (
                Rectangle {
                    top: be16(s, pos),
                    left: be16(s, pos + 2),
                    bottom: be16(s, pos + 4),
                    right: be16(s, pos + 6),
                },
                pos + 8,
            ),
        )
    }
}

impl Point {
    /// Read a point from the reader.
    pub fn parse(r: &mut MohawkReader) -> (res: Result<Point, Error>)
        requires
            old(r).wf(),
        ensures
            final(r).wf(),
            final(r).bytes() == old(r).bytes(),
            final(r).end() == old(r).end(),
            match sp_point(old(r).bytes(), old(r).pos(), old(r).end()) {
                Ok(p) => res == Result::<Point, Error>::Ok(p.0) && final(r).pos() == p.1,
                Err(e) => res == Result::<Point, Error>::Err(e),
            },
    {
        let x: u16 = match r.read_u16() {
            Ok(v) => v,
            Err(e) => {
                return Err(Error::Reader(e));
            },
        };
        let y: u16 = match r.read_u16() {
            Ok(v) => v,
            Err(e) => {
                return Err(Error::Reader(e));
            },
        };
        Ok(Point { x, y })
    }
}

impl Rectangle {
    /// Read a rectangle from the reader.
    pub fn parse(r: &mut MohawkReader) -> (res: Result<Rectangle, Error>)
        requires
            old(r).wf(),
        ensures
            final(r).wf(),
            final(r).bytes() == old(r).bytes(),
            final(r).end() == old(r).end(),
            match sp_rect(old(r).bytes(), old(r).pos(), old(r).end()) {
                Ok(p) => res == Result::<Rectangle, Error>::Ok(p.0) && final(r).pos() == p.1,
                Err(e) => res == Result::<Rectangle, Error>::Err(e),
            },
    {
        let top: u16 = match r.read_u16() {
            Ok(v) => v,
            Err(e) => {
                return Err(Error::Reader(e));
            },
        };
        let left: u16 = match r.read_u16() {
            Ok(v) => v,
            Err(e) => {
                return Err(Error::Reader(e));
            },
        };
        let bottom: u16 = match r.read_u16() {
            Ok(v) => v,
            Err(e) => {
                return Err(Error::Reader(e));
            },
        };
        let right: u16 = match r.read_u16() {
            Ok(v) => v,
            Err(e) => {
                return Err(Error::Reader(e));
            },
        };
        Ok(Rectangle { top, left, bottom, right })
    }
}

} // verus!
