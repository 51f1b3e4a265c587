//! Reader for Mohawk archive files and the resources they embed.
//!
//! A Mohawk archive is an IFF/RSRC container holding typed, numbered
//! resources.  This crate parses the archive's index tables into a
//! catalogue, exposes each resource as a bounded byte range, decodes the
//! PICT images found inside, and provides the PackBits run-length codec
//! that the PICT pixel data uses.

#![verifier::loop_isolation(false)]

pub mod geometry;
pub mod mohawk;
pub mod operation;
pub mod packbits;
pub mod pict;
pub mod pixmap;
pub mod quicktime;
pub mod reader;
pub mod text;
