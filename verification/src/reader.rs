//! Positioned reader over the bytes of an archive.
//!
//! Many logical cursors share one refcounted byte buffer.  Each reader
//! carries its own position and an exclusive upper bound; a sub-stream
//! (`take`) narrows the bound without disturbing its parent.  All
//! multi-byte reads are big-endian.

use vstd::prelude::*;
use std::rc::Rc;
use crate::text::string_from_utf8;
use crate::text::utf8_chars;
use crate::text::is_utf8;

verus! {

/// Errors of the byte-level reader.
#[derive(Debug, Clone, Copy, PartialEq, Eq, Structural)]
pub enum Error {
    /// A read ran past the end of the readable range.
    UnexpectedEof,
    /// A null-terminated name was not valid UTF-8.
    InvalidUtf8,
}

/// Big-endian 16-bit value at offset `i`.
pub open spec fn be16(s: Seq<u8>, i: int) -> u16 {
    (s[i] * 0x100 + s[i + 1]) as u16
}

/// Big-endian 32-bit value at offset `i`.
pub open spec fn be32(s: Seq<u8>, i: int) -> u32 {
    (s[i] * 0x1000000 + s[i + 1] * 0x10000 + s[i + 2] * 0x100 + s[i + 3]) as u32
}

/// Big-endian 64-bit value at offset `i`.
pub open spec fn be64(s: Seq<u8>, i: int) -> u64 {
    (be32(s, i) * 0x100000000 + be32(s, i + 4)) as u64
}

/// The signed value carried by a 16-bit two's-complement word.
pub open spec fn i16_of(u: u16) -> int {
    if u < 0x8000 {
        u as int
    } else {
        u - 0x10000
    }
}

/// Big-endian 16-bit signed value at offset `i`.
pub open spec fn be_i16(s: Seq<u8>, i: int) -> i16 {
    i16_of(be16(s, i)) as i16
}

/// Offset of the first zero byte in `s[i..end]`, if any.
pub open spec fn first_zero(s: Seq<u8>, i: int, end: int) -> Option<int>
    decreases end - i,
{
    if i < 0 || i >= end {
        None
    } else if s[i] == 0 {
        Some(i)
    } else {
        first_zero(s, i + 1, end)
    }
}

/// Reinterpret a 16-bit word as its two's-complement signed value.
pub fn u16_to_i16(u: u16) -> (r: i16)
    ensures
        r as int == i16_of(u),
{
    if u < 0x8000 {
        u as i16
    } else {
        let t: i16 = (0xFFFFu16 - u) as i16;
        -t - 1
    }
}

/// A bounded, independently positioned view over shared archive bytes.
#[derive(Debug)]
pub struct MohawkReader {
    data: Rc<Vec<u8>>,
    pos: usize,
    end: usize,
}

impl MohawkReader {
    /// The underlying bytes (shared by every reader on the archive).
    pub closed spec fn bytes(&self) -> Seq<u8> {
        self.data@
    }

    /// Current read position.
    pub closed spec fn pos(&self) -> int {
        self.pos as int
    }

    /// Exclusive upper bound of the readable range.
    pub closed spec fn end(&self) -> int {
        self.end as int
    }

    /// The bound never exceeds the buffer.
    pub closed spec fn wf(&self) -> bool {
        self.end <= self.data@.len()
    }

    /// Readable bytes left before the bound.
    pub open spec fn remaining(&self) -> int {
        if self.pos() <= self.end() {
            self.end() - self.pos()
        } else {
            0
        }
    }

    /// The next `n` bytes are within the readable range.
    pub open spec fn can_read(&self, n: int) -> bool {
        self.pos() + n <= self.end()
    }

    /// `b` is the sub-stream of `a` bounded to `size` bytes.
    pub open spec fn take_rel(a: &MohawkReader, size: usize, b: &MohawkReader) -> bool {
        &&& b.bytes() == a.bytes()
        &&& b.pos() == a.pos()
        &&& b.end() == if a.pos() + size <= a.end() {
            a.pos() + size
        } else {
            a.end()
        }
    }

    /// Reader over a whole in-memory byte buffer.
    pub fn new(data: Vec<u8>) -> (r: Self)
        ensures
            r.wf(),
            r.bytes() == data@,
            r.pos() == 0,
            r.end() == data@.len(),
    {
        let end: usize = data.len();
        MohawkReader { data: Rc::new(data), pos: 0, end }
    }

    /// New reader sharing the same bytes, bounded to at most `size`
    /// bytes from the current position.
    pub fn take(&self, size: usize) -> (r: Self)
        requires
            self.wf(),
        ensures
            r.wf(),
            Self::take_rel(self, size, &r),
            r.remaining() == if self.remaining() < size {
                self.remaining()
            } else {
                size as int
            },
    {
        let end: usize = if self.pos <= self.end && size <= self.end - self.pos {
            self.pos + size
        } else {
            self.end
        };
        MohawkReader { data: self.data.clone(), pos: self.pos, end }
    }

    /// A second cursor over the same bytes, at the same position and
    /// with the same bound.
    pub fn dup(&self) -> (r: Self)
        requires
            self.wf(),
        ensures
            r.wf(),
            r.bytes() == self.bytes(),
            r.pos() == self.pos(),
            r.end() == self.end(),
    {
        MohawkReader { data: self.data.clone(), pos: self.pos, end: self.end }
    }

    /// Absolute seek from a 64-bit offset; a target beyond the bound
    /// stops at the bound, where every read reports end of stream, as it
    /// would at the target itself.
    pub fn seek_to(&mut self, target: u64)
        requires
            old(self).wf(),
        ensures
            final(self).wf(),
            final(self).bytes() == old(self).bytes(),
            final(self).end() == old(self).end(),
            final(self).pos() == if target <= old(self).end() {
                target as int
            } else {
                old(self).end()
            },
    {
        if target <= self.end as u64 {
            self.pos = target as usize;
        } else {
            self.pos = self.end;
        }
    }

    /// Current position.
    pub fn stream_position(&self) -> (r: usize)
        ensures
            r == self.pos(),
    {
        self.pos
    }

    /// Readable bytes left before the bound.
    pub fn remaining_len(&self) -> (r: usize)
        ensures
            r == self.remaining(),
    {
        if self.pos <= self.end {
            self.end - self.pos
        } else {
            0
        }
    }

    /// Absolute seek.
    pub fn seek(&mut self, to: usize)
        requires
            old(self).wf(),
        ensures
            final(self).wf(),
            final(self).bytes() == old(self).bytes(),
            final(self).end() == old(self).end(),
            final(self).pos() == to,
    {
        self.pos = to;
    }

    /// Relative forward seek.
    pub fn skip(&mut self, n: usize)
        requires
            old(self).wf(),
            old(self).pos() + n <= usize::MAX,
        ensures
            final(self).wf(),
            final(self).bytes() == old(self).bytes(),
            final(self).end() == old(self).end(),
            final(self).pos() == old(self).pos() + n,
    {
        self.pos = self.pos + n;
    }

    /// Read one byte.
    pub fn read_u8(&mut self) -> (r: Result<u8, Error>)
        requires
            old(self).wf(),
        ensures
            final(self).wf(),
            final(self).bytes() == old(self).bytes(),
            final(self).end() == old(self).end(),
            if old(self).can_read(1) {
                r == Result::<u8, Error>::Ok(old(self).bytes()[old(self).pos()])
                    && final(self).pos() == old(self).pos() + 1
            } else {
                r == Result::<u8, Error>::Err(Error::UnexpectedEof)
                    && final(self).pos() == old(self).pos()
            },
    {
        if self.pos < self.end && self.end - self.pos >= 1 {
            let v: &Vec<u8> = &*self.data;
            let b: u8 = v[self.pos];
            self.pos = self.pos + 1;
            Ok(b)
        } else {
            Err(Error::UnexpectedEof)
        }
    }

    /// Read a big-endian 16-bit value.
    pub fn read_u16(&mut self) -> (r: Result<u16, Error>)
        requires
            old(self).wf(),
        ensures
            final(self).wf(),
            final(self).bytes() == old(self).bytes(),
            final(self).end() == old(self).end(),
            if old(self).can_read(2) {
                r == Result::<u16, Error>::Ok(be16(old(self).bytes(), old(self).pos()))
                    && final(self).pos() == old(self).pos() + 2
            } else {
                r == Result::<u16, Error>::Err(Error::UnexpectedEof)
                    && final(self).pos() == old(self).pos()
            },
    {
        if self.pos < self.end && self.end - self.pos >= 2 {
            let v: &Vec<u8> = &*self.data;
            let b0: u16 = v[self.pos] as u16;
            let b1: u16 = v[self.pos + 1] as u16;
            self.pos = self.pos + 2;
            Ok(b0 * 0x100 + b1)
        } else {
            Err(Error::UnexpectedEof)
        }
    }

    /// Read a big-endian 16-bit signed value.
    pub fn read_i16(&mut self) -> (r: Result<i16, Error>)
        requires
            old(self).wf(),
        ensures
            final(self).wf(),
            final(self).bytes() == old(self).bytes(),
            final(self).end() == old(self).end(),
            if old(self).can_read(2) {
                r == Result::<i16, Error>::Ok(be_i16(old(self).bytes(), old(self).pos()))
                    && final(self).pos() == old(self).pos() + 2
            } else {
                r == Result::<i16, Error>::Err(Error::UnexpectedEof)
                    && final(self).pos() == old(self).pos()
            },
    {
        match self.read_u16() {
            Ok(u) => Ok(u16_to_i16(u)),
            Err(e) => Err(e),
        }
    }

    /// Read a big-endian 32-bit value.
    pub fn read_u32(&mut self) -> (r: Result<u32, Error>)
        requires
            old(self).wf(),
        ensures
            final(self).wf(),
            final(self).bytes() == old(self).bytes(),
            final(self).end() == old(self).end(),
            if old(self).can_read(4) {
                r == Result::<u32, Error>::Ok(be32(old(self).bytes(), old(self).pos()))
                    && final(self).pos() == old(self).pos() + 4
            } else {
                r == Result::<u32, Error>::Err(Error::UnexpectedEof)
                    && final(self).pos() == old(self).pos()
            },
    {
        if self.pos < self.end && self.end - self.pos >= 4 {
            let v: &Vec<u8> = &*self.data;
            let b0: u32 = v[self.pos] as u32;
            let b1: u32 = v[self.pos + 1] as u32;
            let b2: u32 = v[self.pos + 2] as u32;
            let b3: u32 = v[self.pos + 3] as u32;
            self.pos = self.pos + 4;
            Ok(b0 * 0x1000000 + b1 * 0x10000 + b2 * 0x100 + b3)
        } else {
            Err(Error::UnexpectedEof)
        }
    }

    /// Read a big-endian 64-bit value.
    pub fn read_u64(&mut self) -> (r: Result<u64, Error>)
        requires
            old(self).wf(),
        ensures
            final(self).wf(),
            final(self).bytes() == old(self).bytes(),
            final(self).end() == old(self).end(),
            if old(self).can_read(8) {
                r == Result::<u64, Error>::Ok(be64(old(self).bytes(), old(self).pos()))
                    && final(self).pos() == old(self).pos() + 8
            } else {
                r == Result::<u64, Error>::Err(Error::UnexpectedEof)
                    && final(self).pos() == old(self).pos()
            },
    {
        if self.pos < self.end && self.end - self.pos >= 8 {
            let hi: u64 = match self.read_u32() {
                Ok(x) => x as u64,
                Err(e) => {
                    return Err(e);
                },
            };
            let lo: u64 = match self.read_u32() {
                Ok(x) => x as u64,
                Err(e) => {
                    return Err(e);
                },
            };
            Ok(hi * 0x100000000 + lo)
        } else {
            Err(Error::UnexpectedEof)
        }
    }

    /// Read exactly `n` bytes.
    pub fn read_exact(&mut self, n: usize) -> (r: Result<Vec<u8>, Error>)
        requires
            old(self).wf(),
        ensures
            final(self).wf(),
            final(self).bytes() == old(self).bytes(),
            final(self).end() == old(self).end(),
            if old(self).can_read(n as int) {
                r matches Ok(v) && v@ == old(self).bytes().subrange(
                    old(self).pos(), old(self).pos() + n)
                    && final(self).pos() == old(self).pos() + n
            } else {
                r == Result::<Vec<u8>, Error>::Err(Error::UnexpectedEof)
                    && final(self).pos() == old(self).pos()
            },
    {
        if self.pos <= self.end && self.end - self.pos >= n {
            let v: &Vec<u8> = &*self.data;
            let mut out: Vec<u8> = Vec::new();
            let mut j: usize = 0;
            while j < n
                invariant
                    j <= n,
                    self.pos + n <= self.end <= v@.len(),
                    v@ == self.data@,
                    out@ == self.data@.subrange(self.pos as int, self.pos + j),
                decreases n - j,
            {
                out.push(v[self.pos + j]);
                proof {
                    assert(out@ =~= self.data@.subrange(self.pos as int, self.pos + j + 1));
                }
                j = j + 1;
            }
            self.pos = self.pos + n;
            Ok(out)
        } else {
            Err(Error::UnexpectedEof)
        }
    }

    /// Read a fixed 4-byte array, as used by format tags.
    pub fn read_4_bytes(&mut self) -> (r: Result<[u8; 4], Error>)
        requires
            old(self).wf(),
        ensures
            final(self).wf(),
            final(self).bytes() == old(self).bytes(),
            final(self).end() == old(self).end(),
            if old(self).can_read(4) {
                r matches Ok(a) && a@ == old(self).bytes().subrange(
                    old(self).pos(), old(self).pos() + 4)
                    && final(self).pos() == old(self).pos() + 4
            } else {
                r == Result::<[u8; 4], Error>::Err(Error::UnexpectedEof)
                    && final(self).pos() == old(self).pos()
            },
    {
        if self.pos < self.end && self.end - self.pos >= 4 {
            let v: &Vec<u8> = &*self.data;
            let a: [u8; 4] = [v[self.pos], v[self.pos + 1], v[self.pos + 2], v[self.pos + 3]];
            self.pos = self.pos + 4;
            proof {
                assert(a@ =~= old(self).bytes().subrange(old(self).pos(), old(self).pos() + 4));
            }
            Ok(a)
        } else {
            Err(Error::UnexpectedEof)
        }
    }

    /// Read a null-terminated string: consume up to and including the
    /// terminator, and decode the prefix as strict UTF-8.
    pub fn read_string(&mut self) -> (r: Result<String, Error>)
        requires
            old(self).wf(),
        ensures
            final(self).wf(),
            final(self).bytes() == old(self).bytes(),
            final(self).end() == old(self).end(),
            match first_zero(old(self).bytes(), old(self).pos(), old(self).end()) {
                None => r == Result::<String, Error>::Err(Error::UnexpectedEof)
                    && final(self).pos() == old(self).pos(),
                Some(k) => {
                    &&& final(self).pos() == k + 1
                    &&& if is_utf8(old(self).bytes().subrange(old(self).pos(), k)) {
                        r matches Ok(s) && s@ == utf8_chars(
                            old(self).bytes().subrange(old(self).pos(), k),
                        )
                    } else {
                        r == Result::<String, Error>::Err(Error::InvalidUtf8)
                    }
                },
            },
    {
        let v: &Vec<u8> = &*self.data;
        let mut i: usize = self.pos;
        while i < self.end && v[i] != 0
            invariant
                self.pos <= i,
                i <= self.end || i == self.pos,
                self.end <= v@.len(),
                v@ == self.data@,
                forall|j: int| self.pos <= j < i ==> #[trigger] self.data@[j] != 0,
            decreases self.end - i,
        {
            i = i + 1;
        }
        proof {
            lemma_first_zero_advance(self.data@, self.pos as int, i as int, self.end as int);
        }
        if i >= self.end {
            return Err(Error::UnexpectedEof);
        }
        let mut raw: Vec<u8> = Vec::new();
        let mut j: usize = self.pos;
        while j < i
            invariant
                self.pos <= j <= i,
                i < self.end <= v@.len(),
                v@ == self.data@,
                raw@ == self.data@.subrange(self.pos as int, j as int),
            decreases i - j,
        {
            raw.push(v[j]);
            proof {
                assert(raw@ =~= self.data@.subrange(self.pos as int, j + 1));
            }
            j = j + 1;
        }
        self.pos = i + 1;
        match string_from_utf8(raw) {
            Some(s) => Ok(s),
            None => Err(Error::InvalidUtf8),
        }
    }
}

/// Ambient bounds of every reader: positions are machine words, and a
/// well-formed bound stays within the buffer.
pub broadcast proof fn lemma_reader_bounds(r: &MohawkReader)
    ensures
        0 <= #[trigger] r.pos() <= usize::MAX,
        0 <= r.end() <= usize::MAX,
        r.wf() ==> r.end() <= r.bytes().len(),
{
}

/// Walking past nonzero bytes does not change where the first zero is.
proof fn lemma_first_zero_advance(s: Seq<u8>, a: int, i: int, end: int)
    requires
        0 <= a <= i,
        forall|j: int| a <= j < i ==> #[trigger] s[j] != 0,
    ensures
        first_zero(s, a, end) == first_zero(s, i, end),
    decreases i - a,
{
    if a < i {
        if a < end {
            lemma_first_zero_advance(s, a + 1, i, end);
        } else {
            lemma_first_zero_advance(s, a + 1, i, end);
        }
    }
}

/// Law: taking a sub-stream of size `n` and then a sub-stream of size
/// `m` from it yields a reader with exactly `min(n, m)` readable bytes,
/// provided the outer reader had at least `n` bytes left.
pub proof fn lemma_nested_take_bound(
    r: &MohawkReader,
    s1: &MohawkReader,
    s2: &MohawkReader,
    n: usize,
    m: usize,
)
    requires
        r.wf(),
        n <= r.remaining(),
        MohawkReader::take_rel(r, n, s1),
        MohawkReader::take_rel(s1, m, s2),
    ensures
        s2.remaining() == if m < n {
            m as int
        } else {
            n as int
        },
{
}

} // verus!
