use crate::error::{same_or_short, DecodeError};
use vstd::prelude::*;
use vstd::slice::slice_subrange;

verus! {

/// The 16-bit number that two bytes spell in network order, high byte first.
pub open spec fn spec_be_u16(bytes: Seq<u8>) -> u16
    recommends
        bytes.len() == 2,
{
    (bytes[0] * 256 + bytes[1]) as u16
}

/// The 32-bit number that four bytes spell in network order, high byte first.
pub open spec fn spec_be_u32(bytes: Seq<u8>) -> u32
    recommends
        bytes.len() == 4,
{
    (((bytes[0] * 256 + bytes[1]) * 256 + bytes[2]) * 256 + bytes[3]) as u32
}

/// The 16-bit number at `pos`, if `bytes` reaches two bytes past `pos`.
pub open spec fn spec_read_u16(bytes: Seq<u8>, pos: int) -> Result<u16, DecodeError> {
    if 0 <= pos && pos + 2 <= bytes.len() {
        Ok(spec_be_u16(bytes.subrange(pos, pos + 2)))
    } else {
        Err(DecodeError::BufferTooShort)
    }
}

/// The 32-bit number at `pos`, if `bytes` reaches four bytes past `pos`.
pub open spec fn spec_read_u32(bytes: Seq<u8>, pos: int) -> Result<u32, DecodeError> {
    if 0 <= pos && pos + 4 <= bytes.len() {
        Ok(spec_be_u32(bytes.subrange(pos, pos + 4)))
    } else {
        Err(DecodeError::BufferTooShort)
    }
}

/// A number read from the first `n` bytes of a buffer is the number read from
/// all of it, unless those bytes end too soon.
pub proof fn lemma_read_truncated(bytes: Seq<u8>, n: int, pos: int)
    requires
        0 <= n <= bytes.len(),
    ensures
        same_or_short(spec_read_u16(bytes.take(n), pos), spec_read_u16(bytes, pos)),
        same_or_short(spec_read_u32(bytes.take(n), pos), spec_read_u32(bytes, pos)),
{
    if 0 <= pos && pos + 2 <= n {
        assert(bytes.take(n).subrange(pos, pos + 2) == bytes.subrange(pos, pos + 2));
    }
    if 0 <= pos && pos + 4 <= n {
        assert(bytes.take(n).subrange(pos, pos + 4) == bytes.subrange(pos, pos + 4));
    }
}

/// Reads two bytes as a 16-bit number in network order.
pub fn be_u16(bytes: &[u8]) -> (value: u16)
    requires
        bytes@.len() == 2,
    ensures
        value == spec_be_u16(bytes@),
{
    let hi: u16 = bytes[0] as u16;
    let lo: u16 = bytes[1] as u16;
    hi * 256 + lo
}

/// Reads four bytes as a 32-bit number in network order.
pub fn be_u32(bytes: &[u8]) -> (value: u32)
    requires
        bytes@.len() == 4,
    ensures
        value == spec_be_u32(bytes@),
{
    let b0: u32 = bytes[0] as u32;
    let b1: u32 = bytes[1] as u32;
    let b2: u32 = bytes[2] as u32;
    let b3: u32 = bytes[3] as u32;
    ((b0 * 256 + b1) * 256 + b2) * 256 + b3
}

/// A cursor over a borrowed byte buffer: a position that reads advance and
/// that can be set to any absolute offset.
#[derive(Debug)]
pub struct BufReader<'a> {
    pub buf: &'a [u8],
    pub pos: usize,
}

impl<'a> BufReader<'a> {
    /// The whole buffer under the cursor, independent of the position.
    pub open spec fn bytes(&self) -> Seq<u8> {
        self.buf@
    }

    /// A cursor at offset 0 of `buf`.
    pub fn new(buf: &'a [u8]) -> (r: Self)
        ensures
            r.bytes() == buf@,
            r.pos == 0,
    {
        Self { buf, pos: 0 }
    }

    /// The current offset.
    pub fn position(&self) -> (p: usize)
        ensures
            p == self.pos,
    {
        self.pos
    }

    /// The next `len` bytes, advancing the position past them. Fails, leaving
    /// the position where it was, when fewer than `len` bytes remain.
    pub fn read(&mut self, len: usize) -> (r: Result<&'a [u8], DecodeError>)
        ensures
            final(self).bytes() == old(self).bytes(),
            old(self).pos + len <= old(self).bytes().len() ==> r is Ok,
            match r {
                Ok(s) => {
                    &&& old(self).pos + len <= old(self).bytes().len()
                    &&& s@ == old(self).bytes().subrange(
                        old(self).pos as int,
                        old(self).pos + len,
                    )
                    &&& final(self).pos == old(self).pos + len
                },
                Err(e) => {
                    &&& e == DecodeError::BufferTooShort
                    &&& final(self).pos == old(self).pos
                },
            },
    {
        let total = self.buf.len();
        if self.pos > total || len > total - self.pos {
            return Err(DecodeError::BufferTooShort);
        }
        let end = self.pos + len;
        let out = slice_subrange(self.buf, self.pos, end);
        self.pos = end;
        Ok(out)
    }

    /// The next two bytes as a 16-bit number in network order.
    pub fn read_u16(&mut self) -> (r: Result<u16, DecodeError>)
        ensures
            final(self).bytes() == old(self).bytes(),
            r == spec_read_u16(old(self).bytes(), old(self).pos as int),
            final(self).pos == if r is Ok {
                old(self).pos + 2
            } else {
                old(self).pos as int
            },
    {
        match self.read(2) {
            Ok(s) => Ok(be_u16(s)),
            Err(e) => Err(e),
        }
    }

    /// The next four bytes as a 32-bit number in network order.
    pub fn read_u32(&mut self) -> (r: Result<u32, DecodeError>)
        ensures
            final(self).bytes() == old(self).bytes(),
            r == spec_read_u32(old(self).bytes(), old(self).pos as int),
            final(self).pos == if r is Ok {
                old(self).pos + 4
            } else {
                old(self).pos as int
            },
    {
        match self.read(4) {
            Ok(s) => Ok(be_u32(s)),
            Err(e) => Err(e),
        }
    }

    /// Moves to the absolute offset `pos`. Nothing is checked here: an offset
    /// past the end makes the next read fail.
    pub fn goto(&mut self, pos: usize)
        ensures
            final(self).bytes() == old(self).bytes(),
            final(self).pos == pos,
    {
        self.pos = pos;
    }
}

} // verus!
