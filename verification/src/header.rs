use crate::buf_reader::{be_u16, spec_be_u16};
use crate::error::DecodeError;
use crate::parser::{bit_accessor, bits_to_u8, bits_value, spec_bit};
use vstd::prelude::*;
use vstd::slice::slice_subrange;

verus! {

/// Number of bytes that a header occupies at the start of a message.
pub const HEADER_LEN: usize = 12;

/// The fixed first twelve bytes of a message: identifier, flags and the
/// number of entries in each of the four sections that follow.
#[derive(Debug, Clone, Copy, PartialEq, Eq, Structural)]
pub struct Header {
    pub identifier: u16,
    pub query: bool,
    pub response: bool,
    pub op_code: u8,
    pub is_authoritative: bool,
    pub truncated: bool,
    pub should_recurse: bool,
    pub can_recurse: bool,
    pub reserved: u8,
    pub resp_code: u8,
    pub question_count: u16,
    pub answer_count: u16,
    pub authority_count: u16,
    pub additional_count: u16,
}

/// The bits `start .. start + width` of `byte`, most significant first.
pub open spec fn bit_run(byte: u8, start: u8, width: u8) -> Seq<u8>
    recommends
        start + width <= 8,
{
    Seq::new(width as nat, |i: int| spec_bit(byte, (start + i) as u8))
}

/// A bit is 0 or 1.
proof fn lemma_bit_is_binary(byte: u8, n: u8)
    requires
        n < 8,
    ensures
        spec_bit(byte, n) == 0 || spec_bit(byte, n) == 1,
{
    let shift: u8 = (7 - n) as u8;
    assert((byte >> shift) & 1u8 == 0 || (byte >> shift) & 1u8 == 1) by (bit_vector);
}

/// A run of bits extended by one bit doubles its value and adds that bit.
proof fn lemma_bit_run_step(byte: u8, start: u8, width: u8)
    requires
        start + width < 8,
    ensures
        bits_value(bit_run(byte, start, (width + 1) as u8)) == 2 * bits_value(
            bit_run(byte, start, width),
        ) + spec_bit(byte, (start + width) as u8),
{
    let longer = bit_run(byte, start, (width + 1) as u8);
    assert(longer.drop_last() == bit_run(byte, start, width));
    lemma_bit_is_binary(byte, (start + width) as u8);
}

/// The four bits at `start` are the digit of weight `2^(4 - start)` in base 16.
proof fn lemma_nibble_value(byte: u8, start: u8)
    requires
        start == 1 || start == 4,
    ensures
        start == 1 ==> bits_value(bit_run(byte, start, 4)) == (byte / 8) % 16,
        start == 4 ==> bits_value(bit_run(byte, start, 4)) == byte % 16,
{
    lemma_bit_run_step(byte, start, 0);
    lemma_bit_run_step(byte, start, 1);
    lemma_bit_run_step(byte, start, 2);
    lemma_bit_run_step(byte, start, 3);
    assert(bits_value(bit_run(byte, start, 0)) == 0);
    assert(8 * ((byte >> 6u8) & 1u8) + 4 * ((byte >> 5u8) & 1u8) + 2 * ((byte >> 4u8) & 1u8) + ((
    byte >> 3u8) & 1u8) == (byte / 8) % 16) by (bit_vector);
    assert(8 * ((byte >> 3u8) & 1u8) + 4 * ((byte >> 2u8) & 1u8) + 2 * ((byte >> 1u8) & 1u8) + ((
    byte >> 0u8) & 1u8) == byte % 16) by (bit_vector);
}

/// The three bits after the first are the digit of weight 16 in base 8.
proof fn lemma_reserved_value(byte: u8)
    ensures
        bits_value(bit_run(byte, 1, 3)) == (byte / 16) % 8,
{
    lemma_bit_run_step(byte, 1, 0);
    lemma_bit_run_step(byte, 1, 1);
    lemma_bit_run_step(byte, 1, 2);
    assert(bits_value(bit_run(byte, 1, 0)) == 0);
    assert(4 * ((byte >> 6u8) & 1u8) + 2 * ((byte >> 5u8) & 1u8) + ((byte >> 4u8) & 1u8) == (byte
        / 16) % 8) by (bit_vector);
}

/// Each single bit of a byte, as a remainder of a quotient by a power of two.
proof fn lemma_flag_bits(byte: u8)
    ensures
        spec_bit(byte, 0) == byte / 128,
        spec_bit(byte, 5) == (byte / 4) % 2,
        spec_bit(byte, 6) == (byte / 2) % 2,
        spec_bit(byte, 7) == byte % 2,
{
    assert((byte >> 7u8) & 1u8 == byte / 128) by (bit_vector);
    assert((byte >> 2u8) & 1u8 == (byte / 4) % 2) by (bit_vector);
    assert((byte >> 1u8) & 1u8 == (byte / 2) % 2) by (bit_vector);
    assert((byte >> 0u8) & 1u8 == byte % 2) by (bit_vector);
}

/// Reading the flag bytes bit by bit and taking them apart by quotients and
/// remainders give the same header: each flag is one bit of its byte, and the
/// operation code, the reserved field and the response code are the numbers
/// that their runs of bits spell.
pub proof fn lemma_header_fields_are_bit_runs(b: Seq<u8>)
    requires
        b.len() >= 12,
    ensures
        ({
            let h = Header::spec_from_bytes(b);
            &&& h.query == (spec_bit(b[2], 0) == 0)
            &&& h.response == (spec_bit(b[2], 0) == 1)
            &&& h.query == !h.response
            &&& h.op_code == bits_value(bit_run(b[2], 1, 4))
            &&& h.is_authoritative == (spec_bit(b[2], 5) == 1)
            &&& h.truncated == (spec_bit(b[2], 6) == 1)
            &&& h.should_recurse == (spec_bit(b[2], 7) == 1)
            &&& h.can_recurse == (spec_bit(b[3], 0) == 1)
            &&& h.reserved == bits_value(bit_run(b[3], 1, 3))
            &&& h.resp_code == bits_value(bit_run(b[3], 4, 4))
            &&& h.op_code < 16 && h.reserved < 8 && h.resp_code < 16
        }),
{
    lemma_flag_bits(b[2]);
    lemma_flag_bits(b[3]);
    lemma_nibble_value(b[2], 1);
    lemma_nibble_value(b[3], 4);
    lemma_reserved_value(b[3]);
}

/// Collects the bits `start .. start + width` of `byte` and packs them.
fn bit_field(byte: &u8, start: u8, width: u8) -> (value: u8)
    requires
        start + width <= 8,
    ensures
        value == bits_value(bit_run(*byte, start, width)),
{
    let mut my_bits: Vec<u8> = Vec::new();
    let mut n: u8 = 0;
    while n < width
        invariant
            n <= width,
            start + width <= 8,
            my_bits@ == bit_run(*byte, start, n),
        decreases width - n,
    {
        let bit = bit_accessor(byte, start + n);
        my_bits.push(bit);
        n += 1;
    }
    bits_to_u8(my_bits)
}

impl Header {
    /// The header that the first twelve bytes of `b` spell: the identifier and
    /// the four counts as 16-bit numbers in network order, and between them
    /// the flag bytes, taken apart by quotients and remainders.
    pub open spec fn spec_from_bytes(b: Seq<u8>) -> Header
        recommends
            b.len() >= 12,
    {
        Header {
            identifier: spec_be_u16(b.subrange(0, 2)),
            query: b[2] / 128 == 0,
            response: b[2] / 128 == 1,
            op_code: ((b[2] / 8) % 16) as u8,
            is_authoritative: (b[2] / 4) % 2 == 1,
            truncated: (b[2] / 2) % 2 == 1,
            should_recurse: b[2] % 2 == 1,
            can_recurse: b[3] / 128 == 1,
            reserved: ((b[3] / 16) % 8) as u8,
            resp_code: (b[3] % 16) as u8,
            question_count: spec_be_u16(b.subrange(4, 6)),
            answer_count: spec_be_u16(b.subrange(6, 8)),
            authority_count: spec_be_u16(b.subrange(8, 10)),
            additional_count: spec_be_u16(b.subrange(10, 12)),
        }
    }

    /// Decodes the header at the start of `buf`. Fails when `buf` holds fewer
    /// than twelve bytes.
    pub fn from_buf(buf: &Vec<u8>) -> (r: Result<Header, DecodeError>)
        ensures
            buf@.len() >= 12 ==> r == Ok::<Header, DecodeError>(Header::spec_from_bytes(buf@)),
            buf@.len() < 12 ==> r == Err::<Header, DecodeError>(DecodeError::BufferTooShort),
    {
        if buf.len() < HEADER_LEN {
            return Err(DecodeError::BufferTooShort);
        }
        Ok(Header::decode(buf.as_slice()))
    }

    /// Decodes the header that the first twelve bytes of `buf` hold.
    pub(crate) fn decode(buf: &[u8]) -> (h: Header)
        requires
            buf@.len() >= 12,
        ensures
            h == Header::spec_from_bytes(buf@),
    {
        let header = slice_subrange(buf, 0, HEADER_LEN);
        Header {
            identifier: Self::identifier(header),
            query: Self::is_query(header),
            response: Self::is_response(header),
            op_code: Self::op_code(header),
            is_authoritative: Self::is_authoritative(header),
            truncated: Self::is_truncated(header),
            should_recurse: Self::should_recurse(header),
            can_recurse: Self::can_recurse(header),
            reserved: Self::reserved(header),
            resp_code: Self::resp_code(header),
            question_count: Self::question_count(header),
            answer_count: Self::answer_count(header),
            authority_count: Self::authority_count(header),
            additional_count: Self::additional_count(header),
        }
    }

    /// The identifier: bytes 0 and 1 in network order.
    pub(crate) fn identifier(buf: &[u8]) -> (r: u16)
        requires
            buf@.len() >= 12,
        ensures
            r == Header::spec_from_bytes(buf@).identifier,
    {
        be_u16(slice_subrange(buf, 0, 2))
    }

    /// Whether bit 0 of byte 2 is clear.
    pub(crate) fn is_query(buf: &[u8]) -> (r: bool)
        requires
            buf@.len() >= 12,
        ensures
            r == Header::spec_from_bytes(buf@).query,
    {
        let byte = &buf[2];
        let bit = bit_accessor(byte, 0);
        proof {
            lemma_flag_bits(*byte);
        }
        bit == 0
    }

    /// Whether bit 0 of byte 2 is set.
    pub(crate) fn is_response(buf: &[u8]) -> (r: bool)
        requires
            buf@.len() >= 12,
        ensures
            r == Header::spec_from_bytes(buf@).response,
    {
        let byte = &buf[2];
        let bit = bit_accessor(byte, 0);
        proof {
            lemma_flag_bits(*byte);
        }
        bit == 1
    }

    /// Bits 1 to 4 of byte 2.
    pub(crate) fn op_code(buf: &[u8]) -> (r: u8)
        requires
            buf@.len() >= 12,
        ensures
            r == Header::spec_from_bytes(buf@).op_code,
    {
        let byte = &buf[2];
        proof {
            lemma_nibble_value(*byte, 1);
        }
        bit_field(byte, 1, 4)
    }

    /// Whether bit 5 of byte 2 is set.
    pub(crate) fn is_authoritative(buf: &[u8]) -> (r: bool)
        requires
            buf@.len() >= 12,
        ensures
            r == Header::spec_from_bytes(buf@).is_authoritative,
    {
        let byte = &buf[2];
        let bit = bit_accessor(byte, 5);
        proof {
            lemma_flag_bits(*byte);
        }
        bit == 1
    }

    /// Whether bit 6 of byte 2 is set.
    pub(crate) fn is_truncated(buf: &[u8]) -> (r: bool)
        requires
            buf@.len() >= 12,
        ensures
            r == Header::spec_from_bytes(buf@).truncated,
    {
        let byte = &buf[2];
        let bit = bit_accessor(byte, 6);
        proof {
            lemma_flag_bits(*byte);
        }
        bit == 1
    }

    /// Whether bit 7 of byte 2 is set.
    pub(crate) fn should_recurse(buf: &[u8]) -> (r: bool)
        requires
            buf@.len() >= 12,
        ensures
            r == Header::spec_from_bytes(buf@).should_recurse,
    {
        let byte = &buf[2];
        let bit = bit_accessor(byte, 7);
        proof {
            lemma_flag_bits(*byte);
        }
        bit == 1
    }

    /// Whether bit 0 of byte 3 is set.
    pub(crate) fn can_recurse(buf: &[u8]) -> (r: bool)
        requires
            buf@.len() >= 12,
        ensures
            r == Header::spec_from_bytes(buf@).can_recurse,
    {
        let byte = &buf[3];
        let bit = bit_accessor(byte, 0);
        proof {
            lemma_flag_bits(*byte);
        }
        bit == 1
    }

    /// Bits 1 to 3 of byte 3.
    pub(crate) fn reserved(buf: &[u8]) -> (r: u8)
        requires
            buf@.len() >= 12,
        ensures
            r == Header::spec_from_bytes(buf@).reserved,
    {
        let byte = &buf[3];
        proof {
            lemma_reserved_value(*byte);
        }
        bit_field(byte, 1, 3)
    }

    /// Bits 4 to 7 of byte 3.
    pub(crate) fn resp_code(buf: &[u8]) -> (r: u8)
        requires
            buf@.len() >= 12,
        ensures
            r == Header::spec_from_bytes(buf@).resp_code,
    {
        let byte = &buf[3];
        proof {
            lemma_nibble_value(*byte, 4);
        }
        bit_field(byte, 4, 4)
    }

    /// The number of questions: bytes 4 and 5 in network order.
    pub(crate) fn question_count(buf: &[u8]) -> (r: u16)
        requires
            buf@.len() >= 12,
        ensures
            r == Header::spec_from_bytes(buf@).question_count,
    {
        be_u16(slice_subrange(buf, 4, 6))
    }

    /// The number of answers: bytes 6 and 7 in network order.
    pub(crate) fn answer_count(buf: &[u8]) -> (r: u16)
        requires
            buf@.len() >= 12,
        ensures
            r == Header::spec_from_bytes(buf@).answer_count,
    {
        be_u16(slice_subrange(buf, 6, 8))
    }

    /// The number of authority records: bytes 8 and 9 in network order.
    pub(crate) fn authority_count(buf: &[u8]) -> (r: u16)
        requires
            buf@.len() >= 12,
        ensures
            r == Header::spec_from_bytes(buf@).authority_count,
    {
        be_u16(slice_subrange(buf, 8, 10))
    }

    /// The number of additional records: bytes 10 and 11 in network order.
    pub(crate) fn additional_count(buf: &[u8]) -> (r: u16)
        requires
            buf@.len() >= 12,
        ensures
            r == Header::spec_from_bytes(buf@).additional_count,
    {
        be_u16(slice_subrange(buf, 10, 12))
    }
}

} // verus!
