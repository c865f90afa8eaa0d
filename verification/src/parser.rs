use crate::error::DecodeError;
use crate::header::{Header, HEADER_LEN};
use vstd::arithmetic::power2::{lemma2_to64, lemma_pow2_strictly_increases, lemma_pow2_unfold, pow2};
use vstd::prelude::*;
use vstd::slice::slice_subrange;

verus! {

/// Bit `n` of `byte`, counted from the most significant bit: bit 0 is the
/// highest-order bit, bit 7 the lowest.
pub open spec fn spec_bit(byte: u8, n: u8) -> u8
    recommends
        n < 8,
{
    (byte >> ((7 - n) as u8)) & 1u8
}

/// The number whose binary digits are `bits`, most significant first. Any
/// non-zero entry counts as a 1.
pub open spec fn bits_value(bits: Seq<u8>) -> nat
    decreases bits.len(),
{
    if bits.len() == 0 {
        0
    } else {
        2 * bits_value(bits.drop_last()) + if bits.last() != 0 {
            1nat
        } else {
            0nat
        }
    }
}

/// A number written with `k` binary digits is below `2^k`.
pub proof fn lemma_bits_value_bound(bits: Seq<u8>)
    ensures
        bits_value(bits) < pow2(bits.len()),
    decreases bits.len(),
{
    if bits.len() == 0 {
        lemma2_to64();
    } else {
        lemma_bits_value_bound(bits.drop_last());
        lemma_pow2_unfold(bits.len());
    }
}

/// Reads bit `n` of `byte`, counted from the most significant bit.
pub fn bit_accessor(byte: &u8, n: u8) -> (bit: u8)
    requires
        n < 8,
    ensures
        bit == spec_bit(*byte, n),
        bit == 0 || bit == 1,
{
    let shift: u8 = 7 - n;
    let b: u8 = *byte;
    assert((b >> shift) & 1u8 == 0 || (b >> shift) & 1u8 == 1) by (bit_vector);
    (b >> shift) & 1
}

/// Packs binary digits, most significant first, into a number.
pub fn bits_to_u8(bits: Vec<u8>) -> (value: u8)
    requires
        bits@.len() <= 8,
    ensures
        value == bits_value(bits@),
{
    let mut result: u8 = 0;
    let mut i: usize = 0;
    while i < bits.len()
        invariant
            i <= bits@.len() <= 8,
            result == bits_value(bits@.take(i as int)),
        decreases bits@.len() - i,
    {
        let ghost next = bits@.take(i + 1);
        proof {
            assert(next.drop_last() == bits@.take(i as int));
            lemma_bits_value_bound(next);
            lemma2_to64();
            if next.len() < 8 {
                lemma_pow2_strictly_increases(next.len(), 8);
            }
        }
        result = 2 * result + if bits[i] != 0 {
            1
        } else {
            0
        };
        i += 1;
    }
    assert(bits@.take(i as int) == bits@);
    result
}

/// The eight bits of `byte` as text, most significant first.
pub open spec fn spec_bit_string(byte: u8) -> Seq<char> {
    Seq::new(
        8,
        |i: int|
            if spec_bit(byte, i as u8) == 1 {
                '1'
            } else {
                '0'
            },
    )
}

/// The raw bytes of a message whose header fields are decoded on demand. A
/// parser always holds at least the twelve bytes of a header.
pub struct Parser {
    raw_data: Vec<u8>,
}

impl View for Parser {
    type V = Seq<u8>;

    closed spec fn view(&self) -> Seq<u8> {
        self.raw_data@
    }
}

impl Parser {
    #[verifier::type_invariant]
    spec fn holds_header(&self) -> bool {
        self.raw_data@.len() >= 12
    }

    /// Writes out the bits of `byte`, most significant first, as `0` and `1`.
    pub fn bit_string(byte: &u8) -> (s: String)
        ensures
            s@ == spec_bit_string(*byte),
    {
        let mut s = String::new();
        let mut n: u8 = 0;
        while n < 8
            invariant
                n <= 8,
                s@ == spec_bit_string(*byte).take(n as int),
            decreases 8 - n,
        {
            proof {
                reveal_strlit("1");
                reveal_strlit("0");
            }
            if bit_accessor(byte, n) == 1 {
                s.append("1");
            } else {
                s.append("0");
            }
            n += 1;
        }
        s
    }

    /// Takes ownership of the bytes of a message. Fails when they are too
    /// few to hold a header.
    pub fn from_buf(buf: Vec<u8>) -> (r: Result<Parser, DecodeError>)
        ensures
            buf@.len() >= 12 ==> r is Ok && r->Ok_0@ == buf@,
            buf@.len() < 12 ==> r == Err::<Parser, DecodeError>(DecodeError::BufferTooShort),
    {
        if buf.len() < HEADER_LEN {
            return Err(DecodeError::BufferTooShort);
        }
        Ok(Self { raw_data: buf })
    }

    /// The twelve bytes of the header.
    pub fn header(&self) -> (h: &[u8])
        ensures
            self@.len() >= 12,
            h@ == self@.subrange(0, 12),
    {
        proof {
            use_type_invariant(self);
        }
        slice_subrange(self.raw_data.as_slice(), 0, HEADER_LEN)
    }

    /// The 16-bit identifier of the message.
    pub fn identifier(&self) -> (r: u16)
        ensures
            r == Header::spec_from_bytes(self@).identifier,
    {
        Header::identifier(self.header())
    }

    /// Whether the message is a query: the first flag bit is clear.
    pub fn is_query(&self) -> (r: bool)
        ensures
            r == Header::spec_from_bytes(self@).query,
    {
        Header::is_query(self.header())
    }

    /// Whether the message is a response: the first flag bit is set.
    pub fn is_response(&self) -> (r: bool)
        ensures
            r == Header::spec_from_bytes(self@).response,
    {
        Header::is_response(self.header())
    }

    /// The four-bit operation code.
    pub fn op_code(&self) -> (r: u8)
        ensures
            r == Header::spec_from_bytes(self@).op_code,
    {
        Header::op_code(self.header())
    }

    /// Whether the answer comes from an authority for the name.
    pub fn is_authoritative(&self) -> (r: bool)
        ensures
            r == Header::spec_from_bytes(self@).is_authoritative,
    {
        Header::is_authoritative(self.header())
    }

    /// Whether the message was cut to fit its transport.
    pub fn is_truncated(&self) -> (r: bool)
        ensures
            r == Header::spec_from_bytes(self@).truncated,
    {
        Header::is_truncated(self.header())
    }

    /// Whether the sender asks for recursion.
    pub fn should_recurse(&self) -> (r: bool)
        ensures
            r == Header::spec_from_bytes(self@).should_recurse,
    {
        Header::should_recurse(self.header())
    }

    /// Whether the responder offers recursion.
    pub fn can_recurse(&self) -> (r: bool)
        ensures
            r == Header::spec_from_bytes(self@).can_recurse,
    {
        Header::can_recurse(self.header())
    }

    /// The three reserved bits.
    pub fn reserved(&self) -> (r: u8)
        ensures
            r == Header::spec_from_bytes(self@).reserved,
    {
        Header::reserved(self.header())
    }

    /// The four-bit response code.
    pub fn resp_code(&self) -> (r: u8)
        ensures
            r == Header::spec_from_bytes(self@).resp_code,
    {
        Header::resp_code(self.header())
    }

    /// How many questions the header announces.
    pub fn question_count(&self) -> (r: u16)
        ensures
            r == Header::spec_from_bytes(self@).question_count,
    {
        Header::question_count(self.header())
    }

    /// How many answers the header announces.
    pub fn answer_count(&self) -> (r: u16)
        ensures
            r == Header::spec_from_bytes(self@).answer_count,
    {
        Header::answer_count(self.header())
    }

    /// How many authority records the header announces.
    pub fn authority_count(&self) -> (r: u16)
        ensures
            r == Header::spec_from_bytes(self@).authority_count,
    {
        Header::authority_count(self.header())
    }

    /// How many additional records the header announces.
    pub fn additional_count(&self) -> (r: u16)
        ensures
            r == Header::spec_from_bytes(self@).additional_count,
    {
        Header::additional_count(self.header())
    }
}

} // verus!
