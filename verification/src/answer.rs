use crate::buf_reader::{lemma_read_truncated, spec_read_u16, spec_read_u32, BufReader};
use crate::class::RRClass;
use crate::error::{same_or_short, DecodeError};
use crate::name::{lemma_name_truncated, name_at, read_name};
use crate::records::{dotted_quad, A};
use crate::rr_type::RRType;
use vstd::prelude::*;
use vstd::slice::slice_to_vec;

verus! {

/// The payload of a resource record, read according to the record's type.
#[derive(Debug, PartialEq, Eq)]
pub enum RData {
    /// The payload of an address record, rendered in dotted decimal.
    Address(A),
    /// The payload of any other record, byte for byte.
    Opaque(Vec<u8>),
}

/// What a payload says, over sequences.
pub enum RDataView {
    Address(Seq<char>),
    Opaque(Seq<u8>),
}

impl View for RData {
    type V = RDataView;

    open spec fn view(&self) -> RDataView {
        match self {
            RData::Address(a) => RDataView::Address(a@),
            RData::Opaque(bytes) => RDataView::Opaque(bytes@),
        }
    }
}

/// How the payload of a record of type `rr_type` reads. An address record
/// shows its first four bytes in dotted decimal and needs that many; any
/// other record keeps its bytes as they are.
pub open spec fn rdata_of(rr_type: RRType, payload: Seq<u8>) -> Result<RDataView, DecodeError> {
    if rr_type is A {
        if payload.len() < 4 {
            Err(DecodeError::BufferTooShort)
        } else {
            Ok(RDataView::Address(dotted_quad(payload.subrange(0, 4))))
        }
    } else {
        Ok(RDataView::Opaque(payload))
    }
}

impl RData {
    /// Reads the payload of a record of type `rr_type`.
    pub fn decode(rr_type: &RRType, payload: &[u8]) -> (r: Result<RData, DecodeError>)
        ensures
            match rdata_of(*rr_type, payload@) {
                Ok(data) => r is Ok && r->Ok_0@ == data,
                Err(e) => r is Err && r->Err_0 == e,
            },
    {
        match rr_type {
            RRType::A => match A::from_buf(payload, 0) {
                Ok(a) => Ok(RData::Address(a)),
                Err(e) => Err(e),
            },
            _ => Ok(RData::Opaque(slice_to_vec(payload))),
        }
    }
}

/// One resource record, as the answer, authority and additional sections
/// hold them.
#[derive(Debug, PartialEq, Eq)]
pub struct Answer {
    pub name: String,
    pub rr_type: RRType,
    pub class: RRClass,
    pub ttl: u32,
    pub len: u16,
    pub rdata: RData,
}

/// What a resource record says, over sequences.
pub struct AnswerView {
    pub name: Seq<char>,
    pub rr_type: RRType,
    pub class: RRClass,
    pub ttl: u32,
    pub len: u16,
    pub rdata: RDataView,
}

impl View for Answer {
    type V = AnswerView;

    open spec fn view(&self) -> AnswerView {
        AnswerView {
            name: self.name@,
            rr_type: self.rr_type,
            class: self.class,
            ttl: self.ttl,
            len: self.len,
            rdata: self.rdata@,
        }
    }
}

/// The fields of a fixed size that follow the name of a resource record.
pub struct RecordFields {
    pub rr_type: RRType,
    pub class: RRClass,
    pub ttl: u32,
    pub len: u16,
}

/// The fixed fields at `pos`: type and class codes of two bytes each, a time
/// to live of four bytes and the payload's length in two bytes.
pub open spec fn record_fields_at(bytes: Seq<u8>, pos: int) -> Result<RecordFields, DecodeError> {
    match spec_read_u16(bytes, pos) {
        Err(e) => Err(e),
        Ok(type_code) => match spec_read_u16(bytes, pos + 2) {
            Err(e) => Err(e),
            Ok(class_code) => match spec_read_u32(bytes, pos + 4) {
                Err(e) => Err(e),
                Ok(ttl) => match spec_read_u16(bytes, pos + 8) {
                    Err(e) => Err(e),
                    Ok(len) => Ok(
                        RecordFields {
                            rr_type: RRType::spec_from_value(type_code),
                            class: RRClass::spec_from_value(class_code),
                            ttl,
                            len,
                        },
                    ),
                },
            },
        },
    }
}

/// The resource record at `pos` and the offset just past it: a name, the
/// fixed fields, and a payload of as many bytes as the length field says.
pub open spec fn answer_at(bytes: Seq<u8>, pos: int) -> Result<(AnswerView, int), DecodeError> {
    match name_at(bytes, pos) {
        Err(e) => Err(e),
        Ok((name, after_name)) => match record_fields_at(bytes, after_name) {
            Err(e) => Err(e),
            Ok(fields) => {
                let start = after_name + 10;
                let end = start + fields.len;
                if end > bytes.len() {
                    Err(DecodeError::BufferTooShort)
                } else {
                    match rdata_of(fields.rr_type, bytes.subrange(start, end)) {
                        Err(e) => Err(e),
                        Ok(rdata) => Ok(
                            (
                                AnswerView {
                                    name,
                                    rr_type: fields.rr_type,
                                    class: fields.class,
                                    ttl: fields.ttl,
                                    len: fields.len,
                                    rdata,
                                },
                                end,
                            ),
                        ),
                    }
                }
            },
        },
    }
}

/// Cutting a buffer short never changes a resource record: decoding the
/// record at `pos` in the first `n` bytes gives what decoding it in the whole
/// buffer gives, or fails with `BufferTooShort`. No record comes out with a
/// payload shorter than its length field says.
pub proof fn lemma_answer_truncated(bytes: Seq<u8>, n: int, pos: int)
    requires
        0 <= n <= bytes.len(),
    ensures
        same_or_short(answer_at(bytes.take(n), pos), answer_at(bytes, pos)),
{
    lemma_name_truncated(bytes, n, pos);
    if name_at(bytes.take(n), pos) is Ok {
        let after_name = name_at(bytes, pos)->Ok_0.1;
        lemma_read_truncated(bytes, n, after_name);
        lemma_read_truncated(bytes, n, after_name + 2);
        lemma_read_truncated(bytes, n, after_name + 4);
        lemma_read_truncated(bytes, n, after_name + 8);
        if record_fields_at(bytes.take(n), after_name) is Ok {
            let fields = record_fields_at(bytes, after_name)->Ok_0;
            let start = after_name + 10;
            let end = start + fields.len;
            if end <= n {
                assert(bytes.take(n).subrange(start, end) == bytes.subrange(start, end));
            }
        }
    }
}

impl Answer {
    /// Decodes the resource record at the cursor and moves the cursor past
    /// it. On failure the cursor is back where it was.
    pub fn from_buf(buf: &mut BufReader) -> (r: Result<Self, DecodeError>)
        ensures
            final(buf).bytes() == old(buf).bytes(),
            match answer_at(old(buf).bytes(), old(buf).pos as int) {
                Ok((answer, next)) => r is Ok && r->Ok_0@ == answer && final(buf).pos == next,
                Err(e) => r is Err && r->Err_0 == e && final(buf).pos == old(buf).pos,
            },
    {
        let started_at = buf.position();
        let name = match Self::read_labels(buf) {
            Ok(name) => name,
            Err(e) => {
                return Err(e);
            },
        };
        let rr_type = match Self::read_type(buf) {
            Ok(t) => t,
            Err(e) => {
                buf.goto(started_at);
                return Err(e);
            },
        };
        let class = match Self::read_class(buf) {
            Ok(c) => c,
            Err(e) => {
                buf.goto(started_at);
                return Err(e);
            },
        };
        let ttl = match Self::read_ttl(buf) {
            Ok(t) => t,
            Err(e) => {
                buf.goto(started_at);
                return Err(e);
            },
        };
        let len = match Self::read_len(buf) {
            Ok(l) => l,
            Err(e) => {
                buf.goto(started_at);
                return Err(e);
            },
        };
        let payload = match buf.read(len as usize) {
            Ok(p) => p,
            Err(e) => {
                buf.goto(started_at);
                return Err(e);
            },
        };
        let rdata = match RData::decode(&rr_type, payload) {
            Ok(d) => d,
            Err(e) => {
                buf.goto(started_at);
                return Err(e);
            },
        };
        Ok(Self { name, rr_type, class, ttl, len, rdata })
    }

    /// Decodes the domain name at the cursor, following compression
    /// pointers, and moves the cursor to the field after it. On failure the
    /// cursor is back where it was.
    pub fn read_labels(buf: &mut BufReader) -> (r: Result<String, DecodeError>)
        ensures
            final(buf).bytes() == old(buf).bytes(),
            match name_at(old(buf).bytes(), old(buf).pos as int) {
                Ok((name, next)) => r is Ok && r->Ok_0@ == name && final(buf).pos == next,
                Err(e) => r is Err && r->Err_0 == e && final(buf).pos == old(buf).pos,
            },
    {
        read_name(buf)
    }

    /// Reads a two-byte type code and classifies it. Fails, leaving the
    /// cursor where it was, when fewer than two bytes remain.
    pub fn read_type(buf: &mut BufReader) -> (r: Result<RRType, DecodeError>)
        ensures
            final(buf).bytes() == old(buf).bytes(),
            match spec_read_u16(old(buf).bytes(), old(buf).pos as int) {
                Ok(code) => r == Ok::<RRType, DecodeError>(RRType::spec_from_value(code))
                    && final(buf).pos == old(buf).pos + 2,
                Err(e) => r == Err::<RRType, DecodeError>(e) && final(buf).pos == old(buf).pos,
            },
    {
        match buf.read_u16() {
            Ok(value) => Ok(RRType::from_value(value)),
            Err(e) => Err(e),
        }
    }

    /// Reads a two-byte class code and classifies it. Fails, leaving the
    /// cursor where it was, when fewer than two bytes remain.
    pub fn read_class(buf: &mut BufReader) -> (r: Result<RRClass, DecodeError>)
        ensures
            final(buf).bytes() == old(buf).bytes(),
            match spec_read_u16(old(buf).bytes(), old(buf).pos as int) {
                Ok(code) => r == Ok::<RRClass, DecodeError>(RRClass::spec_from_value(code))
                    && final(buf).pos == old(buf).pos + 2,
                Err(e) => r == Err::<RRClass, DecodeError>(e) && final(buf).pos == old(buf).pos,
            },
    {
        match buf.read_u16() {
            Ok(value) => Ok(RRClass::from_value(value)),
            Err(e) => Err(e),
        }
    }

    /// Reads the four-byte time to live. Fails, leaving the cursor where it
    /// was, when fewer than four bytes remain.
    pub fn read_ttl(buf: &mut BufReader) -> (r: Result<u32, DecodeError>)
        ensures
            final(buf).bytes() == old(buf).bytes(),
            r == spec_read_u32(old(buf).bytes(), old(buf).pos as int),
            final(buf).pos == if r is Ok {
                old(buf).pos + 4
            } else {
                old(buf).pos as int
            },
    {
        buf.read_u32()
    }

    /// Reads the two-byte length of the payload. Fails, leaving the cursor
    /// where it was, when fewer than two bytes remain.
    pub fn read_len(buf: &mut BufReader) -> (r: Result<u16, DecodeError>)
        ensures
            final(buf).bytes() == old(buf).bytes(),
            r == spec_read_u16(old(buf).bytes(), old(buf).pos as int),
            final(buf).pos == if r is Ok {
                old(buf).pos + 2
            } else {
                old(buf).pos as int
            },
    {
        buf.read_u16()
    }
}

} // verus!
