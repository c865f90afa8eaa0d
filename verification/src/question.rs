use crate::buf_reader::{lemma_read_truncated, spec_read_u16, BufReader};
use crate::class::RRClass;
use crate::error::{same_or_short, DecodeError};
use crate::name::{lemma_name_truncated, name_at, read_name};
use crate::rr_type::RRType;
use vstd::prelude::*;

verus! {

/// One entry of the question section.
#[derive(Debug, PartialEq, Eq)]
pub struct Question {
    pub name: String,
    pub rr_type: RRType,
    pub class: RRClass,
}

/// What a question says, with its name as a sequence of characters.
pub struct QuestionView {
    pub name: Seq<char>,
    pub rr_type: RRType,
    pub class: RRClass,
}

impl View for Question {
    type V = QuestionView;

    open spec fn view(&self) -> QuestionView {
        QuestionView { name: self.name@, rr_type: self.rr_type, class: self.class }
    }
}

/// The question at `pos` and the offset just past it: a name, then a type
/// code and a class code of two bytes each.
pub open spec fn question_at(bytes: Seq<u8>, pos: int) -> Result<(QuestionView, int), DecodeError> {
    match name_at(bytes, pos) {
        Err(e) => Err(e),
        Ok((name, after_name)) => match spec_read_u16(bytes, after_name) {
            Err(e) => Err(e),
            Ok(type_code) => match spec_read_u16(bytes, after_name + 2) {
                Err(e) => Err(e),
                Ok(class_code) => Ok(
                    (
                        QuestionView {
                            name,
                            rr_type: RRType::spec_from_value(type_code),
                            class: RRClass::spec_from_value(class_code),
                        },
                        after_name + 4,
                    ),
                ),
            },
        },
    }
}

/// Cutting a buffer short never changes a question: decoding the question at
/// `pos` in the first `n` bytes gives what decoding it in the whole buffer
/// gives, or fails with `BufferTooShort`.
pub proof fn lemma_question_truncated(bytes: Seq<u8>, n: int, pos: int)
    requires
        0 <= n <= bytes.len(),
    ensures
        same_or_short(question_at(bytes.take(n), pos), question_at(bytes, pos)),
{
    lemma_name_truncated(bytes, n, pos);
    if name_at(bytes.take(n), pos) is Ok {
        let after_name = name_at(bytes, pos)->Ok_0.1;
        lemma_read_truncated(bytes, n, after_name);
        lemma_read_truncated(bytes, n, after_name + 2);
    }
}

impl Question {
    /// Decodes the question at the cursor and moves the cursor past it. On
    /// failure the cursor is back where it was.
    pub fn from_buf(buf: &mut BufReader) -> (r: Result<Self, DecodeError>)
        ensures
            final(buf).bytes() == old(buf).bytes(),
            match question_at(old(buf).bytes(), old(buf).pos as int) {
                Ok((question, next)) => r is Ok && r->Ok_0@ == question && final(buf).pos == next,
                Err(e) => r is Err && r->Err_0 == e && final(buf).pos == old(buf).pos,
            },
    {
        let started_at = buf.position();
        let name = match Self::read_labels(buf) {
            Ok(name) => name,
            Err(e) => {
                return Err(e);
            },
        };
        let rr_type = match Self::read_type(buf) {
            Ok(t) => t,
            Err(e) => {
                buf.goto(started_at);
                return Err(e);
            },
        };
        let class = match Self::read_class(buf) {
            Ok(c) => c,
            Err(e) => {
                buf.goto(started_at);
                return Err(e);
            },
        };
        Ok(Self { name, rr_type, class })
    }

    /// Decodes the domain name at the cursor, following compression
    /// pointers, and moves the cursor to the field after it. On failure the
    /// cursor is back where it was.
    pub fn read_labels(buf: &mut BufReader) -> (r: Result<String, DecodeError>)
        ensures
            final(buf).bytes() == old(buf).bytes(),
            match name_at(old(buf).bytes(), old(buf).pos as int) {
                Ok((name, next)) => r is Ok && r->Ok_0@ == name && final(buf).pos == next,
                Err(e) => r is Err && r->Err_0 == e && final(buf).pos == old(buf).pos,
            },
    {
        read_name(buf)
    }

    /// Reads a two-byte type code and classifies it. Fails, leaving the
    /// cursor where it was, when fewer than two bytes remain.
    pub fn read_type(buf: &mut BufReader) -> (r: Result<RRType, DecodeError>)
        ensures
            final(buf).bytes() == old(buf).bytes(),
            match spec_read_u16(old(buf).bytes(), old(buf).pos as int) {
                Ok(code) => r == Ok::<RRType, DecodeError>(RRType::spec_from_value(code))
                    && final(buf).pos == old(buf).pos + 2,
                Err(e) => r == Err::<RRType, DecodeError>(e) && final(buf).pos == old(buf).pos,
            },
    {
        match buf.read_u16() {
            Ok(value) => Ok(RRType::from_value(value)),
            Err(e) => Err(e),
        }
    }

    /// Reads a two-byte class code and classifies it. Fails, leaving the
    /// cursor where it was, when fewer than two bytes remain.
    pub fn read_class(buf: &mut BufReader) -> (r: Result<RRClass, DecodeError>)
        ensures
            final(buf).bytes() == old(buf).bytes(),
            match spec_read_u16(old(buf).bytes(), old(buf).pos as int) {
                Ok(code) => r == Ok::<RRClass, DecodeError>(RRClass::spec_from_value(code))
                    && final(buf).pos == old(buf).pos + 2,
                Err(e) => r == Err::<RRClass, DecodeError>(e) && final(buf).pos == old(buf).pos,
            },
    {
        match buf.read_u16() {
            Ok(value) => Ok(RRClass::from_value(value)),
            Err(e) => Err(e),
        }
    }
}

} // verus!
