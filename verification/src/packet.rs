use crate::answer::{answer_at, lemma_answer_truncated, Answer, AnswerView};
use crate::buf_reader::BufReader;
use crate::error::{same_or_short, DecodeError};
use crate::header::{Header, HEADER_LEN};
use crate::question::{lemma_question_truncated, question_at, Question, QuestionView};
use vstd::prelude::*;

verus! {

/// A whole message: the header and the four sections it announces.
#[derive(Debug, PartialEq, Eq)]
pub struct Packet {
    pub header: Header,
    pub questions: Vec<Question>,
    pub answers: Vec<Answer>,
    pub authorities: Vec<Answer>,
    pub additionals: Vec<Answer>,
}

/// What a message says, over sequences.
pub struct PacketView {
    pub header: Header,
    pub questions: Seq<QuestionView>,
    pub answers: Seq<AnswerView>,
    pub authorities: Seq<AnswerView>,
    pub additionals: Seq<AnswerView>,
}

/// What each question of a list says.
pub open spec fn question_views(questions: Seq<Question>) -> Seq<QuestionView> {
    questions.map_values(|q: Question| q@)
}

/// What each resource record of a list says.
pub open spec fn answer_views(answers: Seq<Answer>) -> Seq<AnswerView> {
    answers.map_values(|a: Answer| a@)
}

impl View for Packet {
    type V = PacketView;

    open spec fn view(&self) -> PacketView {
        PacketView {
            header: self.header,
            questions: question_views(self.questions@),
            answers: answer_views(self.answers@),
            authorities: answer_views(self.authorities@),
            additionals: answer_views(self.additionals@),
        }
    }
}

/// The `count` questions that lie one after another from `pos` on, and the
/// offset just past the last.
pub open spec fn questions_at(bytes: Seq<u8>, pos: int, count: nat) -> Result<
    (Seq<QuestionView>, int),
    DecodeError,
>
    decreases count,
{
    if count == 0 {
        Ok((seq![], pos))
    } else {
        match questions_at(bytes, pos, (count - 1) as nat) {
            Err(e) => Err(e),
            Ok((earlier, next)) => match question_at(bytes, next) {
                Err(e) => Err(e),
                Ok((question, end)) => Ok((earlier.push(question), end)),
            },
        }
    }
}

/// The `count` resource records that lie one after another from `pos` on,
/// and the offset just past the last.
pub open spec fn answers_at(bytes: Seq<u8>, pos: int, count: nat) -> Result<
    (Seq<AnswerView>, int),
    DecodeError,
>
    decreases count,
{
    if count == 0 {
        Ok((seq![], pos))
    } else {
        match answers_at(bytes, pos, (count - 1) as nat) {
            Err(e) => Err(e),
            Ok((earlier, next)) => match answer_at(bytes, next) {
                Err(e) => Err(e),
                Ok((answer, end)) => Ok((earlier.push(answer), end)),
            },
        }
    }
}

/// The message that `bytes` spell: a header of twelve bytes, then as many
/// questions, answers, authority records and additional records as the
/// header counts, in that order and without gaps. The first entry that cannot
/// be decoded decides the error.
pub open spec fn message_of(bytes: Seq<u8>) -> Result<PacketView, DecodeError> {
    if bytes.len() < 12 {
        Err(DecodeError::BufferTooShort)
    } else {
        let header = Header::spec_from_bytes(bytes);
        match questions_at(bytes, 12, header.question_count as nat) {
            Err(e) => Err(e),
            Ok((questions, after_questions)) => match answers_at(bytes, after_questions, header.answer_count as nat) {
                Err(e) => Err(e),
                Ok((answers, after_answers)) => match answers_at(bytes, after_answers, header.authority_count as nat) {
                    Err(e) => Err(e),
                    Ok((authorities, after_authorities)) => match answers_at(
                        bytes,
                        after_authorities,
                        header.additional_count as nat,
                    ) {
                        Err(e) => Err(e),
                        Ok((additionals, _)) => Ok(
                            PacketView { header, questions, answers, authorities, additionals },
                        ),
                    },
                },
            },
        }
    }
}

/// Whether `r` is the outcome that decoding `bytes` must have.
pub open spec fn decodes_to(bytes: Seq<u8>, r: Result<Packet, DecodeError>) -> bool {
    match message_of(bytes) {
        Ok(message) => r is Ok && r->Ok_0@ == message,
        Err(e) => r is Err && r->Err_0 == e,
    }
}

/// Decoding is a function of the bytes alone: any two outcomes of decoding
/// the same buffer are both messages that say the same, or both the same
/// error.
pub proof fn lemma_decode_twice_agrees(
    bytes: Seq<u8>,
    first: Result<Packet, DecodeError>,
    second: Result<Packet, DecodeError>,
)
    requires
        decodes_to(bytes, first),
        decodes_to(bytes, second),
    ensures
        first is Ok <==> second is Ok,
        first is Ok ==> first->Ok_0@ == second->Ok_0@,
        first is Err ==> first->Err_0 == second->Err_0,
{
}

/// A list of questions that decodes has as many entries as were asked for.
pub proof fn lemma_questions_count(bytes: Seq<u8>, pos: int, count: nat)
    requires
        questions_at(bytes, pos, count) is Ok,
    ensures
        questions_at(bytes, pos, count)->Ok_0.0.len() == count,
    decreases count,
{
    if count > 0 {
        lemma_questions_count(bytes, pos, (count - 1) as nat);
    }
}

/// A list of resource records that decodes has as many entries as were asked
/// for.
pub proof fn lemma_answers_count(bytes: Seq<u8>, pos: int, count: nat)
    requires
        answers_at(bytes, pos, count) is Ok,
    ensures
        answers_at(bytes, pos, count)->Ok_0.0.len() == count,
    decreases count,
{
    if count > 0 {
        lemma_answers_count(bytes, pos, (count - 1) as nat);
    }
}

/// The counts of the header decide how much is decoded: a message that
/// decodes holds in each section exactly as many entries as its header
/// announces.
pub proof fn lemma_sections_match_counts(bytes: Seq<u8>)
    requires
        message_of(bytes) is Ok,
    ensures
        ({
            let message = message_of(bytes)->Ok_0;
            &&& message.header == Header::spec_from_bytes(bytes)
            &&& message.questions.len() == message.header.question_count
            &&& message.answers.len() == message.header.answer_count
            &&& message.authorities.len() == message.header.authority_count
            &&& message.additionals.len() == message.header.additional_count
        }),
{
    let header = Header::spec_from_bytes(bytes);
    lemma_questions_count(bytes, 12, header.question_count as nat);
    let after_questions = questions_at(bytes, 12, header.question_count as nat)->Ok_0.1;
    lemma_answers_count(bytes, after_questions, header.answer_count as nat);
    let after_answers = answers_at(bytes, after_questions, header.answer_count as nat)->Ok_0.1;
    lemma_answers_count(bytes, after_answers, header.authority_count as nat);
    let after_authorities = answers_at(bytes, after_answers, header.authority_count as nat)->Ok_0.1;
    lemma_answers_count(bytes, after_authorities, header.additional_count as nat);
}

/// A list of questions in the first `n` bytes of a buffer is the list in all
/// of it, unless those bytes end too soon.
proof fn lemma_questions_truncated(bytes: Seq<u8>, n: int, pos: int, count: nat)
    requires
        0 <= n <= bytes.len(),
    ensures
        same_or_short(questions_at(bytes.take(n), pos, count), questions_at(bytes, pos, count)),
    decreases count,
{
    if count > 0 {
        lemma_questions_truncated(bytes, n, pos, (count - 1) as nat);
        if questions_at(bytes.take(n), pos, (count - 1) as nat) is Ok {
            let next = questions_at(bytes, pos, (count - 1) as nat)->Ok_0.1;
            lemma_question_truncated(bytes, n, next);
        }
    }
}

/// A list of resource records in the first `n` bytes of a buffer is the list
/// in all of it, unless those bytes end too soon.
proof fn lemma_answers_truncated(bytes: Seq<u8>, n: int, pos: int, count: nat)
    requires
        0 <= n <= bytes.len(),
    ensures
        same_or_short(answers_at(bytes.take(n), pos, count), answers_at(bytes, pos, count)),
    decreases count,
{
    if count > 0 {
        lemma_answers_truncated(bytes, n, pos, (count - 1) as nat);
        if answers_at(bytes.take(n), pos, (count - 1) as nat) is Ok {
            let next = answers_at(bytes, pos, (count - 1) as nat)->Ok_0.1;
            lemma_answer_truncated(bytes, n, next);
        }
    }
}

/// A buffer that ends too soon is never decoded into something else: the
/// first `n` bytes of a buffer decode to what the whole buffer decodes to, or
/// fail with `BufferTooShort`. So a count in the header that asks for more
/// than the buffer holds gives that error, never a shortened record.
pub proof fn lemma_message_truncated(bytes: Seq<u8>, n: int)
    requires
        0 <= n <= bytes.len(),
    ensures
        same_or_short(message_of(bytes.take(n)), message_of(bytes)),
{
    let cut = bytes.take(n);
    if n >= 12 {
        assert(cut.subrange(0, 2) == bytes.subrange(0, 2));
        assert(cut.subrange(4, 6) == bytes.subrange(4, 6));
        assert(cut.subrange(6, 8) == bytes.subrange(6, 8));
        assert(cut.subrange(8, 10) == bytes.subrange(8, 10));
        assert(cut.subrange(10, 12) == bytes.subrange(10, 12));
        let header = Header::spec_from_bytes(bytes);
        assert(Header::spec_from_bytes(cut) == header);
        lemma_questions_truncated(bytes, n, 12, header.question_count as nat);
        if questions_at(cut, 12, header.question_count as nat) is Ok {
            let after_questions = questions_at(bytes, 12, header.question_count as nat)->Ok_0.1;
            lemma_answers_truncated(bytes, n, after_questions, header.answer_count as nat);
            if answers_at(cut, after_questions, header.answer_count as nat) is Ok {
                let after_answers = answers_at(bytes, after_questions, header.answer_count as nat)->Ok_0.1;
                lemma_answers_truncated(bytes, n, after_answers, header.authority_count as nat);
                if answers_at(cut, after_answers, header.authority_count as nat) is Ok {
                    let after_authorities = answers_at(bytes, after_answers, header.authority_count as nat)->Ok_0.1;
                    lemma_answers_truncated(bytes, n, after_authorities, header.additional_count as nat);
                }
            }
        }
    }
}

/// Decodes `count` questions at the cursor. On failure the cursor is back
/// where it was.
fn read_questions(buf: &mut BufReader, count: u16) -> (r: Result<Vec<Question>, DecodeError>)
    ensures
        final(buf).bytes() == old(buf).bytes(),
        match questions_at(old(buf).bytes(), old(buf).pos as int, count as nat) {
            Ok((questions, next)) => {
                &&& r is Ok
                &&& question_views(r->Ok_0@) == questions
                &&& final(buf).pos == next
            },
            Err(e) => r is Err && r->Err_0 == e && final(buf).pos == old(buf).pos,
        },
{
    let started_at = buf.position();
    let mut questions: Vec<Question> = Vec::new();
    let mut n: u16 = 0;
    assert(question_views(questions@) == Seq::<QuestionView>::empty());
    while n < count
        invariant
            n <= count,
            buf.bytes() == old(buf).bytes(),
            started_at == old(buf).pos,
            questions_at(old(buf).bytes(), started_at as int, n as nat) == Ok::<
                (Seq<QuestionView>, int),
                DecodeError,
            >((question_views(questions@), buf.pos as int)),
        decreases count - n,
    {
        let ghost before = question_views(questions@);
        let q = match Question::from_buf(buf) {
            Ok(q) => q,
            Err(e) => {
                proof {
                    lemma_questions_fail_later(
                        old(buf).bytes(),
                        started_at as int,
                        (n + 1) as nat,
                        count as nat,
                    );
                }
                buf.goto(started_at);
                return Err(e);
            },
        };
        questions.push(q);
        n += 1;
        assert(question_views(questions@) == before.push(q@));
    }
    Ok(questions)
}

/// Decodes `count` resource records at the cursor. On failure the cursor is
/// back where it was.
fn read_answers(buf: &mut BufReader, count: u16) -> (r: Result<Vec<Answer>, DecodeError>)
    ensures
        final(buf).bytes() == old(buf).bytes(),
        match answers_at(old(buf).bytes(), old(buf).pos as int, count as nat) {
            Ok((answers, next)) => {
                &&& r is Ok
                &&& answer_views(r->Ok_0@) == answers
                &&& final(buf).pos == next
            },
            Err(e) => r is Err && r->Err_0 == e && final(buf).pos == old(buf).pos,
        },
{
    let started_at = buf.position();
    let mut answers: Vec<Answer> = Vec::new();
    let mut n: u16 = 0;
    assert(answer_views(answers@) == Seq::<AnswerView>::empty());
    while n < count
        invariant
            n <= count,
            buf.bytes() == old(buf).bytes(),
            started_at == old(buf).pos,
            answers_at(old(buf).bytes(), started_at as int, n as nat) == Ok::<
                (Seq<AnswerView>, int),
                DecodeError,
            >((answer_views(answers@), buf.pos as int)),
        decreases count - n,
    {
        let ghost before = answer_views(answers@);
        let a = match Answer::from_buf(buf) {
            Ok(a) => a,
            Err(e) => {
                proof {
                    lemma_answers_fail_later(
                        old(buf).bytes(),
                        started_at as int,
                        (n + 1) as nat,
                        count as nat,
                    );
                }
                buf.goto(started_at);
                return Err(e);
            },
        };
        answers.push(a);
        n += 1;
        assert(answer_views(answers@) == before.push(a@));
    }
    Ok(answers)
}

/// Once a question cannot be decoded, no longer list of questions can, and
/// the error stays the same.
proof fn lemma_questions_fail_later(bytes: Seq<u8>, pos: int, failed: nat, count: nat)
    requires
        failed <= count,
        questions_at(bytes, pos, failed) is Err,
    ensures
        questions_at(bytes, pos, count) == questions_at(bytes, pos, failed),
    decreases count,
{
    if failed < count {
        lemma_questions_fail_later(bytes, pos, failed, (count - 1) as nat);
    }
}

/// Once a resource record cannot be decoded, no longer list of records can,
/// and the error stays the same.
proof fn lemma_answers_fail_later(bytes: Seq<u8>, pos: int, failed: nat, count: nat)
    requires
        failed <= count,
        answers_at(bytes, pos, failed) is Err,
    ensures
        answers_at(bytes, pos, count) == answers_at(bytes, pos, failed),
    decreases count,
{
    if failed < count {
        lemma_answers_fail_later(bytes, pos, failed, (count - 1) as nat);
    }
}

impl Packet {
    /// Decodes a whole message: the header, then every entry that the header
    /// counts. Any entry that cannot be decoded fails the whole message.
    pub fn from_buf(buf: &[u8]) -> (r: Result<Self, DecodeError>)
        ensures
            decodes_to(buf@, r),
    {
        let mut buf = BufReader::new(buf);
        let header = match buf.read(HEADER_LEN) {
            Ok(bytes) => Header::decode(bytes),
            Err(e) => {
                return Err(e);
            },
        };
        let questions = match read_questions(&mut buf, header.question_count) {
            Ok(q) => q,
            Err(e) => {
                return Err(e);
            },
        };
        let answers = match read_answers(&mut buf, header.answer_count) {
            Ok(a) => a,
            Err(e) => {
                return Err(e);
            },
        };
        let authorities = match read_answers(&mut buf, header.authority_count) {
            Ok(a) => a,
            Err(e) => {
                return Err(e);
            },
        };
        let additionals = match read_answers(&mut buf, header.additional_count) {
            Ok(a) => a,
            Err(e) => {
                return Err(e);
            },
        };
        Ok(Self { header, questions, answers, authorities, additionals })
    }
}

} // verus!
