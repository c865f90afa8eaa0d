use dns_rs_lib::answer::RData;
use dns_rs_lib::class::RRClass;
use dns_rs_lib::error::DecodeError;
use dns_rs_lib::header::Header;
use dns_rs_lib::packet::Packet;
use dns_rs_lib::records::A;
use dns_rs_lib::rr_type::RRType;

fn header(id: u16, flags: [u8; 2], counts: [u16; 4]) -> Vec<u8> {
    let mut bytes = id.to_be_bytes().to_vec();
    bytes.extend_from_slice(&flags);
    for c in counts {
        bytes.extend_from_slice(&c.to_be_bytes());
    }
    bytes
}

const GOOGLE: [u8; 12] = [6, b'g', b'o', b'o', b'g', b'l', b'e', 3, b'c', b'o', b'm', 0];

fn response() -> Vec<u8> {
    let mut bytes = header(0xbeef, [0x81, 0x80], [1, 2, 1, 1]);
    // question at 12
    bytes.extend_from_slice(&GOOGLE);
    bytes.extend_from_slice(&[0, 1, 0, 1]);
    // two answers, names compressed
    bytes.extend_from_slice(&[0xc0, 12, 0, 1, 0, 1, 0, 0, 1, 44, 0, 4, 142, 250, 72, 14]);
    bytes.extend_from_slice(&[0xc0, 12, 0, 1, 0, 1, 0, 0, 1, 44, 0, 4, 142, 250, 72, 15]);
    // authority: NS for "com" (pointer into the question's name)
    bytes.extend_from_slice(&[0xc0, 19, 0, 2, 0, 1, 0, 1, 0x51, 0x80, 0, 4, 2, b'n', b's', 0]);
    // additional: an uninterpreted type at the root
    bytes.extend_from_slice(&[0, 0, 41, 16, 0, 0, 0, 0, 0, 0, 0]);
    bytes
}

#[test]
fn packet_query_with_one_question() {
    let mut bytes = header(0x1234, [0x01, 0x00], [1, 0, 0, 0]);
    bytes.extend_from_slice(&GOOGLE);
    bytes.extend_from_slice(&[0, 1, 0, 1]);
    let packet = Packet::from_buf(&bytes).unwrap();
    assert_eq!(packet.header, Header::from_buf(&bytes).unwrap());
    assert_eq!(packet.header.identifier, 0x1234);
    assert_eq!(packet.header.query, true);
    assert_eq!(packet.header.should_recurse, true);
    assert_eq!(packet.questions.len(), 1);
    assert_eq!(packet.questions[0].name, "google.com");
    assert_eq!(packet.questions[0].rr_type, RRType::A);
    assert_eq!(packet.questions[0].class, RRClass::IN);
    assert!(packet.answers.is_empty());
    assert!(packet.authorities.is_empty());
    assert!(packet.additionals.is_empty());
}

#[test]
fn packet_header_only() {
    let bytes = header(7, [0, 0], [0, 0, 0, 0]);
    let packet = Packet::from_buf(&bytes).unwrap();
    assert_eq!(packet.header.identifier, 7);
    assert!(packet.questions.is_empty());
    assert!(packet.answers.is_empty());
    assert!(packet.authorities.is_empty());
    assert!(packet.additionals.is_empty());
}

#[test]
fn packet_response_with_every_section() {
    let bytes = response();
    let packet = Packet::from_buf(&bytes).unwrap();
    assert_eq!(packet.header.response, true);
    assert_eq!(packet.header.can_recurse, true);
    assert_eq!(packet.questions.len(), 1);
    assert_eq!(packet.answers.len(), 2);
    assert_eq!(packet.authorities.len(), 1);
    assert_eq!(packet.additionals.len(), 1);

    assert_eq!(packet.answers[0].name, "google.com");
    assert_eq!(packet.answers[0].ttl, 300);
    assert_eq!(packet.answers[0].rdata, RData::Address(A { ip: "142.250.72.14".to_string() }));
    assert_eq!(packet.answers[1].name, "google.com");
    assert_eq!(packet.answers[1].rdata, RData::Address(A { ip: "142.250.72.15".to_string() }));

    assert_eq!(packet.authorities[0].name, "com");
    assert_eq!(packet.authorities[0].rr_type, RRType::NS);
    assert_eq!(packet.authorities[0].ttl, 86400);
    assert_eq!(packet.authorities[0].rdata, RData::Opaque(vec![2, b'n', b's', 0]));

    assert_eq!(packet.additionals[0].name, "");
    assert_eq!(packet.additionals[0].rr_type, RRType::UNKNOWN(41));
    assert_eq!(packet.additionals[0].class, RRClass::UNKNOWN(4096));
    assert_eq!(packet.additionals[0].len, 0);
    assert_eq!(packet.additionals[0].rdata, RData::Opaque(Vec::new()));
}

#[test]
fn packet_sections_hold_as_many_entries_as_the_header_counts() {
    let bytes = response();
    let packet = Packet::from_buf(&bytes).unwrap();
    assert_eq!(packet.questions.len(), packet.header.question_count as usize);
    assert_eq!(packet.answers.len(), packet.header.answer_count as usize);
    assert_eq!(packet.authorities.len(), packet.header.authority_count as usize);
    assert_eq!(packet.additionals.len(), packet.header.additional_count as usize);
}

#[test]
fn packet_ignores_bytes_after_the_last_entry() {
    let mut bytes = response();
    let packet = Packet::from_buf(&bytes).unwrap();
    bytes.extend_from_slice(&[1, 2, 3]);
    assert_eq!(Packet::from_buf(&bytes).unwrap(), packet);
}

#[test]
fn packet_decoded_twice_is_equal() {
    let bytes = response();
    let first = Packet::from_buf(&bytes);
    let second = Packet::from_buf(&bytes);
    assert!(first.is_ok());
    assert_eq!(first, second);

    let copy = bytes.clone();
    assert_eq!(Packet::from_buf(&copy), first);

    let broken = &bytes[..40];
    assert_eq!(Packet::from_buf(broken), Packet::from_buf(broken));
}

#[test]
fn packet_answer_count_without_a_record_is_too_short() {
    let bytes = header(1, [0x80, 0], [0, 1, 0, 0]);
    assert_eq!(Packet::from_buf(&bytes), Err(DecodeError::BufferTooShort));
}

#[test]
fn packet_answer_count_with_half_a_record_is_too_short() {
    let mut bytes = header(1, [0x80, 0], [0, 1, 0, 0]);
    bytes.extend_from_slice(&GOOGLE);
    bytes.extend_from_slice(&[0, 1, 0, 1, 0, 0, 0, 60, 0, 4, 10, 0]);
    assert_eq!(Packet::from_buf(&bytes), Err(DecodeError::BufferTooShort));
    bytes.extend_from_slice(&[0, 1]);
    assert!(Packet::from_buf(&bytes).is_ok());
}

#[test]
fn packet_count_larger_than_the_sections_is_too_short() {
    let mut bytes = response();
    bytes[7] = 3; // three answers announced, two present: the third runs into what follows
    let r = Packet::from_buf(&bytes);
    assert!(r.is_err());

    let mut bytes = header(1, [0, 0], [2, 0, 0, 0]);
    bytes.extend_from_slice(&GOOGLE);
    bytes.extend_from_slice(&[0, 1, 0, 1]);
    assert_eq!(Packet::from_buf(&bytes), Err(DecodeError::BufferTooShort));
}

#[test]
fn packet_every_truncation_is_too_short() {
    let bytes = response();
    assert!(Packet::from_buf(&bytes).is_ok());
    for n in 0..bytes.len() {
        assert_eq!(Packet::from_buf(&bytes[..n]), Err(DecodeError::BufferTooShort), "cut at {}", n);
    }
}

#[test]
fn packet_shorter_than_a_header_is_too_short() {
    assert_eq!(Packet::from_buf(&[]), Err(DecodeError::BufferTooShort));
    assert_eq!(Packet::from_buf(&[0u8; 11]), Err(DecodeError::BufferTooShort));
}

#[test]
fn packet_compression_loop_fails_the_message() {
    let mut bytes = header(1, [0, 0], [1, 0, 0, 0]);
    bytes.extend_from_slice(&[0xc0, 12, 0, 1, 0, 1]);
    assert_eq!(Packet::from_buf(&bytes), Err(DecodeError::CompressionLoop));

    let mut bytes = header(1, [0, 0], [1, 0, 0, 0]);
    bytes.extend_from_slice(&[0xc0, 14, 0, 0, 1, 0, 1]);
    assert_eq!(Packet::from_buf(&bytes), Err(DecodeError::CompressionLoop));
}

#[test]
fn packet_malformed_label_fails_the_message() {
    let mut bytes = header(1, [0, 0], [1, 1, 0, 0]);
    bytes.extend_from_slice(&GOOGLE);
    bytes.extend_from_slice(&[0, 1, 0, 1]);
    bytes.extend_from_slice(&[2, 0xff, 0xff, 0, 0, 1, 0, 1, 0, 0, 0, 1, 0, 0]);
    assert_eq!(Packet::from_buf(&bytes), Err(DecodeError::MalformedLabel));
}

#[test]
fn packet_pointer_may_reach_into_the_header() {
    // Offset 2 holds a zero byte: a pointer to it names the root.
    let mut bytes = header(1, [0, 0], [1, 0, 0, 0]);
    bytes.extend_from_slice(&[0xc0, 2, 0, 1, 0, 1]);
    let packet = Packet::from_buf(&bytes).unwrap();
    assert_eq!(packet.questions[0].name, "");
}

#[test]
fn packet_many_questions() {
    let mut bytes = header(1, [0, 0], [300, 0, 0, 0]);
    bytes.extend_from_slice(&GOOGLE);
    bytes.extend_from_slice(&[0, 1, 0, 1]);
    for _ in 1..300 {
        bytes.extend_from_slice(&[0xc0, 12, 0, 16, 0, 1]);
    }
    let packet = Packet::from_buf(&bytes).unwrap();
    assert_eq!(packet.questions.len(), 300);
    assert_eq!(packet.questions[299].name, "google.com");
    assert_eq!(packet.questions[299].rr_type, RRType::TXT);
}
