use dns_rs_lib::buf_reader::BufReader;
use dns_rs_lib::class::RRClass;
use dns_rs_lib::error::DecodeError;
use dns_rs_lib::question::Question;
use dns_rs_lib::rr_type::RRType;

#[test]
fn test_parsing_question() {
    let packet = vec![
        0b11000111, 0b01010111, 0b00000000, 0b00000000, 0b00000000, 0b00000000, 0b00000000,
        0b00000000, 0b00000000, 0b00000000, 0b00000000, 0b00000000,
    ];
    let question = vec![
        0b00000110, 0b01100111, 0b01101111, 0b01101111, 0b01100111, 0b01101100, 0b01100101,
        0b00000011, 0b01100011, 0b01101111, 0b01101101, 0b00000000, 0b00000000, 0b00000001,
        0b00000000, 0b00000001,
    ];
    let packet = [packet, question].concat();
    let mut buf = BufReader::new(&packet);
    buf.goto(12);
    let question = Question::from_buf(&mut buf).unwrap();
    assert_eq!(question.name, "google.com");
    assert_eq!(question.rr_type, RRType::A);
    assert_eq!(question.class, RRClass::IN);
}

#[test]
fn test_parsing_question_with_type() {
    let packet = vec![
        0b11000111, 0b01010111, 0b00000000, 0b00000000, 0b00000000, 0b00000000, 0b00000000,
        0b00000000, 0b00000000, 0b00000000, 0b00000000, 0b00000000,
    ];
    let question = vec![
        0b00000110, 0b01100111, 0b01101111, 0b01101111, 0b01100111, 0b01101100, 0b01100101,
        0b00000011, 0b01100011, 0b01101111, 0b01101101, 0b00000000, 0b00000000, 0b00000010,
        0b00000000, 0b00000001,
    ];
    let packet = [packet, question].concat();
    let mut buf = BufReader::new(&packet);
    buf.goto(12);
    let question = Question::from_buf(&mut buf).unwrap();
    assert_eq!(question.name, "google.com");
    assert_eq!(question.rr_type, RRType::NS);
    assert_eq!(question.class, RRClass::IN);
}

#[test]
fn test_parsing_question_with_class() {
    let packet = vec![
        0b11000111, 0b01010111, 0b00000000, 0b00000000, 0b00000000, 0b00000000, 0b00000000,
        0b00000000, 0b00000000, 0b00000000, 0b00000000, 0b00000000,
    ];
    let question = vec![
        0b00000110, 0b01100111, 0b01101111, 0b01101111, 0b01100111, 0b01101100, 0b01100101,
        0b00000011, 0b01100011, 0b01101111, 0b01101101, 0b00000000, 0b00000000, 0b00000001,
        0b00000000, 0b00000010,
    ];
    let packet = [packet, question].concat();
    let mut buf = BufReader::new(&packet);
    buf.goto(12);
    let question = Question::from_buf(&mut buf).unwrap();
    assert_eq!(question.name, "google.com");
    assert_eq!(question.rr_type, RRType::A);
    assert_eq!(question.class, RRClass::UNKNOWN(2));
}

fn google_question(type_code: u16, class_code: u16) -> Vec<u8> {
    let mut bytes = vec![6, b'g', b'o', b'o', b'g', b'l', b'e', 3, b'c', b'o', b'm', 0];
    bytes.extend_from_slice(&type_code.to_be_bytes());
    bytes.extend_from_slice(&class_code.to_be_bytes());
    bytes
}

#[test]
fn question_moves_the_cursor_past_itself() {
    let bytes = google_question(1, 1);
    let mut buf = BufReader::new(&bytes);
    let question = Question::from_buf(&mut buf).unwrap();
    assert_eq!(question.name, "google.com");
    assert_eq!(buf.position(), 16);
}

#[test]
fn question_keeps_an_unknown_type_code() {
    let bytes = google_question(0x00ff, 0xfffe);
    let mut buf = BufReader::new(&bytes);
    let question = Question::from_buf(&mut buf).unwrap();
    assert_eq!(question.rr_type, RRType::UNKNOWN(255));
    assert_eq!(question.class, RRClass::UNKNOWN(0xfffe));
}

#[test]
fn question_cut_short_fails_and_leaves_the_cursor() {
    let whole = google_question(1, 1);
    for n in 0..whole.len() {
        let bytes = &whole[..n];
        let mut buf = BufReader::new(bytes);
        assert_eq!(Question::from_buf(&mut buf), Err(DecodeError::BufferTooShort));
        assert_eq!(buf.position(), 0);
    }
}

#[test]
fn question_read_type_and_class_advance_by_two() {
    let bytes = [0u8, 15, 0, 3, 0];
    let mut buf = BufReader::new(&bytes);
    assert_eq!(Question::read_type(&mut buf), Ok(RRType::MX));
    assert_eq!(buf.position(), 2);
    assert_eq!(Question::read_class(&mut buf), Ok(RRClass::CH));
    assert_eq!(buf.position(), 4);
    assert_eq!(Question::read_type(&mut buf), Err(DecodeError::BufferTooShort));
    assert_eq!(buf.position(), 4);
    assert_eq!(Question::read_class(&mut buf), Err(DecodeError::BufferTooShort));
    assert_eq!(buf.position(), 4);
}

#[test]
fn question_read_labels_follows_a_pointer() {
    let mut bytes = vec![0u8; 12];
    bytes.extend_from_slice(&google_question(1, 1));
    let at = bytes.len();
    bytes.extend_from_slice(&[0xc0, 12, 0, 1, 0, 1]);
    let mut buf = BufReader::new(&bytes);
    buf.goto(at);
    let question = Question::from_buf(&mut buf).unwrap();
    assert_eq!(question.name, "google.com");
    assert_eq!(question.rr_type, RRType::A);
    assert_eq!(buf.position(), at + 6);
}

#[test]
fn type_codes_map_to_their_variants() {
    let known = [
        (1u16, RRType::A),
        (2, RRType::NS),
        (5, RRType::CNAME),
        (6, RRType::SOA),
        (7, RRType::MB),
        (8, RRType::MG),
        (9, RRType::MR),
        (10, RRType::NULL),
        (12, RRType::PTR),
        (13, RRType::HINFO),
        (14, RRType::MINFO),
        (15, RRType::MX),
        (16, RRType::TXT),
    ];
    for (code, variant) in known {
        assert_eq!(RRType::from_value(code), variant);
        assert_eq!(variant.value(), code);
    }
    for code in [0u16, 3, 4, 11, 17, 28, 255, 65535] {
        assert_eq!(RRType::from_value(code), RRType::UNKNOWN(code));
    }
}

#[test]
fn type_code_round_trips_for_every_code() {
    for code in 0u16..=65535 {
        assert_eq!(RRType::from_value(code).value(), code);
    }
}

#[test]
fn class_codes_map_to_their_variants() {
    assert_eq!(RRClass::from_value(1), RRClass::IN);
    assert_eq!(RRClass::from_value(3), RRClass::CH);
    assert_eq!(RRClass::from_value(4), RRClass::HS);
    assert_eq!(RRClass::IN.value(), 1);
    assert_eq!(RRClass::CH.value(), 3);
    assert_eq!(RRClass::HS.value(), 4);
    for code in [0u16, 2, 5, 254, 255, 65535] {
        assert_eq!(RRClass::from_value(code), RRClass::UNKNOWN(code));
    }
}

#[test]
fn class_code_round_trips_for_every_code() {
    for code in 0u16..=65535 {
        assert_eq!(RRClass::from_value(code).value(), code);
    }
}
