use dns::enums::{Class, MessageType, Opcode, QueryClass, QueryType, ResponseCode, Type};
use dns::message_format::{Message, MessageBuilder, MessageBuilderError, MessageError};
use dns::primitives::LabelSequence;
use dns::question::Question;
use dns::resource::Resource;

fn sample_question() -> Question {
    Question::new("ando.gq", QueryType::Type(Type::A), QueryClass::ANY).unwrap()
}

#[test]
fn build_without_id_fails() {
    let result = MessageBuilder::query().build();
    assert_eq!(result.unwrap_err(), MessageBuilderError::MissingId);
}

#[test]
fn build_without_message_type_fails() {
    let result = MessageBuilder::default().set_id(1).build();
    assert_eq!(result.unwrap_err(), MessageBuilderError::MissingMessageType);
}

#[test]
fn build_without_opcode_fails() {
    let result = MessageBuilder::default()
        .set_id(1)
        .set_message_type(MessageType::Query)
        .build();
    assert_eq!(result.unwrap_err(), MessageBuilderError::MissingOpcode);
}

#[test]
fn build_defaults_flags_and_response_code() {
    let m = MessageBuilder::query().set_id(7).build().unwrap();
    assert_eq!(m.header.id, 7);
    assert_eq!(m.header.message_type, MessageType::Query);
    assert_eq!(m.header.opcode, Opcode::Query);
    assert!(!m.header.authoritative_answer);
    assert!(!m.header.truncation);
    assert!(!m.header.recursion_desired);
    assert!(!m.header.recursion_available);
    assert_eq!(m.header.response_code, ResponseCode::NoErrorCondition);
    assert_eq!(m.header.question_count, 0);
    assert_eq!(m.header.resource_records_count, 0);
    assert_eq!(m.header.name_server_records_count, 0);
    assert_eq!(m.header.additional_records_count, 0);
}

#[test]
fn builder_setters_carry_through() {
    let m = MessageBuilder::query()
        .set_id(3)
        .set_message_type(MessageType::Response)
        .set_opcode(Opcode::ServerStatus)
        .set_authoritative_answer(true)
        .set_truncation(true)
        .set_recursion_desired(true)
        .set_recursion_available(true)
        .set_response_code(ResponseCode::ServerFailure)
        .build()
        .unwrap();
    assert_eq!(m.header.message_type, MessageType::Response);
    assert_eq!(m.header.opcode, Opcode::ServerStatus);
    assert!(m.header.authoritative_answer);
    assert!(m.header.truncation);
    assert!(m.header.recursion_desired);
    assert!(m.header.recursion_available);
    assert_eq!(m.header.response_code, ResponseCode::ServerFailure);
}

#[test]
fn end_to_end_query_round_trip() {
    let m = MessageBuilder::query()
        .set_id(10)
        .question(sample_question())
        .build()
        .unwrap();
    assert_eq!(m.header.question_count, 1);
    let wire = m.encode().unwrap();
    let decoded = Message::decode(&wire).unwrap();
    assert_eq!(decoded.header, m.header);
    assert_eq!(decoded.question, m.question);
    assert_eq!(decoded, m);
}

#[test]
fn end_to_end_all_sections_round_trip() {
    let name = LabelSequence::try_from(b"ando.gq").unwrap();
    let answer = Resource::new(name.clone(), Type::A, Class::IN, 60, vec![1, 1, 1, 1]).unwrap();
    let authority = Resource::new(name.clone(), Type::NS, Class::IN, 120, vec![]).unwrap();
    let additional = Resource::new(name, Type::TXT, Class::CH, 0, vec![b'h', b'i']).unwrap();
    let m = MessageBuilder::query()
        .set_id(99)
        .set_message_type(MessageType::Response)
        .question(sample_question())
        .answer(answer)
        .authority(authority)
        .additional(additional)
        .build()
        .unwrap();
    assert_eq!(m.header.resource_records_count, 1);
    assert_eq!(m.header.name_server_records_count, 1);
    assert_eq!(m.header.additional_records_count, 1);
    let wire = m.encode().unwrap();
    let decoded = Message::decode(&wire).unwrap();
    assert_eq!(decoded, m);
}

#[test]
fn message_decode_short_buffer_fails() {
    let bytes: &[u8] = &[0; 11];
    assert_eq!(Message::decode(bytes), Err(MessageError::SizeError(11)));
}

#[test]
fn message_decode_missing_question_fails() {
    // header declares one question, but the buffer ends there
    let bytes: &[u8] = &[0, 10, 0x01, 0x00, 0, 1, 0, 0, 0, 0, 0, 0];
    assert_eq!(Message::decode(bytes), Err(MessageError::TruncatedInputError));
}

#[test]
fn message_decode_trailing_bytes_fail() {
    let m = MessageBuilder::query().set_id(5).question(sample_question()).build().unwrap();
    let mut wire = m.encode().unwrap();
    wire.push(0);
    assert_eq!(Message::decode(&wire), Err(MessageError::SizeError(1)));
}

#[test]
fn message_encode_count_mismatch_fails() {
    let mut m = MessageBuilder::query().set_id(5).question(sample_question()).build().unwrap();
    m.header.question_count = 2;
    assert_eq!(m.encode(), Err(MessageError::SizeError(1)));
}

#[test]
fn demonstration_query_builds() {
    dns::test();
}
