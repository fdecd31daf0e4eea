use dns::enums::{MessageType, Opcode, ResponseCode};
use dns::header::{Header, HeaderError};

fn sample_header() -> Header {
    Header {
        id: 0x1234,
        message_type: MessageType::Response,
        opcode: Opcode::ServerStatus,
        authoritative_answer: true,
        truncation: false,
        recursion_desired: true,
        recursion_available: true,
        response_code: ResponseCode::NameError,
        question_count: 1,
        resource_records_count: 2,
        name_server_records_count: 3,
        additional_records_count: 4,
    }
}

#[test]
fn header_encode_exact_bytes() {
    let bytes = sample_header().encode();
    assert_eq!(
        bytes,
        vec![0x12, 0x34, 0x95, 0x83, 0, 1, 0, 2, 0, 3, 0, 4],
    );
}

#[test]
fn header_decode_query_buffer() {
    let bytes: &[u8] = &[0, 10, 0x01, 0x00, 0, 1, 0, 0, 0, 0, 0, 0];
    let h = Header::decode(bytes).unwrap();
    assert_eq!(h.id, 10);
    assert_eq!(h.message_type, MessageType::Query);
    assert_eq!(h.opcode, Opcode::Query);
    assert!(!h.authoritative_answer);
    assert!(!h.truncation);
    assert!(h.recursion_desired);
    assert!(!h.recursion_available);
    assert_eq!(h.response_code, ResponseCode::NoErrorCondition);
    assert_eq!(h.question_count, 1);
    assert_eq!(h.resource_records_count, 0);
    assert_eq!(h.name_server_records_count, 0);
    assert_eq!(h.additional_records_count, 0);
}

#[test]
fn header_decode_wrong_size_fails_with_actual_length() {
    let short: &[u8] = &[0; 11];
    assert_eq!(Header::decode(short), Err(HeaderError::SizeError(11)));
    let long: &[u8] = &[0; 13];
    assert_eq!(Header::decode(long), Err(HeaderError::SizeError(13)));
    let empty: &[u8] = &[];
    assert_eq!(Header::decode(empty), Err(HeaderError::SizeError(0)));
}

#[test]
fn header_round_trip() {
    let h = sample_header();
    assert_eq!(Header::decode(&h.encode()).unwrap(), h);
}

#[test]
fn header_round_trip_extreme_fields() {
    let h = Header {
        id: 0xffff,
        message_type: MessageType::Query,
        opcode: Opcode::InverseQuery,
        authoritative_answer: false,
        truncation: true,
        recursion_desired: false,
        recursion_available: false,
        response_code: ResponseCode::Refused,
        question_count: 0xffff,
        resource_records_count: 0,
        name_server_records_count: 0xffff,
        additional_records_count: 1,
    };
    assert_eq!(Header::decode(&h.encode()).unwrap(), h);
}

#[test]
fn header_round_trip_reserved_values() {
    // unknown 4-bit opcode and response code survive the wire unchanged
    let h = Header {
        id: 7,
        message_type: MessageType::Response,
        opcode: Opcode::Reserved(9),
        authoritative_answer: false,
        truncation: false,
        recursion_desired: false,
        recursion_available: true,
        response_code: ResponseCode::Reserved(12),
        question_count: 0,
        resource_records_count: 0,
        name_server_records_count: 0,
        additional_records_count: 0,
    };
    let decoded = Header::decode(&h.encode()).unwrap();
    assert_eq!(decoded, h);
    assert_eq!(decoded.opcode.to_value(), 9);
    assert_eq!(decoded.response_code.to_value(), 12);
}

#[test]
fn header_decode_ignores_reserved_bits() {
    let mut bytes = sample_header().encode();
    bytes[3] |= 0b0111_0000;
    let h = Header::decode(&bytes).unwrap();
    assert_eq!(h, sample_header());
}
