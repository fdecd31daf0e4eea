use dns::enums::{Class, QueryClass, QueryType, Type};
use dns::message_format::MessageError;
use dns::primitives::LabelSequence;
use dns::question::Question;
use dns::resource::Resource;

#[test]
fn question_encode_wire_form() {
    let q = Question::new("ando.gq", QueryType::Type(Type::A), QueryClass::ANY).unwrap();
    assert_eq!(
        q.encode().unwrap(),
        vec![4, b'a', b'n', b'd', b'o', 2, b'g', b'q', 0, 1, 255],
    );
}

#[test]
fn question_round_trip() {
    let q = Question::new("mail.example.com", QueryType::MAILB, QueryClass::Class(Class::IN))
        .unwrap();
    let wire = q.encode().unwrap();
    let (decoded, next) = Question::decode(&wire, 0).unwrap();
    assert_eq!(decoded, q);
    assert_eq!(next, wire.len());
}

#[test]
fn question_new_rejects_bad_name() {
    assert!(Question::new("", QueryType::ALL, QueryClass::ANY).is_err());
    assert!(Question::new("a..b", QueryType::ALL, QueryClass::ANY).is_err());
}

#[test]
fn question_decode_unknown_type_fails() {
    // name "a", then a query type value outside both value spaces
    let bytes: &[u8] = &[1, b'a', 0, 17, 255];
    assert_eq!(
        Question::decode(bytes, 0),
        Err(MessageError::EnumConversionError(17)),
    );
}

#[test]
fn question_decode_truncated_fails() {
    let bytes: &[u8] = &[1, b'a', 0, 1];
    assert_eq!(
        Question::decode(bytes, 0),
        Err(MessageError::TruncatedInputError),
    );
}

fn sample_resource() -> Resource {
    let name = LabelSequence::try_from(b"ando.gq").unwrap();
    Resource::new(name, Type::NS, Class::IN, 300, vec![1, 2, 3, 4, 5]).unwrap()
}

#[test]
fn resource_new_measures_data_length() {
    let r = sample_resource();
    assert_eq!(r.data_length, 5);
    assert_eq!(r.data, vec![1, 2, 3, 4, 5]);
}

#[test]
fn resource_encode_wire_form() {
    let wire = sample_resource().encode().unwrap();
    assert_eq!(
        wire,
        vec![
            4, b'a', b'n', b'd', b'o', 2, b'g', b'q', 0, // name
            2, 1, // NS, IN
            0, 0, 1, 44, // ttl 300 seconds, big endian
            0, 5, // data length
            1, 2, 3, 4, 5, // data
        ],
    );
}

#[test]
fn resource_round_trip() {
    let r = sample_resource();
    let wire = r.encode().unwrap();
    let (decoded, next) = Resource::decode(&wire, 0).unwrap();
    assert_eq!(decoded, r);
    assert_eq!(next, wire.len());
}

#[test]
fn resource_round_trip_extreme_ttl() {
    let name = LabelSequence::try_from(b"x").unwrap();
    let zero = Resource::new(name.clone(), Type::TXT, Class::HS, 0, vec![]).unwrap();
    let max = Resource::new(name, Type::A, Class::CH, 0xffff_ffff, vec![9]).unwrap();
    for r in [zero, max] {
        let wire = r.encode().unwrap();
        let (decoded, _) = Resource::decode(&wire, 0).unwrap();
        assert_eq!(decoded, r);
    }
}

#[test]
fn resource_decode_unknown_type_fails() {
    let bytes: &[u8] = &[1, b'a', 0, 0, 1, 0, 0, 0, 0, 0, 0];
    assert_eq!(
        Resource::decode(bytes, 0),
        Err(MessageError::EnumConversionError(0)),
    );
}

#[test]
fn resource_decode_unknown_class_fails() {
    let bytes: &[u8] = &[1, b'a', 0, 1, 9, 0, 0, 0, 0, 0, 0];
    assert_eq!(
        Resource::decode(bytes, 0),
        Err(MessageError::EnumConversionError(9)),
    );
}

#[test]
fn resource_decode_truncated_data_fails() {
    // declares five data bytes but supplies three
    let bytes: &[u8] = &[1, b'a', 0, 1, 1, 0, 0, 0, 0, 0, 5, 1, 2, 3];
    assert_eq!(
        Resource::decode(bytes, 0),
        Err(MessageError::TruncatedInputError),
    );
}

#[test]
fn resource_encode_rejects_mismatched_length() {
    let mut r = sample_resource();
    r.data_length = 4;
    assert_eq!(r.encode(), Err(MessageError::SizeError(5)));
}
