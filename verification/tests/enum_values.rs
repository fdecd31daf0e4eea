use dns::enums::{Class, MessageType, Opcode, QueryClass, QueryType, ResponseCode, Type};

#[test]
fn message_type_values() {
    assert_eq!(MessageType::from_value(0), Ok(MessageType::Query));
    assert_eq!(MessageType::from_value(1), Ok(MessageType::Response));
    assert_eq!(MessageType::from_value(2), Err(2));
    assert_eq!(MessageType::Query.to_value(), 0);
    assert_eq!(MessageType::Response.to_value(), 1);
}

#[test]
fn opcode_known_values() {
    assert_eq!(Opcode::from_value(0), Opcode::Query);
    assert_eq!(Opcode::from_value(1), Opcode::InverseQuery);
    assert_eq!(Opcode::from_value(2), Opcode::ServerStatus);
    assert_eq!(Opcode::Query.to_value(), 0);
    assert_eq!(Opcode::ServerStatus.to_value(), 2);
}

#[test]
fn opcode_unknown_value_round_trips() {
    let op = Opcode::from_value(9);
    assert_eq!(op, Opcode::Reserved(9));
    assert_eq!(op.to_value(), 9);
    assert_eq!(Opcode::from_value(15).to_value(), 15);
}

#[test]
fn response_code_known_values() {
    assert_eq!(ResponseCode::from_value(0), ResponseCode::NoErrorCondition);
    assert_eq!(ResponseCode::from_value(3), ResponseCode::NameError);
    assert_eq!(ResponseCode::from_value(5), ResponseCode::Refused);
    assert_eq!(ResponseCode::Refused.to_value(), 5);
    assert_eq!(ResponseCode::default(), ResponseCode::NoErrorCondition);
}

#[test]
fn response_code_unknown_value_round_trips() {
    let rc = ResponseCode::from_value(12);
    assert_eq!(rc, ResponseCode::Reserved(12));
    assert_eq!(rc.to_value(), 12);
}

#[test]
fn type_values() {
    assert_eq!(Type::from_value(1), Ok(Type::A));
    assert_eq!(Type::from_value(5), Ok(Type::CNAME));
    assert_eq!(Type::from_value(16), Ok(Type::TXT));
    assert_eq!(Type::from_value(0), Err(0));
    assert_eq!(Type::from_value(17), Err(17));
    assert_eq!(Type::MX.to_value(), 15);
}

#[test]
fn query_type_own_values_come_first() {
    assert_eq!(QueryType::from_value(252), Ok(QueryType::AXFR));
    assert_eq!(QueryType::from_value(253), Ok(QueryType::MAILB));
    assert_eq!(QueryType::from_value(254), Ok(QueryType::MAILA));
    assert_eq!(QueryType::from_value(255), Ok(QueryType::ALL));
    assert_eq!(QueryType::ALL.to_value(), 255);
}

#[test]
fn query_type_delegates_to_base() {
    assert_eq!(QueryType::from_value(5), Ok(QueryType::Type(Type::CNAME)));
    assert_eq!(QueryType::Type(Type::A).to_value(), 1);
    // the base enumeration's rejection propagates unchanged
    assert_eq!(QueryType::from_value(200), Err(200));
    assert_eq!(QueryType::from_value(0), Err(0));
}

#[test]
fn class_values() {
    assert_eq!(Class::from_value(1), Ok(Class::IN));
    assert_eq!(Class::from_value(4), Ok(Class::HS));
    assert_eq!(Class::from_value(0), Err(0));
    assert_eq!(Class::from_value(5), Err(5));
    assert_eq!(Class::CH.to_value(), 3);
}

#[test]
fn query_class_values() {
    assert_eq!(QueryClass::from_value(255), Ok(QueryClass::ANY));
    assert_eq!(QueryClass::from_value(3), Ok(QueryClass::Class(Class::CH)));
    assert_eq!(QueryClass::from_value(250), Err(250));
    assert_eq!(QueryClass::ANY.to_value(), 255);
    assert_eq!(QueryClass::Class(Class::IN).to_value(), 1);
}
