//! Protocol value enumerations.
//!
//! Every multi-valued protocol field is a closed set of named values over an
//! unsigned byte domain.  Fields the protocol declares extensible (opcode,
//! response code) carry a catch-all variant holding the raw unrecognized
//! value, so unknown values survive a round trip unchanged.  Non-extensible
//! fields reject unknown values, handing the offending raw value back.
//! Superset enumerations (`QueryType` over `Type`, `QueryClass` over `Class`)
//! first check their own extra values, then delegate to the wrapped base
//! enumeration, propagating its rejection unchanged.

use vstd::prelude::*;

verus! {

/// Message type: the `QR` header bit (1 bit).
#[derive(Clone, Copy, Debug, PartialEq, Eq, Structural)]
pub enum MessageType {
    /// Message is a query.
    Query,
    /// Message is a response.
    Response,
}

impl MessageType {
    /// Wire value of this message type.
    pub open spec fn spec_value(self) -> u8 {
        match self {
            MessageType::Query => 0,
            MessageType::Response => 1,
        }
    }

    /// Message type a raw value maps to; values other than 0 and 1 are rejected.
    pub open spec fn spec_from(v: u8) -> Result<MessageType, u8> {
        if v == 0 {
            Ok(MessageType::Query)
        } else if v == 1 {
            Ok(MessageType::Response)
        } else {
            Err(v)
        }
    }

    pub fn to_value(self) -> (r: u8)
        ensures
            r == self.spec_value(),
    {
        match self {
            MessageType::Query => 0,
            MessageType::Response => 1,
        }
    }

    pub fn from_value(v: u8) -> (r: Result<MessageType, u8>)
        ensures
            r == Self::spec_from(v),
    {
        if v == 0 {
            Ok(MessageType::Query)
        } else if v == 1 {
            Ok(MessageType::Response)
        } else {
            Err(v)
        }
    }
}

/// Kind of query, copied from request into response: the `OPCODE` header
/// field (4 bits).  Extensible: unknown values become `Reserved`.
#[derive(Clone, Copy, Debug, PartialEq, Eq, Structural)]
pub enum Opcode {
    /// Standard query (`QUERY`).
    Query,
    /// Inverse query (`IQUERY`).
    InverseQuery,
    /// Server status request (`STATUS`).
    ServerStatus,
    /// Reserved opcode for future use, carrying the raw value.
    Reserved(u8),
}

impl Opcode {
    /// Wire value of this opcode; total, including the catch-all.
    pub open spec fn spec_value(self) -> u8 {
        match self {
            Opcode::Query => 0,
            Opcode::InverseQuery => 1,
            Opcode::ServerStatus => 2,
            Opcode::Reserved(v) => v,
        }
    }

    /// Opcode a raw value maps to; total, unknown values land in `Reserved`.
    pub open spec fn spec_from(v: u8) -> Opcode {
        if v == 0 {
            Opcode::Query
        } else if v == 1 {
            Opcode::InverseQuery
        } else if v == 2 {
            Opcode::ServerStatus
        } else {
            Opcode::Reserved(v)
        }
    }

    /// A canonical opcode: the catch-all never shadows a named value.
    pub open spec fn wf(self) -> bool {
        match self {
            Opcode::Reserved(v) => v != 0 && v != 1 && v != 2,
            _ => true,
        }
    }

    pub fn to_value(self) -> (r: u8)
        ensures
            r == self.spec_value(),
    {
        match self {
            Opcode::Query => 0,
            Opcode::InverseQuery => 1,
            Opcode::ServerStatus => 2,
            Opcode::Reserved(v) => v,
        }
    }

    pub fn from_value(v: u8) -> (r: Opcode)
        ensures
            r == Self::spec_from(v),
            r.wf(),
    {
        if v == 0 {
            Opcode::Query
        } else if v == 1 {
            Opcode::InverseQuery
        } else if v == 2 {
            Opcode::ServerStatus
        } else {
            Opcode::Reserved(v)
        }
    }
}

/// An extensible enumeration preserves every raw value through conversion:
/// mapping any byte to an opcode and back yields the byte unchanged.
pub proof fn lemma_opcode_value_round_trip(v: u8)
    ensures
        Opcode::spec_from(v).spec_value() == v,
{
}

/// The reverse direction: a canonical opcode survives conversion to its raw
/// value and back.
pub proof fn lemma_opcode_round_trip(op: Opcode)
    requires
        op.wf(),
    ensures
        Opcode::spec_from(op.spec_value()) == op,
{
}

/// Response status of a query: the `RCODE` header field (4 bits).
/// Extensible: unknown values become `Reserved`.
#[derive(Clone, Copy, Debug, PartialEq, Eq, Structural)]
pub enum ResponseCode {
    /// No error condition.
    NoErrorCondition,
    /// Name server could not interpret the query.
    FormatError,
    /// Name server unable to process the query due to a server problem.
    ServerFailure,
    /// Domain referenced in the query does not exist (meaningful only from an
    /// authoritative name server).
    NameError,
    /// Name server does not support the query.
    NotImplemented,
    /// Name server refused the operation.
    Refused,
    /// Reserved response code for future use, carrying the raw value.
    Reserved(u8),
}

impl ResponseCode {
    /// Wire value of this response code; total, including the catch-all.
    pub open spec fn spec_value(self) -> u8 {
        match self {
            ResponseCode::NoErrorCondition => 0,
            ResponseCode::FormatError => 1,
            ResponseCode::ServerFailure => 2,
            ResponseCode::NameError => 3,
            ResponseCode::NotImplemented => 4,
            ResponseCode::Refused => 5,
            ResponseCode::Reserved(v) => v,
        }
    }

    /// Response code a raw value maps to; total, unknown values land in
    /// `Reserved`.
    pub open spec fn spec_from(v: u8) -> ResponseCode {
        if v == 0 {
            ResponseCode::NoErrorCondition
        } else if v == 1 {
            ResponseCode::FormatError
        } else if v == 2 {
            ResponseCode::ServerFailure
        } else if v == 3 {
            ResponseCode::NameError
        } else if v == 4 {
            ResponseCode::NotImplemented
        } else if v == 5 {
            ResponseCode::Refused
        } else {
            ResponseCode::Reserved(v)
        }
    }

    /// A canonical response code: the catch-all never shadows a named value.
    pub open spec fn wf(self) -> bool {
        match self {
            ResponseCode::Reserved(v) => v > 5,
            _ => true,
        }
    }

    pub fn to_value(self) -> (r: u8)
        ensures
            r == self.spec_value(),
    {
        match self {
            ResponseCode::NoErrorCondition => 0,
            ResponseCode::FormatError => 1,
            ResponseCode::ServerFailure => 2,
            ResponseCode::NameError => 3,
            ResponseCode::NotImplemented => 4,
            ResponseCode::Refused => 5,
            ResponseCode::Reserved(v) => v,
        }
    }

    pub fn from_value(v: u8) -> (r: ResponseCode)
        ensures
            r == Self::spec_from(v),
            r.wf(),
    {
        if v == 0 {
            ResponseCode::NoErrorCondition
        } else if v == 1 {
            ResponseCode::FormatError
        } else if v == 2 {
            ResponseCode::ServerFailure
        } else if v == 3 {
            ResponseCode::NameError
        } else if v == 4 {
            ResponseCode::NotImplemented
        } else if v == 5 {
            ResponseCode::Refused
        } else {
            ResponseCode::Reserved(v)
        }
    }
}

impl Default for ResponseCode {
    /// The response code a builder uses when none was supplied.
    fn default() -> (r: Self)
        ensures
            r == ResponseCode::NoErrorCondition,
    {
        ResponseCode::NoErrorCondition
    }
}

/// The response-code counterpart of [`lemma_opcode_value_round_trip`]: every
/// raw byte survives conversion to the enumeration and back.
pub proof fn lemma_response_code_value_round_trip(v: u8)
    ensures
        ResponseCode::spec_from(v).spec_value() == v,
{
}

/// A canonical response code survives conversion to its raw value and back.
pub proof fn lemma_response_code_round_trip(rc: ResponseCode)
    requires
        rc.wf(),
    ensures
        ResponseCode::spec_from(rc.spec_value()) == rc,
{
}

/// Resource record type: the `TYPE` field.  Non-extensible.
#[derive(Clone, Copy, Debug, PartialEq, Eq, Structural)]
pub enum Type {
    /// Host address.
    A,
    /// Authoritative name server.
    NS,
    /// Mail destination (obsolete).
    MD,
    /// Mail forwarder (obsolete).
    MF,
    /// Canonical name for an alias.
    CNAME,
    /// Marks the start of a zone of authority.
    SOA,
    /// Mail box domain name (experimental).
    MB,
    /// Mail box group member (experimental).
    MG,
    /// Mail rename domain name (experimental).
    MR,
    /// Null resource record.
    NULL,
    /// Well known service description.
    WKS,
    /// Domain name pointer.
    PTR,
    /// Host information.
    HINFO,
    /// Mailbox or mail list information.
    MINFO,
    /// Mail exchange.
    MX,
    /// Text strings.
    TXT,
}

impl Type {
    /// Wire value of this record type.
    pub open spec fn spec_value(self) -> u8 {
        match self {
            Type::A => 1,
            Type::NS => 2,
            Type::MD => 3,
            Type::MF => 4,
            Type::CNAME => 5,
            Type::SOA => 6,
            Type::MB => 7,
            Type::MG => 8,
            Type::MR => 9,
            Type::NULL => 10,
            Type::WKS => 11,
            Type::PTR => 12,
            Type::HINFO => 13,
            Type::MINFO => 14,
            Type::MX => 15,
            Type::TXT => 16,
        }
    }

    /// Record type a raw value maps to; values outside 1..=16 are rejected.
    pub open spec fn spec_from(v: u8) -> Result<Type, u8> {
        if v == 1 {
            Ok(Type::A)
        } else if v == 2 {
            Ok(Type::NS)
        } else if v == 3 {
            Ok(Type::MD)
        } else if v == 4 {
            Ok(Type::MF)
        } else if v == 5 {
            Ok(Type::CNAME)
        } else if v == 6 {
            Ok(Type::SOA)
        } else if v == 7 {
            Ok(Type::MB)
        } else if v == 8 {
            Ok(Type::MG)
        } else if v == 9 {
            Ok(Type::MR)
        } else if v == 10 {
            Ok(Type::NULL)
        } else if v == 11 {
            Ok(Type::WKS)
        } else if v == 12 {
            Ok(Type::PTR)
        } else if v == 13 {
            Ok(Type::HINFO)
        } else if v == 14 {
            Ok(Type::MINFO)
        } else if v == 15 {
            Ok(Type::MX)
        } else if v == 16 {
            Ok(Type::TXT)
        } else {
            Err(v)
        }
    }

    pub fn to_value(self) -> (r: u8)
        ensures
            r == self.spec_value(),
    {
        match self {
            Type::A => 1,
            Type::NS => 2,
            Type::MD => 3,
            Type::MF => 4,
            Type::CNAME => 5,
            Type::SOA => 6,
            Type::MB => 7,
            Type::MG => 8,
            Type::MR => 9,
            Type::NULL => 10,
            Type::WKS => 11,
            Type::PTR => 12,
            Type::HINFO => 13,
            Type::MINFO => 14,
            Type::MX => 15,
            Type::TXT => 16,
        }
    }

    pub fn from_value(v: u8) -> (r: Result<Type, u8>)
        ensures
            r == Self::spec_from(v),
    {
        if v == 1 {
            Ok(Type::A)
        } else if v == 2 {
            Ok(Type::NS)
        } else if v == 3 {
            Ok(Type::MD)
        } else if v == 4 {
            Ok(Type::MF)
        } else if v == 5 {
            Ok(Type::CNAME)
        } else if v == 6 {
            Ok(Type::SOA)
        } else if v == 7 {
            Ok(Type::MB)
        } else if v == 8 {
            Ok(Type::MG)
        } else if v == 9 {
            Ok(Type::MR)
        } else if v == 10 {
            Ok(Type::NULL)
        } else if v == 11 {
            Ok(Type::WKS)
        } else if v == 12 {
            Ok(Type::PTR)
        } else if v == 13 {
            Ok(Type::HINFO)
        } else if v == 14 {
            Ok(Type::MINFO)
        } else if v == 15 {
            Ok(Type::MX)
        } else if v == 16 {
            Ok(Type::TXT)
        } else {
            Err(v)
        }
    }
}

/// A record type accepted from the wire reproduces its raw value, and every
/// record type survives conversion to its value and back.
pub proof fn lemma_type_round_trip(t: Type)
    ensures
        Type::spec_from(t.spec_value()) == Ok::<Type, u8>(t),
        forall|v: u8| #[trigger] Type::spec_from(v) matches Ok(x) ==> x.spec_value() == v,
{
}

/// Query type for a question: the `QTYPE` field, a superset of [`Type`].
/// Non-extensible: unknown values are rejected, by the base enumeration.
#[derive(Clone, Copy, Debug, PartialEq, Eq, Structural)]
pub enum QueryType {
    /// Any plain resource record type.
    Type(Type),
    /// Request for a transfer of an entire zone.
    AXFR,
    /// Request for mailbox-related records (MB, MG or MR).
    MAILB,
    /// Request for mail agent resource records (obsolete).
    MAILA,
    /// Request for all records (`*`).
    ALL,
}

impl QueryType {
    /// Wire value of this query type.
    pub open spec fn spec_value(self) -> u8 {
        match self {
            QueryType::Type(t) => t.spec_value(),
            QueryType::AXFR => 252,
            QueryType::MAILB => 253,
            QueryType::MAILA => 254,
            QueryType::ALL => 255,
        }
    }

    /// Query type a raw value maps to: the superset's own values first, then
    /// the base enumeration's, whose rejection propagates unchanged.
    pub open spec fn spec_from(v: u8) -> Result<QueryType, u8> {
        if v == 252 {
            Ok(QueryType::AXFR)
        } else if v == 253 {
            Ok(QueryType::MAILB)
        } else if v == 254 {
            Ok(QueryType::MAILA)
        } else if v == 255 {
            Ok(QueryType::ALL)
        } else {
            match Type::spec_from(v) {
                Ok(t) => Ok(QueryType::Type(t)),
                Err(e) => Err(e),
            }
        }
    }

    pub fn to_value(self) -> (r: u8)
        ensures
            r == self.spec_value(),
    {
        match self {
            QueryType::Type(t) => t.to_value(),
            QueryType::AXFR => 252,
            QueryType::MAILB => 253,
            QueryType::MAILA => 254,
            QueryType::ALL => 255,
        }
    }

    pub fn from_value(v: u8) -> (r: Result<QueryType, u8>)
        ensures
            r == Self::spec_from(v),
    {
        if v == 252 {
            Ok(QueryType::AXFR)
        } else if v == 253 {
            Ok(QueryType::MAILB)
        } else if v == 254 {
            Ok(QueryType::MAILA)
        } else if v == 255 {
            Ok(QueryType::ALL)
        } else {
            match Type::from_value(v) {
                Ok(t) => Ok(QueryType::Type(t)),
                Err(e) => Err(e),
            }
        }
    }
}

/// Query types accepted from the wire reproduce their raw value, and every
/// query type survives conversion to its value and back.
pub proof fn lemma_query_type_round_trip(q: QueryType)
    ensures
        QueryType::spec_from(q.spec_value()) == Ok::<QueryType, u8>(q),
        forall|v: u8| #[trigger] QueryType::spec_from(v) matches Ok(x) ==> x.spec_value() == v,
{
}

/// Class of a resource record: the `CLASS` field.  Non-extensible.
#[derive(Clone, Copy, Debug, PartialEq, Eq, Structural)]
pub enum Class {
    /// The Internet.
    IN,
    /// CSNET class (obsolete).
    CS,
    /// CHAOS class.
    CH,
    /// Hesiod.
    HS,
}

impl Class {
    /// Wire value of this class.
    pub open spec fn spec_value(self) -> u8 {
        match self {
            Class::IN => 1,
            Class::CS => 2,
            Class::CH => 3,
            Class::HS => 4,
        }
    }

    /// Class a raw value maps to; values outside 1..=4 are rejected.
    pub open spec fn spec_from(v: u8) -> Result<Class, u8> {
        if v == 1 {
            Ok(Class::IN)
        } else if v == 2 {
            Ok(Class::CS)
        } else if v == 3 {
            Ok(Class::CH)
        } else if v == 4 {
            Ok(Class::HS)
        } else {
            Err(v)
        }
    }

    pub fn to_value(self) -> (r: u8)
        ensures
            r == self.spec_value(),
    {
        match self {
            Class::IN => 1,
            Class::CS => 2,
            Class::CH => 3,
            Class::HS => 4,
        }
    }

    pub fn from_value(v: u8) -> (r: Result<Class, u8>)
        ensures
            r == Self::spec_from(v),
    {
        if v == 1 {
            Ok(Class::IN)
        } else if v == 2 {
            Ok(Class::CS)
        } else if v == 3 {
            Ok(Class::CH)
        } else if v == 4 {
            Ok(Class::HS)
        } else {
            Err(v)
        }
    }
}

/// Classes accepted from the wire reproduce their raw value, and every class
/// survives conversion to its value and back.
pub proof fn lemma_class_round_trip(c: Class)
    ensures
        Class::spec_from(c.spec_value()) == Ok::<Class, u8>(c),
        forall|v: u8| #[trigger] Class::spec_from(v) matches Ok(x) ==> x.spec_value() == v,
{
}

/// Query class for a question: the `QCLASS` field, a superset of [`Class`].
#[derive(Clone, Copy, Debug, PartialEq, Eq, Structural)]
pub enum QueryClass {
    /// Any plain resource record class.
    Class(Class),
    /// Request for any class (`*`).
    ANY,
}

impl QueryClass {
    /// Wire value of this query class.
    pub open spec fn spec_value(self) -> u8 {
        match self {
            QueryClass::Class(c) => c.spec_value(),
            QueryClass::ANY => 255,
        }
    }

    /// Query class a raw value maps to: the superset's own value first, then
    /// the base enumeration's, whose rejection propagates unchanged.
    pub open spec fn spec_from(v: u8) -> Result<QueryClass, u8> {
        if v == 255 {
            Ok(QueryClass::ANY)
        } else {
            match Class::spec_from(v) {
                Ok(c) => Ok(QueryClass::Class(c)),
                Err(e) => Err(e),
            }
        }
    }

    pub fn to_value(self) -> (r: u8)
        ensures
            r == self.spec_value(),
    {
        match self {
            QueryClass::Class(c) => c.to_value(),
            QueryClass::ANY => 255,
        }
    }

    pub fn from_value(v: u8) -> (r: Result<QueryClass, u8>)
        ensures
            r == Self::spec_from(v),
    {
        if v == 255 {
            Ok(QueryClass::ANY)
        } else {
            match Class::from_value(v) {
                Ok(c) => Ok(QueryClass::Class(c)),
                Err(e) => Err(e),
            }
        }
    }
}

/// Query classes accepted from the wire reproduce their raw value, and every
/// query class survives conversion to its value and back.
pub proof fn lemma_query_class_round_trip(q: QueryClass)
    ensures
        QueryClass::spec_from(q.spec_value()) == Ok::<QueryClass, u8>(q),
        forall|v: u8| #[trigger] QueryClass::spec_from(v) matches Ok(x) ==> x.spec_value() == v,
{
}

} // verus!
