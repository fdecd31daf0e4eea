//! Header codec: the fixed 12-byte record that opens every message.
//!
//! Wire layout, big-endian multi-byte fields:
//! bytes 0–1 the id; byte 2 packs QR (bit 7), OPCODE (bits 6–3), AA (bit 2),
//! TC (bit 1) and RD (bit 0); byte 3 packs RA (bit 7), three reserved bits
//! (written as zero, ignored on read) and RCODE (bits 3–0); bytes 4–11 the
//! four section counts.  Encoding cannot fail; decoding requires exactly 12
//! bytes and reports the actual length otherwise.

use crate::enums::{MessageType, Opcode, ResponseCode};
use vstd::prelude::*;

verus! {

/// Failure of a header decode.
#[derive(Clone, Copy, Debug, PartialEq, Eq, Structural)]
pub enum HeaderError {
    /// The buffer is not exactly 12 bytes; carries the actual length.
    SizeError(usize),
}

/// Header section of a message, present in every message.
#[derive(Clone, Copy, Debug, PartialEq, Eq, Structural)]
pub struct Header {
    /// Assigned by the program that generates a query, returned by the
    /// server (`ID`).
    pub id: u16,
    /// Message type (`QR`).
    pub message_type: MessageType,
    /// Kind of query for this message (`OPCODE`).
    pub opcode: Opcode,
    /// The responding server is an authority for the domain (`AA`).
    pub authoritative_answer: bool,
    /// The message was truncated (`TC`).
    pub truncation: bool,
    /// Set in the query and copied into the response: the client wants the
    /// name server to query recursively (`RD`).
    pub recursion_desired: bool,
    /// Set in the response: the name server supports recursive querying
    /// (`RA`).
    pub recursion_available: bool,
    /// Set in the response to a query (`RCODE`).
    pub response_code: ResponseCode,
    /// Number of question entries (`QDCOUNT`).
    pub question_count: u16,
    /// Number of resource records in the answer section (`ANCOUNT`).
    pub resource_records_count: u16,
    /// Number of name server records in the authority section (`NSCOUNT`).
    pub name_server_records_count: u16,
    /// Number of resource records in the additional section (`ARCOUNT`).
    pub additional_records_count: u16,
}

impl Header {
    /// A header whose 4-bit fields hold 4-bit canonical values, as every
    /// decoded header does.
    pub open spec fn wf(self) -> bool {
        &&& self.opcode.wf()
        &&& self.opcode.spec_value() < 16
        &&& self.response_code.wf()
        &&& self.response_code.spec_value() < 16
    }

    /// Byte 2 of the wire form: QR, OPCODE, AA, TC and RD packed.
    pub open spec fn spec_flags_hi(self) -> u8 {
        (self.message_type.spec_value() << 7) | ((self.opcode.spec_value() & 0xf) << 3) | ((
        if self.authoritative_answer {
            1u8
        } else {
            0u8
        }) << 2) | ((if self.truncation {
            1u8
        } else {
            0u8
        }) << 1) | (if self.recursion_desired {
            1u8
        } else {
            0u8
        })
    }

    /// Byte 3 of the wire form: RA, zeroed reserved bits and RCODE packed.
    pub open spec fn spec_flags_lo(self) -> u8 {
        ((if self.recursion_available {
            1u8
        } else {
            0u8
        }) << 7) | (self.response_code.spec_value() & 0xf)
    }

    /// The 12-byte wire form.
    pub open spec fn wire(self) -> Seq<u8> {
        seq![
            (self.id / 256) as u8,
            (self.id % 256) as u8,
            self.spec_flags_hi(),
            self.spec_flags_lo(),
            (self.question_count / 256) as u8,
            (self.question_count % 256) as u8,
            (self.resource_records_count / 256) as u8,
            (self.resource_records_count % 256) as u8,
            (self.name_server_records_count / 256) as u8,
            (self.name_server_records_count % 256) as u8,
            (self.additional_records_count / 256) as u8,
            (self.additional_records_count % 256) as u8,
        ]
    }

    /// The header a 12-byte buffer denotes.  The QR bit picks one of the
    /// two message types and cannot fail; unknown 4-bit opcode and response
    /// code values become their reserved fallbacks, never an error; the
    /// reserved bits of byte 3 are ignored.
    pub open spec fn spec_decode_bytes(b: Seq<u8>) -> Header {
        Header {
            id: (b[0] * 256 + b[1]) as u16,
            message_type: if (b[2] >> 7) & 1 == 1 {
                MessageType::Response
            } else {
                MessageType::Query
            },
            opcode: Opcode::spec_from((b[2] >> 3) & 0xf),
            authoritative_answer: (b[2] >> 2) & 1 == 1,
            truncation: (b[2] >> 1) & 1 == 1,
            recursion_desired: b[2] & 1 == 1,
            recursion_available: (b[3] >> 7) & 1 == 1,
            response_code: ResponseCode::spec_from(b[3] & 0xf),
            question_count: (b[4] * 256 + b[5]) as u16,
            resource_records_count: (b[6] * 256 + b[7]) as u16,
            name_server_records_count: (b[8] * 256 + b[9]) as u16,
            additional_records_count: (b[10] * 256 + b[11]) as u16,
        }
    }

    /// Serializes the header into its exact 12-byte wire form.  Fields
    /// already validated by construction leave this direction without
    /// failure modes; 4-bit fields are masked to their width.
    pub fn encode(&self) -> (r: Vec<u8>)
        ensures
            r@ == self.wire(),
            r@.len() == 12,
    {
        let mut out: Vec<u8> = Vec::new();
        out.push((self.id / 256) as u8);
        out.push((self.id % 256) as u8);
        let mt = self.message_type.to_value();
        let op = self.opcode.to_value();
        let aa: u8 = if self.authoritative_answer {
            1
        } else {
            0
        };
        let tc: u8 = if self.truncation {
            1
        } else {
            0
        };
        let rd: u8 = if self.recursion_desired {
            1
        } else {
            0
        };
        let ra: u8 = if self.recursion_available {
            1
        } else {
            0
        };
        let rc = self.response_code.to_value();
        out.push((mt << 7) | ((op & 0xf) << 3) | (aa << 2) | (tc << 1) | rd);
        out.push((ra << 7) | (rc & 0xf));
        out.push((self.question_count / 256) as u8);
        out.push((self.question_count % 256) as u8);
        out.push((self.resource_records_count / 256) as u8);
        out.push((self.resource_records_count % 256) as u8);
        out.push((self.name_server_records_count / 256) as u8);
        out.push((self.name_server_records_count % 256) as u8);
        out.push((self.additional_records_count / 256) as u8);
        out.push((self.additional_records_count % 256) as u8);
        proof {
            assert(out@ =~= self.wire());
        }
        out
    }

    /// Parses a header from a buffer that must be exactly 12 bytes; any
    /// other length is rejected with the actual length, never a panic or a
    /// silent truncation.
    pub fn decode(bytes: &[u8]) -> (r: Result<Header, HeaderError>)
        ensures
            bytes@.len() == 12 ==> r == Ok::<Header, HeaderError>(
                Self::spec_decode_bytes(bytes@),
            ),
            bytes@.len() != 12 ==> r == Err::<Header, HeaderError>(
                HeaderError::SizeError(bytes@.len() as usize),
            ),
    {
        if bytes.len() != 12 {
            return Err(HeaderError::SizeError(bytes.len()));
        }
        let b2 = bytes[2];
        let b3 = bytes[3];
        Ok(
            Header {
                id: (bytes[0] as u16) * 256 + (bytes[1] as u16),
                message_type: if (b2 >> 7) & 1 == 1 {
                    MessageType::Response
                } else {
                    MessageType::Query
                },
                opcode: Opcode::from_value((b2 >> 3) & 0xf),
                authoritative_answer: (b2 >> 2) & 1 == 1,
                truncation: (b2 >> 1) & 1 == 1,
                recursion_desired: b2 & 1 == 1,
                recursion_available: (b3 >> 7) & 1 == 1,
                response_code: ResponseCode::from_value(b3 & 0xf),
                question_count: (bytes[4] as u16) * 256 + (bytes[5] as u16),
                resource_records_count: (bytes[6] as u16) * 256 + (bytes[7] as u16),
                name_server_records_count: (bytes[8] as u16) * 256 + (bytes[9] as u16),
                additional_records_count: (bytes[10] as u16) * 256 + (bytes[11] as u16),
            },
        )
    }
}

/// A big-endian byte pair reassembles into the 16-bit value it came from.
proof fn lemma_u16_split(v: u16)
    ensures
        ((v / 256) as u8) * 256 + ((v % 256) as u8) == v,
{
}

/// Every valid header survives the wire round trip: decoding its 12-byte
/// encoding reproduces every field.
pub proof fn lemma_header_round_trip(h: Header)
    requires
        h.wf(),
    ensures
        Header::spec_decode_bytes(h.wire()) == h,
{
    let w = h.wire();
    lemma_u16_split(h.id);
    lemma_u16_split(h.question_count);
    lemma_u16_split(h.resource_records_count);
    lemma_u16_split(h.name_server_records_count);
    lemma_u16_split(h.additional_records_count);
    let mt = h.message_type.spec_value();
    let op = h.opcode.spec_value();
    let aa: u8 = if h.authoritative_answer {
        1
    } else {
        0
    };
    let tc: u8 = if h.truncation {
        1
    } else {
        0
    };
    let rd: u8 = if h.recursion_desired {
        1
    } else {
        0
    };
    let ra: u8 = if h.recursion_available {
        1
    } else {
        0
    };
    let rc = h.response_code.spec_value();
    let hi = h.spec_flags_hi();
    let lo = h.spec_flags_lo();
    assert((hi >> 7) & 1 == mt && (hi >> 3) & 0xf == op && (hi >> 2) & 1 == aa && (hi >> 1) & 1
        == tc && hi & 1 == rd) by (bit_vector)
        requires
            hi == (mt << 7) | ((op & 0xf) << 3) | (aa << 2) | (tc << 1) | rd,
            mt < 2,
            op < 16,
            aa < 2,
            tc < 2,
            rd < 2,
    ;
    assert((lo >> 7) & 1 == ra && lo & 0xf == rc) by (bit_vector)
        requires
            lo == (ra << 7) | (rc & 0xf),
            ra < 2,
            rc < 16,
    ;
    crate::enums::lemma_opcode_round_trip(h.opcode);
    crate::enums::lemma_response_code_round_trip(h.response_code);
}

} // verus!

