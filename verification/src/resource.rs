//! Resource record: one entry of the answer, authority or additional
//! section.
//!
//! Wire form: the domain name's labels, the type and class as one byte
//! each, the time to live as four big-endian bytes of seconds, a two-byte
//! big-endian data length, then exactly that many opaque data bytes.

use crate::enums::{Class, Type};
use crate::message_format::MessageError;
use crate::primitives::LabelSequence;
use vstd::prelude::*;

verus! {

/// Resource record of a message, used for the answer, authority and
/// additional sections.
#[derive(Clone, Debug, PartialEq, Eq)]
pub struct Resource {
    /// Domain name the record belongs to.
    pub name: LabelSequence,
    /// Type of the resource record.
    pub record_type: Type,
    /// Class of the resource record.
    pub class: Class,
    /// Time to live, in whole seconds.
    pub ttl: u32,
    /// Size of the data section, in bytes.
    pub data_length: u16,
    /// The opaque data bytes.
    pub data: Vec<u8>,
}

impl Resource {
    /// The name is fit for the wire and the declared data length matches
    /// the data.
    pub open spec fn wf(self) -> bool {
        &&& self.name.wf()
        &&& self.data_length as int == self.data@.len()
    }

    /// Wire form: name, type, class, time to live, data length, data.
    pub open spec fn wire(self) -> Seq<u8> {
        self.name.wire() + seq![
            self.record_type.spec_value(),
            self.class.spec_value(),
            (self.ttl / 16777216) as u8,
            ((self.ttl / 65536) % 256) as u8,
            ((self.ttl / 256) % 256) as u8,
            (self.ttl % 256) as u8,
            (self.data_length / 256) as u8,
            (self.data_length % 256) as u8,
        ] + self.data@
    }

    /// The record's observable content: name segments, type, class, time
    /// to live, declared length and data.
    pub open spec fn model(self) -> (Seq<Seq<u8>>, Type, Class, u32, u16, Seq<u8>) {
        (self.name.contents(), self.record_type, self.class, self.ttl, self.data_length, self.data@)
    }

    /// The error encoding this record yields when it is not well formed:
    /// the name's error first, else the mismatched data size.
    pub open spec fn spec_encode_err(self) -> MessageError {
        if !self.name.wf() {
            MessageError::spec_from_label(self.name.spec_encode_err())
        } else {
            MessageError::SizeError(self.data@.len() as usize)
        }
    }

    /// Builds a record, measuring the data length itself; data longer than
    /// a two-byte length field can declare is rejected.
    pub fn new(name: LabelSequence, record_type: Type, class: Class, ttl: u32, data: Vec<u8>) -> (r:
        Result<Resource, MessageError>)
        ensures
            data@.len() <= 65535 ==> (r matches Ok(res) && res.name == name && res.record_type
                == record_type && res.class == class && res.ttl == ttl && res.data_length as int
                == data@.len() && res.data@ == data@),
            data@.len() > 65535 ==> r == Err::<Resource, MessageError>(
                MessageError::SizeError(data@.len() as usize),
            ),
    {
        if data.len() > 65535 {
            return Err(MessageError::SizeError(data.len()));
        }
        let data_length = data.len() as u16;
        Ok(Resource { name, record_type, class, ttl, data_length, data })
    }

    /// Serializes the record.  A name not fit for the wire aborts with its
    /// error; a declared data length that does not match the data aborts
    /// with the actual data size.
    pub fn encode(&self) -> (r: Result<Vec<u8>, MessageError>)
        ensures
            self.wf() ==> (r matches Ok(b) && b@ == self.wire()),
            !self.wf() ==> r == Err::<Vec<u8>, MessageError>(self.spec_encode_err()),
    {
        let mut out = match self.name.encode() {
            Ok(b) => b,
            Err(e) => {
                return Err(MessageError::from_label(e));
            },
        };
        if self.data.len() != self.data_length as usize {
            return Err(MessageError::SizeError(self.data.len()));
        }
        out.push(self.record_type.to_value());
        out.push(self.class.to_value());
        out.push((self.ttl / 16777216) as u8);
        out.push(((self.ttl / 65536) % 256) as u8);
        out.push(((self.ttl / 256) % 256) as u8);
        out.push((self.ttl % 256) as u8);
        out.push((self.data_length / 256) as u8);
        out.push((self.data_length % 256) as u8);
        let ghost head = out@;
        let mut j: usize = 0;
        while j < self.data.len()
            invariant
                j <= self.data@.len(),
                out@ == head + self.data@.subrange(0, j as int),
            decreases self.data@.len() - j,
        {
            out.push(self.data[j]);
            proof {
                assert(self.data@.subrange(0, j + 1) =~= self.data@.subrange(0, j as int).push(
                    self.data@[j as int],
                ));
            }
            j = j + 1;
        }
        proof {
            assert(self.data@.subrange(0, self.data@.len() as int) =~= self.data@);
            if self.wf() {
                assert(out@ =~= self.wire());
            }
        }
        Ok(out)
    }

    /// What decoding a record at `start` yields: its model and the
    /// position just past it, or the first error of its parts, field by
    /// field.
    pub open spec fn spec_decode(b: Seq<u8>, start: int) -> Result<
        ((Seq<Seq<u8>>, Type, Class, u32, u16, Seq<u8>), int),
        MessageError,
    > {
        match LabelSequence::spec_decode(b, start) {
            Err(e) => Err(MessageError::spec_from_label(e)),
            Ok(name) => {
                let p = name.1;
                if p >= b.len() {
                    Err(MessageError::TruncatedInputError)
                } else {
                    match Type::spec_from(b[p]) {
                        Err(v) => Err(MessageError::EnumConversionError(v)),
                        Ok(t) => if p + 1 >= b.len() {
                            Err(MessageError::TruncatedInputError)
                        } else {
                            match Class::spec_from(b[p + 1]) {
                                Err(v) => Err(MessageError::EnumConversionError(v)),
                                Ok(c) => if p + 8 > b.len() {
                                    Err(MessageError::TruncatedInputError)
                                } else {
                                    let ttl = (b[p + 2] * 16777216 + b[p + 3] * 65536 + b[p + 4]
                                        * 256 + b[p + 5]) as u32;
                                    let dl = (b[p + 6] * 256 + b[p + 7]) as u16;
                                    if p + 8 + dl > b.len() {
                                        Err(MessageError::TruncatedInputError)
                                    } else {
                                        Ok(
                                            (
                                                (
                                                    name.0,
                                                    t,
                                                    c,
                                                    ttl,
                                                    dl,
                                                    b.subrange(p + 8, p + 8 + dl),
                                                ),
                                                p + 8 + dl,
                                            ),
                                        )
                                    }
                                },
                            }
                        },
                    }
                }
            },
        }
    }

    /// Reads a record from `bytes` at `start`: a domain name, the type and
    /// class bytes (records use the non-extensible mappings, whose unknown
    /// values are rejected), the time to live, then the declared number of
    /// data bytes, failing if fewer remain.  On success, also returns the
    /// position just past the record.
    pub fn decode(bytes: &[u8], start: usize) -> (r: Result<(Resource, usize), MessageError>)
        ensures
            match r {
                Ok(p) => p.0.wf() && p.1 <= bytes@.len() && Self::spec_decode(
                    bytes@,
                    start as int,
                ) == Ok::<
                    ((Seq<Seq<u8>>, Type, Class, u32, u16, Seq<u8>), int),
                    MessageError,
                >((p.0.model(), p.1 as int)),
                Err(e) => Self::spec_decode(bytes@, start as int) == Err::<
                    ((Seq<Seq<u8>>, Type, Class, u32, u16, Seq<u8>), int),
                    MessageError,
                >(e),
            },
    {
        let (name, p) = match LabelSequence::decode(bytes, start) {
            Ok(r) => r,
            Err(e) => {
                return Err(MessageError::from_label(e));
            },
        };
        if p >= bytes.len() {
            return Err(MessageError::TruncatedInputError);
        }
        let record_type = match Type::from_value(bytes[p]) {
            Ok(t) => t,
            Err(v) => {
                return Err(MessageError::EnumConversionError(v));
            },
        };
        if p + 1 >= bytes.len() {
            return Err(MessageError::TruncatedInputError);
        }
        let class = match Class::from_value(bytes[p + 1]) {
            Ok(c) => c,
            Err(v) => {
                return Err(MessageError::EnumConversionError(v));
            },
        };
        if bytes.len() - p < 8 {
            return Err(MessageError::TruncatedInputError);
        }
        let ttl = (bytes[p + 2] as u32) * 16777216 + (bytes[p + 3] as u32) * 65536 + (bytes[p + 4]
            as u32) * 256 + (bytes[p + 5] as u32);
        let dl = (bytes[p + 6] as u16) * 256 + (bytes[p + 7] as u16);
        if (dl as usize) > bytes.len() - p - 8 {
            return Err(MessageError::TruncatedInputError);
        }
        let end: usize = p + 8 + (dl as usize);
        let mut data: Vec<u8> = Vec::new();
        let mut j: usize = 0;
        while j < dl as usize
            invariant
                end == p + 8 + dl,
                end <= bytes@.len(),
                j <= dl as usize,
                data@ == bytes@.subrange(p + 8, p + 8 + j),
            decreases dl as usize - j,
        {
            data.push(bytes[p + 8 + j]);
            proof {
                assert(bytes@.subrange(p + 8, p + 8 + j + 1) =~= bytes@.subrange(
                    p + 8,
                    p + 8 + j,
                ).push(bytes@[p + 8 + j]));
            }
            j = j + 1;
        }
        Ok((Resource { name, record_type, class, ttl, data_length: dl, data }, end))
    }
}

/// A big-endian byte pair reassembles into the 16-bit value it came from.
proof fn lemma_u16_split(v: u16)
    ensures
        ((v / 256) as u8) * 256 + ((v % 256) as u8) == v,
{
}

/// Four big-endian bytes reassemble into the 32-bit value they came from.
proof fn lemma_u32_split(v: u32)
    ensures
        ((v / 16777216) as u8) * 16777216 + (((v / 65536) % 256) as u8) * 65536 + (((v / 256)
            % 256) as u8) * 256 + ((v % 256) as u8) == v,
{
}

/// A well-formed record survives the wire round trip, even embedded at any
/// position of a larger buffer: decoding its encoding yields exactly its
/// model — name, type, class, time to live and data — and consumes exactly
/// its wire form.
pub proof fn lemma_resource_round_trip(x: Resource, b: Seq<u8>, start: int)
    requires
        x.wf(),
        0 <= start,
        start + x.wire().len() <= b.len(),
        b.subrange(start, start + x.wire().len()) =~= x.wire(),
    ensures
        Resource::spec_decode(b, start) == Ok::<
            ((Seq<Seq<u8>>, Type, Class, u32, u16, Seq<u8>), int),
            MessageError,
        >((x.model(), start + x.wire().len())),
{
    let w = x.wire();
    let nw = x.name.wire().len() as int;
    assert(b.subrange(start, start + nw) =~= x.name.wire()) by {
        assert(forall|k: int|
            0 <= k < nw ==> b.subrange(start, start + w.len())[k] == x.name.wire()[k]);
    }
    crate::primitives::lemma_name_round_trip(x.name, b, start);
    let p = start + nw;
    let sub = b.subrange(start, start + w.len());
    assert(sub[nw] == w[nw] && b[p] == sub[nw]);
    assert(sub[nw + 1] == w[nw + 1] && b[p + 1] == sub[nw + 1]);
    assert(sub[nw + 2] == w[nw + 2] && b[p + 2] == sub[nw + 2]);
    assert(sub[nw + 3] == w[nw + 3] && b[p + 3] == sub[nw + 3]);
    assert(sub[nw + 4] == w[nw + 4] && b[p + 4] == sub[nw + 4]);
    assert(sub[nw + 5] == w[nw + 5] && b[p + 5] == sub[nw + 5]);
    assert(sub[nw + 6] == w[nw + 6] && b[p + 6] == sub[nw + 6]);
    assert(sub[nw + 7] == w[nw + 7] && b[p + 7] == sub[nw + 7]);
    crate::enums::lemma_type_round_trip(x.record_type);
    crate::enums::lemma_class_round_trip(x.class);
    lemma_u32_split(x.ttl);
    lemma_u16_split(x.data_length);
    let dl = x.data_length as int;
    assert(b.subrange(p + 8, p + 8 + dl) =~= sub.subrange(nw + 8, nw + 8 + dl));
    assert(w.subrange(nw + 8, nw + 8 + dl) =~= x.data@);
    assert(b.subrange(p + 8, p + 8 + dl) == x.data@);
}

} // verus!
