//! The full message: header plus four record sections, with whole-message
//! encode and decode, and the staged builder that assembles a validated
//! message.
//!
//! Sections are serialized back to back with no padding or delimiters;
//! their boundaries are known only through the header's counts, so the
//! counts must match the sections, which the builder enforces by deriving
//! them.  Decoding parses the header first, then exactly as many records
//! per section as the counts declare, and fails as a whole on the first
//! bad record or on leftover bytes: no partial message is ever returned.

use crate::enums::{Class, MessageType, Opcode, QueryClass, QueryType, ResponseCode, Type};
use crate::header::{Header, HeaderError};
use crate::primitives::LabelError;
use crate::question::Question;
use crate::resource::Resource;
use vstd::prelude::*;

verus! {

/// Failure of a whole-message or record operation.
#[derive(Clone, Copy, Debug, PartialEq, Eq, Structural)]
pub enum MessageError {
    /// A fixed-size record or a derived count does not match the actual
    /// byte or record count; carries the actual size.
    SizeError(usize),
    /// A value had to match a non-extensible enumeration's known values
    /// but did not; carries the offending raw value.
    EnumConversionError(u8),
    /// Fewer bytes remain in the buffer than a field declares it needs.
    TruncatedInputError,
}

impl MessageError {
    /// The message-level error a label or name failure becomes.
    pub open spec fn spec_from_label(e: LabelError) -> MessageError {
        match e {
            LabelError::SizeError(n) => MessageError::SizeError(n),
            LabelError::TruncatedInputError => MessageError::TruncatedInputError,
        }
    }

    /// The message-level error a header failure becomes.
    pub open spec fn spec_from_header(e: HeaderError) -> MessageError {
        match e {
            HeaderError::SizeError(n) => MessageError::SizeError(n),
        }
    }

    pub fn from_label(e: LabelError) -> (r: MessageError)
        ensures
            r == Self::spec_from_label(e),
    {
        match e {
            LabelError::SizeError(n) => MessageError::SizeError(n),
            LabelError::TruncatedInputError => MessageError::TruncatedInputError,
        }
    }

    pub fn from_header(e: HeaderError) -> (r: MessageError)
        ensures
            r == Self::spec_from_header(e),
    {
        match e {
            HeaderError::SizeError(n) => MessageError::SizeError(n),
        }
    }
}

/// Every question's name is fit for the wire.
pub open spec fn questions_wf(qs: Seq<Question>) -> bool {
    forall|i: int| 0 <= i < qs.len() ==> (#[trigger] qs[i]).wf()
}

/// Every record is fit for the wire.
pub open spec fn resources_wf(rs: Seq<Resource>) -> bool {
    forall|i: int| 0 <= i < rs.len() ==> (#[trigger] rs[i]).wf()
}

/// The questions' observable contents, in order.
pub open spec fn question_models(qs: Seq<Question>) -> Seq<(Seq<Seq<u8>>, QueryType, QueryClass)> {
    qs.map_values(|q: Question| q.model())
}

/// The records' observable contents, in order.
pub open spec fn resource_models(rs: Seq<Resource>) -> Seq<
    (Seq<Seq<u8>>, Type, Class, u32, u16, Seq<u8>),
> {
    rs.map_values(|x: Resource| x.model())
}

/// Wire form of a question section: each question's wire form in order.
pub open spec fn wire_questions(qs: Seq<Question>) -> Seq<u8>
    decreases qs.len(),
{
    if qs.len() == 0 {
        Seq::empty()
    } else {
        qs[0].wire() + wire_questions(qs.drop_first())
    }
}

/// Wire form of a resource section: each record's wire form in order.
pub open spec fn wire_resources(rs: Seq<Resource>) -> Seq<u8>
    decreases rs.len(),
{
    if rs.len() == 0 {
        Seq::empty()
    } else {
        rs[0].wire() + wire_resources(rs.drop_first())
    }
}

/// Index of the first question that is not fit for the wire.
pub open spec fn first_bad_question(qs: Seq<Question>) -> int
    decreases qs.len(),
{
    if qs.len() == 0 {
        0
    } else if !qs[0].wf() {
        0
    } else {
        1 + first_bad_question(qs.drop_first())
    }
}

/// Index of the first record that is not fit for the wire.
pub open spec fn first_bad_resource(rs: Seq<Resource>) -> int
    decreases rs.len(),
{
    if rs.len() == 0 {
        0
    } else if !rs[0].wf() {
        0
    } else {
        1 + first_bad_resource(rs.drop_first())
    }
}

proof fn lemma_wire_questions_push(qs: Seq<Question>, q: Question)
    ensures
        wire_questions(qs.push(q)) == wire_questions(qs) + q.wire(),
    decreases qs.len(),
{
    if qs.len() == 0 {
        let s1 = qs.push(q);
        assert(s1.drop_first() =~= Seq::<Question>::empty());
        assert(wire_questions(s1.drop_first()) == Seq::<u8>::empty());
        assert(wire_questions(s1) == s1[0].wire() + wire_questions(s1.drop_first()));
        assert(wire_questions(s1) =~= q.wire());
        assert(wire_questions(qs) + q.wire() =~= q.wire());
    } else {
        assert(qs.push(q).drop_first() =~= qs.drop_first().push(q));
        lemma_wire_questions_push(qs.drop_first(), q);
        assert(qs.push(q)[0] == qs[0]);
        assert(qs[0].wire() + (wire_questions(qs.drop_first()) + q.wire()) =~= (qs[0].wire()
            + wire_questions(qs.drop_first())) + q.wire());
    }
}

proof fn lemma_wire_resources_push(rs: Seq<Resource>, x: Resource)
    ensures
        wire_resources(rs.push(x)) == wire_resources(rs) + x.wire(),
    decreases rs.len(),
{
    if rs.len() == 0 {
        let s1 = rs.push(x);
        assert(s1.drop_first() =~= Seq::<Resource>::empty());
        assert(wire_resources(s1.drop_first()) == Seq::<u8>::empty());
        assert(wire_resources(s1) == s1[0].wire() + wire_resources(s1.drop_first()));
        assert(wire_resources(s1) =~= x.wire());
        assert(wire_resources(rs) + x.wire() =~= x.wire());
    } else {
        assert(rs.push(x).drop_first() =~= rs.drop_first().push(x));
        lemma_wire_resources_push(rs.drop_first(), x);
        assert(rs.push(x)[0] == rs[0]);
        assert(rs[0].wire() + (wire_resources(rs.drop_first()) + x.wire()) =~= (rs[0].wire()
            + wire_resources(rs.drop_first())) + x.wire());
    }
}

proof fn lemma_first_bad_question_at(qs: Seq<Question>, k: int)
    requires
        0 <= k < qs.len(),
        forall|j: int| 0 <= j < k ==> (#[trigger] qs[j]).wf(),
        !qs[k].wf(),
    ensures
        first_bad_question(qs) == k,
    decreases k,
{
    if k > 0 {
        lemma_first_bad_question_at(qs.drop_first(), k - 1);
    }
}

proof fn lemma_first_bad_resource_at(rs: Seq<Resource>, k: int)
    requires
        0 <= k < rs.len(),
        forall|j: int| 0 <= j < k ==> (#[trigger] rs[j]).wf(),
        !rs[k].wf(),
    ensures
        first_bad_resource(rs) == k,
    decreases k,
{
    if k > 0 {
        lemma_first_bad_resource_at(rs.drop_first(), k - 1);
    }
}

/// Serializes one resource section.
fn encode_resources(rs: &Vec<Resource>, out: &mut Vec<u8>) -> (r: Result<(), MessageError>)
    ensures
        resources_wf(rs@) ==> (r matches Ok(u) && final(out)@ == old(out)@ + wire_resources(rs@)),
        !resources_wf(rs@) ==> r == Err::<(), MessageError>(
            rs@[first_bad_resource(rs@)].spec_encode_err(),
        ),
    {
    let ghost head = out@;
    let mut i: usize = 0;
    while i < rs.len()
        invariant
            i <= rs@.len(),
            out@ == head + wire_resources(rs@.subrange(0, i as int)),
            forall|j: int| 0 <= j < i ==> (#[trigger] rs@[j]).wf(),
        decreases rs@.len() - i,
    {
        match rs[i].encode() {
            Ok(mut b) => {
                proof {
                    lemma_wire_resources_push(rs@.subrange(0, i as int), rs@[i as int]);
                    assert(rs@.subrange(0, i + 1) =~= rs@.subrange(0, i as int).push(
                        rs@[i as int],
                    ));
                    assert(head + (wire_resources(rs@.subrange(0, i as int)) + rs@[i as int].wire())
                        =~= (head + wire_resources(rs@.subrange(0, i as int))) + rs@[i as int].wire());
                }
                out.append(&mut b);
            },
            Err(e) => {
                proof {
                    lemma_first_bad_resource_at(rs@, i as int);
                }
                return Err(e);
            },
        }
        i = i + 1;
    }
    proof {
        assert(rs@.subrange(0, rs@.len() as int) =~= rs@);
    }
    Ok(())
}

/// A complete message: one header and its four record sections.
#[derive(Clone, Debug, PartialEq, Eq)]
pub struct Message {
    /// The header, whose counts match the sections.
    pub header: Header,
    /// The question section.
    pub question: Vec<Question>,
    /// The answer section.
    pub answer: Vec<Resource>,
    /// The authority section.
    pub authority: Vec<Resource>,
    /// The additional section.
    pub additional: Vec<Resource>,
}

impl Message {
    /// The header's counts match the sections they describe.
    pub open spec fn counts_ok(self) -> bool {
        &&& self.header.question_count as int == self.question@.len()
        &&& self.header.resource_records_count as int == self.answer@.len()
        &&& self.header.name_server_records_count as int == self.authority@.len()
        &&& self.header.additional_records_count as int == self.additional@.len()
    }

    /// Counts match and every record of every section is fit for the wire.
    pub open spec fn wf(self) -> bool {
        &&& self.counts_ok()
        &&& questions_wf(self.question@)
        &&& resources_wf(self.answer@)
        &&& resources_wf(self.authority@)
        &&& resources_wf(self.additional@)
    }

    /// Wire form: the header, then each section's records in insertion
    /// order, concatenated without padding or delimiters.
    pub open spec fn wire(self) -> Seq<u8> {
        self.header.wire() + wire_questions(self.question@) + wire_resources(self.answer@)
            + wire_resources(self.authority@) + wire_resources(self.additional@)
    }

    /// The message's observable content: the header and the sections'
    /// record models.
    pub open spec fn model(self) -> (
        Header,
        Seq<(Seq<Seq<u8>>, QueryType, QueryClass)>,
        Seq<(Seq<Seq<u8>>, Type, Class, u32, u16, Seq<u8>)>,
        Seq<(Seq<Seq<u8>>, Type, Class, u32, u16, Seq<u8>)>,
        Seq<(Seq<Seq<u8>>, Type, Class, u32, u16, Seq<u8>)>,
    ) {
        (
            self.header,
            question_models(self.question@),
            resource_models(self.answer@),
            resource_models(self.authority@),
            resource_models(self.additional@),
        )
    }

    /// The error encoding this message yields when it is not well formed:
    /// the first count that does not match its section (carrying the
    /// section's actual record count), else the first bad record in
    /// section order.
    pub open spec fn spec_encode_err(self) -> MessageError {
        if self.header.question_count as int != self.question@.len() {
            MessageError::SizeError(self.question@.len() as usize)
        } else if self.header.resource_records_count as int != self.answer@.len() {
            MessageError::SizeError(self.answer@.len() as usize)
        } else if self.header.name_server_records_count as int != self.authority@.len() {
            MessageError::SizeError(self.authority@.len() as usize)
        } else if self.header.additional_records_count as int != self.additional@.len() {
            MessageError::SizeError(self.additional@.len() as usize)
        } else if !questions_wf(self.question@) {
            MessageError::spec_from_label(
                self.question@[first_bad_question(self.question@)].domain_name.spec_encode_err(),
            )
        } else if !resources_wf(self.answer@) {
            self.answer@[first_bad_resource(self.answer@)].spec_encode_err()
        } else if !resources_wf(self.authority@) {
            self.authority@[first_bad_resource(self.authority@)].spec_encode_err()
        } else {
            self.additional@[first_bad_resource(self.additional@)].spec_encode_err()
        }
    }

    /// Serializes the whole message: the header, then every section's
    /// records in order.  A count that does not match its section, or a
    /// record not fit for the wire, aborts with that fault's error.
    pub fn encode(&self) -> (r: Result<Vec<u8>, MessageError>)
        ensures
            self.wf() ==> (r matches Ok(b) && b@ == self.wire()),
            !self.wf() ==> r == Err::<Vec<u8>, MessageError>(self.spec_encode_err()),
    {
        if self.question.len() != self.header.question_count as usize {
            return Err(MessageError::SizeError(self.question.len()));
        }
        if self.answer.len() != self.header.resource_records_count as usize {
            return Err(MessageError::SizeError(self.answer.len()));
        }
        if self.authority.len() != self.header.name_server_records_count as usize {
            return Err(MessageError::SizeError(self.authority.len()));
        }
        if self.additional.len() != self.header.additional_records_count as usize {
            return Err(MessageError::SizeError(self.additional.len()));
        }
        let mut out = self.header.encode();
        let ghost after_header = out@;
        let mut i: usize = 0;
        while i < self.question.len()
            invariant
                i <= self.question@.len(),
                self.counts_ok(),
                out@ == after_header + wire_questions(self.question@.subrange(0, i as int)),
                forall|j: int| 0 <= j < i ==> (#[trigger] self.question@[j]).wf(),
            decreases self.question@.len() - i,
        {
            match self.question[i].encode() {
                Ok(mut b) => {
                    proof {
                        lemma_wire_questions_push(
                            self.question@.subrange(0, i as int),
                            self.question@[i as int],
                        );
                        assert(self.question@.subrange(0, i + 1) =~= self.question@.subrange(
                            0,
                            i as int,
                        ).push(self.question@[i as int]));
                        assert(after_header + (wire_questions(
                            self.question@.subrange(0, i as int),
                        ) + self.question@[i as int].wire()) =~= (after_header + wire_questions(
                            self.question@.subrange(0, i as int),
                        )) + self.question@[i as int].wire());
                    }
                    out.append(&mut b);
                },
                Err(e) => {
                    proof {
                        lemma_first_bad_question_at(self.question@, i as int);
                    }
                    return Err(e);
                },
            }
            i = i + 1;
        }
        proof {
            assert(self.question@.subrange(0, self.question@.len() as int) =~= self.question@);
        }
        match encode_resources(&self.answer, &mut out) {
            Ok(_) => (),
            Err(e) => {
                return Err(e);
            },
        }
        match encode_resources(&self.authority, &mut out) {
            Ok(_) => (),
            Err(e) => {
                return Err(e);
            },
        }
        match encode_resources(&self.additional, &mut out) {
            Ok(_) => (),
            Err(e) => {
                return Err(e);
            },
        }
        proof {
            assert(out@ =~= self.wire());
        }
        Ok(out)
    }
}

/// What decoding `count` consecutive questions at `start` yields: their
/// models and the position just past them, or the first record's error.
pub open spec fn spec_questions_decode(b: Seq<u8>, start: int, count: int) -> Result<
    (Seq<(Seq<Seq<u8>>, QueryType, QueryClass)>, int),
    MessageError,
>
    decreases count,
{
    if count <= 0 {
        Ok((Seq::empty(), start))
    } else {
        match Question::spec_decode(b, start) {
            Err(e) => Err(e),
            Ok(q) => match spec_questions_decode(b, q.1, count - 1) {
                Ok(rest) => Ok((seq![q.0] + rest.0, rest.1)),
                Err(e) => Err(e),
            },
        }
    }
}

/// What decoding `count` consecutive records at `start` yields: their
/// models and the position just past them, or the first record's error.
pub open spec fn spec_resources_decode(b: Seq<u8>, start: int, count: int) -> Result<
    (Seq<(Seq<Seq<u8>>, Type, Class, u32, u16, Seq<u8>)>, int),
    MessageError,
>
    decreases count,
{
    if count <= 0 {
        Ok((Seq::empty(), start))
    } else {
        match Resource::spec_decode(b, start) {
            Err(e) => Err(e),
            Ok(x) => match spec_resources_decode(b, x.1, count - 1) {
                Ok(rest) => Ok((seq![x.0] + rest.0, rest.1)),
                Err(e) => Err(e),
            },
        }
    }
}

/// Reads `count` consecutive questions.
fn decode_questions(bytes: &[u8], start: usize, count: u16) -> (r: Result<
    (Vec<Question>, usize),
    MessageError,
>)
    requires
        start <= bytes@.len(),
    ensures
        match r {
            Ok(p) => questions_wf(p.0@) && p.0@.len() == count as int && p.1 <= bytes@.len()
                && spec_questions_decode(bytes@, start as int, count as int) == Ok::<
                (Seq<(Seq<Seq<u8>>, QueryType, QueryClass)>, int),
                MessageError,
            >((question_models(p.0@), p.1 as int)),
            Err(e) => spec_questions_decode(bytes@, start as int, count as int) == Err::<
                (Seq<(Seq<Seq<u8>>, QueryType, QueryClass)>, int),
                MessageError,
            >(e),
        },
{
    let mut acc: Vec<Question> = Vec::new();
    let mut pos = start;
    let mut k: u16 = 0;
    while k < count
        invariant
            k <= count,
            pos <= bytes@.len(),
            acc@.len() == k as int,
            questions_wf(acc@),
            spec_questions_decode(bytes@, start as int, count as int) == (
            match spec_questions_decode(bytes@, pos as int, count - k) {
                Ok(rest) => Ok::<(Seq<(Seq<Seq<u8>>, QueryType, QueryClass)>, int), MessageError>(
                    (question_models(acc@) + rest.0, rest.1),
                ),
                Err(e) => Err(e),
            }),
        decreases count - k,
    {
        match Question::decode(bytes, pos) {
            Ok((q, next)) => {
                proof {
                    assert(question_models(acc@.push(q)) =~= question_models(acc@).push(
                        q.model(),
                    ));
                    if let Ok(rest) = spec_questions_decode(bytes@, next as int, count - k - 1) {
                        assert(question_models(acc@) + (seq![q.model()] + rest.0)
                            =~= question_models(acc@.push(q)) + rest.0);
                    }
                }
                acc.push(q);
                pos = next;
                k = k + 1;
            },
            Err(e) => {
                return Err(e);
            },
        }
    }
    proof {
        assert(question_models(acc@) + Seq::<(Seq<Seq<u8>>, QueryType, QueryClass)>::empty()
            =~= question_models(acc@));
    }
    Ok((acc, pos))
}

/// Reads `count` consecutive resource records.
fn decode_resources(bytes: &[u8], start: usize, count: u16) -> (r: Result<
    (Vec<Resource>, usize),
    MessageError,
>)
    requires
        start <= bytes@.len(),
    ensures
        match r {
            Ok(p) => resources_wf(p.0@) && p.0@.len() == count as int && p.1 <= bytes@.len()
                && spec_resources_decode(bytes@, start as int, count as int) == Ok::<
                (Seq<(Seq<Seq<u8>>, Type, Class, u32, u16, Seq<u8>)>, int),
                MessageError,
            >((resource_models(p.0@), p.1 as int)),
            Err(e) => spec_resources_decode(bytes@, start as int, count as int) == Err::<
                (Seq<(Seq<Seq<u8>>, Type, Class, u32, u16, Seq<u8>)>, int),
                MessageError,
            >(e),
        },
{
    let mut acc: Vec<Resource> = Vec::new();
    let mut pos = start;
    let mut k: u16 = 0;
    while k < count
        invariant
            k <= count,
            pos <= bytes@.len(),
            acc@.len() == k as int,
            resources_wf(acc@),
            spec_resources_decode(bytes@, start as int, count as int) == (
            match spec_resources_decode(bytes@, pos as int, count - k) {
                Ok(rest) => Ok::<
                    (Seq<(Seq<Seq<u8>>, Type, Class, u32, u16, Seq<u8>)>, int),
                    MessageError,
                >((resource_models(acc@) + rest.0, rest.1)),
                Err(e) => Err(e),
            }),
        decreases count - k,
    {
        match Resource::decode(bytes, pos) {
            Ok((x, next)) => {
                proof {
                    assert(resource_models(acc@.push(x)) =~= resource_models(acc@).push(
                        x.model(),
                    ));
                    if let Ok(rest) = spec_resources_decode(bytes@, next as int, count - k - 1) {
                        assert(resource_models(acc@) + (seq![x.model()] + rest.0)
                            =~= resource_models(acc@.push(x)) + rest.0);
                    }
                }
                acc.push(x);
                pos = next;
                k = k + 1;
            },
            Err(e) => {
                return Err(e);
            },
        }
    }
    proof {
        assert(resource_models(acc@) + Seq::<
            (Seq<Seq<u8>>, Type, Class, u32, u16, Seq<u8>),
        >::empty() =~= resource_models(acc@));
    }
    Ok((acc, pos))
}

impl Message {
    /// What decoding a whole buffer yields: the header and the four
    /// sections' record models, exactly as many records per section as the
    /// header's counts declare.  A buffer shorter than a header, a record
    /// that fails to parse, or leftover trailing bytes (reported as their
    /// count) fail the whole decode: no partial message.
    pub open spec fn spec_decode(b: Seq<u8>) -> Result<
        (
            Header,
            Seq<(Seq<Seq<u8>>, QueryType, QueryClass)>,
            Seq<(Seq<Seq<u8>>, Type, Class, u32, u16, Seq<u8>)>,
            Seq<(Seq<Seq<u8>>, Type, Class, u32, u16, Seq<u8>)>,
            Seq<(Seq<Seq<u8>>, Type, Class, u32, u16, Seq<u8>)>,
        ),
        MessageError,
    > {
        if b.len() < 12 {
            Err(MessageError::SizeError(b.len() as usize))
        } else {
            let h = Header::spec_decode_bytes(b.subrange(0, 12));
            match spec_questions_decode(b, 12, h.question_count as int) {
                Err(e) => Err(e),
                Ok(qp) => match spec_resources_decode(b, qp.1, h.resource_records_count as int) {
                    Err(e) => Err(e),
                    Ok(ap) => match spec_resources_decode(
                        b,
                        ap.1,
                        h.name_server_records_count as int,
                    ) {
                        Err(e) => Err(e),
                        Ok(np) => match spec_resources_decode(
                            b,
                            np.1,
                            h.additional_records_count as int,
                        ) {
                            Err(e) => Err(e),
                            Ok(dp) => if dp.1 != b.len() {
                                Err(MessageError::SizeError((b.len() - dp.1) as usize))
                            } else {
                                Ok((h, qp.0, ap.0, np.0, dp.0))
                            },
                        },
                    },
                },
            }
        }
    }

    /// Parses a whole received buffer: the 12-byte header first, then
    /// exactly as many records per section as its counts declare, each
    /// consumed sequentially.  The first failing record, a short header,
    /// or bytes left over after the declared records fail the whole parse;
    /// no partial message is ever returned.
    pub fn decode(bytes: &[u8]) -> (r: Result<Message, MessageError>)
        ensures
            match r {
                Ok(m) => m.wf() && Self::spec_decode(bytes@) == Ok::<
                    (
                        Header,
                        Seq<(Seq<Seq<u8>>, QueryType, QueryClass)>,
                        Seq<(Seq<Seq<u8>>, Type, Class, u32, u16, Seq<u8>)>,
                        Seq<(Seq<Seq<u8>>, Type, Class, u32, u16, Seq<u8>)>,
                        Seq<(Seq<Seq<u8>>, Type, Class, u32, u16, Seq<u8>)>,
                    ),
                    MessageError,
                >(m.model()),
                Err(e) => Self::spec_decode(bytes@) == Err::<
                    (
                        Header,
                        Seq<(Seq<Seq<u8>>, QueryType, QueryClass)>,
                        Seq<(Seq<Seq<u8>>, Type, Class, u32, u16, Seq<u8>)>,
                        Seq<(Seq<Seq<u8>>, Type, Class, u32, u16, Seq<u8>)>,
                        Seq<(Seq<Seq<u8>>, Type, Class, u32, u16, Seq<u8>)>,
                    ),
                    MessageError,
                >(e),
            },
    {
        if bytes.len() < 12 {
            return Err(MessageError::SizeError(bytes.len()));
        }
        let header = match Header::decode(vstd::slice::slice_subrange(bytes, 0, 12)) {
            Ok(h) => h,
            Err(e) => {
                proof {
                    assert(false);
                }
                return Err(MessageError::from_header(e));
            },
        };
        let (question, after_questions) = match decode_questions(bytes, 12, header.question_count) {
            Ok(p) => p,
            Err(e) => {
                return Err(e);
            },
        };
        let (answer, after_answers) = match decode_resources(
            bytes,
            after_questions,
            header.resource_records_count,
        ) {
            Ok(p) => p,
            Err(e) => {
                return Err(e);
            },
        };
        let (authority, after_authorities) = match decode_resources(
            bytes,
            after_answers,
            header.name_server_records_count,
        ) {
            Ok(p) => p,
            Err(e) => {
                return Err(e);
            },
        };
        let (additional, end) = match decode_resources(
            bytes,
            after_authorities,
            header.additional_records_count,
        ) {
            Ok(p) => p,
            Err(e) => {
                return Err(e);
            },
        };
        if end != bytes.len() {
            return Err(MessageError::SizeError(bytes.len() - end));
        }
        Ok(Message { header, question, answer, authority, additional })
    }
}

proof fn lemma_questions_decode_wire(b: Seq<u8>, start: int, qs: Seq<Question>)
    requires
        0 <= start,
        questions_wf(qs),
        start + wire_questions(qs).len() <= b.len(),
        b.subrange(start, start + wire_questions(qs).len()) =~= wire_questions(qs),
    ensures
        spec_questions_decode(b, start, qs.len() as int) == Ok::<
            (Seq<(Seq<Seq<u8>>, QueryType, QueryClass)>, int),
            MessageError,
        >((question_models(qs), start + wire_questions(qs).len())),
    decreases qs.len(),
{
    if qs.len() == 0 {
        assert(question_models(qs) =~= Seq::<(Seq<Seq<u8>>, QueryType, QueryClass)>::empty());
    } else {
        let q0 = qs[0];
        let rest = qs.drop_first();
        let w = wire_questions(qs);
        let w0 = q0.wire();
        let sub = b.subrange(start, start + w.len());
        assert(w == w0 + wire_questions(rest));
        assert(b.subrange(start, start + w0.len()) =~= w0) by {
            assert(forall|k: int| 0 <= k < w0.len() ==> sub[k] == w[k]);
        }
        crate::question::lemma_question_round_trip(q0, b, start);
        let next = start + w0.len() as int;
        let wr = wire_questions(rest);
        assert(b.subrange(next, next + wr.len()) =~= sub.subrange(
            w0.len() as int,
            w0.len() as int + wr.len() as int,
        ));
        assert(w.subrange(w0.len() as int, w0.len() as int + wr.len() as int) =~= wr);
        assert(b.subrange(next, next + wr.len()) == wr);
        lemma_questions_decode_wire(b, next, rest);
        assert(question_models(qs) =~= seq![q0.model()] + question_models(rest));
    }
}

proof fn lemma_resources_decode_wire(b: Seq<u8>, start: int, rs: Seq<Resource>)
    requires
        0 <= start,
        resources_wf(rs),
        start + wire_resources(rs).len() <= b.len(),
        b.subrange(start, start + wire_resources(rs).len()) =~= wire_resources(rs),
    ensures
        spec_resources_decode(b, start, rs.len() as int) == Ok::<
            (Seq<(Seq<Seq<u8>>, Type, Class, u32, u16, Seq<u8>)>, int),
            MessageError,
        >((resource_models(rs), start + wire_resources(rs).len())),
    decreases rs.len(),
{
    if rs.len() == 0 {
        assert(resource_models(rs) =~= Seq::<
            (Seq<Seq<u8>>, Type, Class, u32, u16, Seq<u8>),
        >::empty());
    } else {
        let x0 = rs[0];
        let rest = rs.drop_first();
        let w = wire_resources(rs);
        let w0 = x0.wire();
        let sub = b.subrange(start, start + w.len());
        assert(w == w0 + wire_resources(rest));
        assert(b.subrange(start, start + w0.len()) =~= w0) by {
            assert(forall|k: int| 0 <= k < w0.len() ==> sub[k] == w[k]);
        }
        crate::resource::lemma_resource_round_trip(x0, b, start);
        let next = start + w0.len() as int;
        let wr = wire_resources(rest);
        assert(b.subrange(next, next + wr.len()) =~= sub.subrange(
            w0.len() as int,
            w0.len() as int + wr.len() as int,
        ));
        assert(w.subrange(w0.len() as int, w0.len() as int + wr.len() as int) =~= wr);
        assert(b.subrange(next, next + wr.len()) == wr);
        lemma_resources_decode_wire(b, next, rest);
        assert(resource_models(rs) =~= seq![x0.model()] + resource_models(rest));
    }
}

/// A valid message survives the wire round trip: decoding its encoding
/// yields its header and, section by section and record by record, the
/// contents it was built from, consuming the whole buffer.
pub proof fn lemma_message_round_trip(m: Message)
    requires
        m.wf(),
        m.header.wf(),
    ensures
        Message::spec_decode(m.wire()) == Ok::<
            (
                Header,
                Seq<(Seq<Seq<u8>>, QueryType, QueryClass)>,
                Seq<(Seq<Seq<u8>>, Type, Class, u32, u16, Seq<u8>)>,
                Seq<(Seq<Seq<u8>>, Type, Class, u32, u16, Seq<u8>)>,
                Seq<(Seq<Seq<u8>>, Type, Class, u32, u16, Seq<u8>)>,
            ),
            MessageError,
        >(m.model()),
{
    let w = m.wire();
    let hw = m.header.wire();
    let wq = wire_questions(m.question@);
    let wa = wire_resources(m.answer@);
    let wn = wire_resources(m.authority@);
    let wd = wire_resources(m.additional@);
    assert(w.len() == 12 + wq.len() + wa.len() + wn.len() + wd.len());
    assert(w.subrange(0, 12) =~= hw);
    crate::header::lemma_header_round_trip(m.header);
    let after_questions = 12 + wq.len() as int;
    let after_answers = after_questions + wa.len() as int;
    let after_authorities = after_answers + wn.len() as int;
    let end = after_authorities + wd.len() as int;
    assert(w.subrange(12, after_questions) =~= wq);
    lemma_questions_decode_wire(w, 12, m.question@);
    assert(w.subrange(after_questions, after_answers) =~= wa);
    lemma_resources_decode_wire(w, after_questions, m.answer@);
    assert(w.subrange(after_answers, after_authorities) =~= wn);
    lemma_resources_decode_wire(w, after_answers, m.authority@);
    assert(w.subrange(after_authorities, end) =~= wd);
    lemma_resources_decode_wire(w, after_authorities, m.additional@);
}

/// Failure of `build()`: a required field was never supplied.
#[derive(Clone, Copy, Debug, PartialEq, Eq, Structural)]
pub enum MessageBuilderError {
    /// The id has not been provided.
    MissingId,
    /// The message type has not been provided.
    MissingMessageType,
    /// The opcode has not been provided.
    MissingOpcode,
}

/// Staged constructor for a message: every field is optional until
/// `build()`, each call consumes the builder and returns the updated one,
/// and the section counts are derived from the appended records, never
/// supplied, so counts and contents cannot disagree.
pub struct MessageBuilder {
    /// Query id, required at build time.
    pub id: Option<u16>,
    /// Message type, required at build time.
    pub message_type: Option<MessageType>,
    /// Opcode, required at build time.
    pub opcode: Option<Opcode>,
    /// Authoritative-answer flag, false unless set.
    pub authoritative_answer: bool,
    /// Truncation flag, false unless set.
    pub truncation: bool,
    /// Recursion-desired flag, false unless set.
    pub recursion_desired: bool,
    /// Recursion-available flag, false unless set.
    pub recursion_available: bool,
    /// Response code, "no error" unless set.
    pub response_code: ResponseCode,
    /// Accumulated question section.
    pub questions: Vec<Question>,
    /// Accumulated answer section.
    pub answers: Vec<Resource>,
    /// Accumulated authority section.
    pub authorities: Vec<Resource>,
    /// Accumulated additional section.
    pub additionals: Vec<Resource>,
}

impl Default for MessageBuilder {
    /// The empty builder: nothing set, every section empty.
    fn default() -> (r: Self)
        ensures
            r.id.is_none(),
            r.message_type.is_none(),
            r.opcode.is_none(),
            !r.authoritative_answer,
            !r.truncation,
            !r.recursion_desired,
            !r.recursion_available,
            r.response_code == ResponseCode::NoErrorCondition,
            r.questions@ == Seq::<Question>::empty(),
            r.answers@ == Seq::<Resource>::empty(),
            r.authorities@ == Seq::<Resource>::empty(),
            r.additionals@ == Seq::<Resource>::empty(),
    {
        MessageBuilder {
            id: None,
            message_type: None,
            opcode: None,
            authoritative_answer: false,
            truncation: false,
            recursion_desired: false,
            recursion_available: false,
            response_code: ResponseCode::NoErrorCondition,
            questions: Vec::new(),
            answers: Vec::new(),
            authorities: Vec::new(),
            additionals: Vec::new(),
        }
    }
}

impl MessageBuilder {
    /// A builder preset for a standard query.
    pub fn query() -> (r: Self)
        ensures
            r.id.is_none(),
            r.message_type == Some(MessageType::Query),
            r.opcode == Some(Opcode::Query),
            !r.authoritative_answer,
            !r.truncation,
            !r.recursion_desired,
            !r.recursion_available,
            r.response_code == ResponseCode::NoErrorCondition,
            r.questions@ == Seq::<Question>::empty(),
            r.answers@ == Seq::<Resource>::empty(),
            r.authorities@ == Seq::<Resource>::empty(),
            r.additionals@ == Seq::<Resource>::empty(),
    {
        Self::default().set_message_type(MessageType::Query).set_opcode(Opcode::Query)
    }

    pub fn set_id(self, id: u16) -> (r: Self)
        ensures
            r == (MessageBuilder { id: Some(id), ..self }),
    {
        MessageBuilder { id: Some(id), ..self }
    }

    pub fn set_message_type(self, message_type: MessageType) -> (r: Self)
        ensures
            r == (MessageBuilder { message_type: Some(message_type), ..self }),
    {
        MessageBuilder { message_type: Some(message_type), ..self }
    }

    pub fn set_opcode(self, opcode: Opcode) -> (r: Self)
        ensures
            r == (MessageBuilder { opcode: Some(opcode), ..self }),
    {
        MessageBuilder { opcode: Some(opcode), ..self }
    }

    pub fn set_authoritative_answer(self, authoritative_answer: bool) -> (r: Self)
        ensures
            r == (MessageBuilder { authoritative_answer, ..self }),
    {
        MessageBuilder { authoritative_answer, ..self }
    }

    pub fn set_truncation(self, truncation: bool) -> (r: Self)
        ensures
            r == (MessageBuilder { truncation, ..self }),
    {
        MessageBuilder { truncation, ..self }
    }

    pub fn set_recursion_desired(self, recursion_desired: bool) -> (r: Self)
        ensures
            r == (MessageBuilder { recursion_desired, ..self }),
    {
        MessageBuilder { recursion_desired, ..self }
    }

    pub fn set_recursion_available(self, recursion_available: bool) -> (r: Self)
        ensures
            r == (MessageBuilder { recursion_available, ..self }),
    {
        MessageBuilder { recursion_available, ..self }
    }

    pub fn set_response_code(self, response_code: ResponseCode) -> (r: Self)
        ensures
            r == (MessageBuilder { response_code, ..self }),
    {
        MessageBuilder { response_code, ..self }
    }

    /// Appends one question to the question section.
    pub fn question(self, question: Question) -> (r: Self)
        ensures
            r.questions@ == self.questions@.push(question),
            r == (MessageBuilder { questions: r.questions, ..self }),
    {
        let mut b = self;
        b.questions.push(question);
        b
    }

    /// Appends one record to the answer section.
    pub fn answer(self, answer: Resource) -> (r: Self)
        ensures
            r.answers@ == self.answers@.push(answer),
            r == (MessageBuilder { answers: r.answers, ..self }),
    {
        let mut b = self;
        b.answers.push(answer);
        b
    }

    /// Appends one record to the authority section.
    pub fn authority(self, authority: Resource) -> (r: Self)
        ensures
            r.authorities@ == self.authorities@.push(authority),
            r == (MessageBuilder { authorities: r.authorities, ..self }),
    {
        let mut b = self;
        b.authorities.push(authority);
        b
    }

    /// Appends one record to the additional section.
    pub fn additional(self, additional: Resource) -> (r: Self)
        ensures
            r.additionals@ == self.additionals@.push(additional),
            r == (MessageBuilder { additionals: r.additionals, ..self }),
    {
        let mut b = self;
        b.additionals.push(additional);
        b
    }

    /// Produces the validated, immutable message, consuming the builder.
    /// Fails, in this order, when the id, the message type or the opcode
    /// was never set; the flags and the response code keep their defaults
    /// when unset, and the header's counts are derived from the sections.
    pub fn build(self) -> (r: Result<Message, MessageBuilderError>)
        requires
            self.questions@.len() <= 65535,
            self.answers@.len() <= 65535,
            self.authorities@.len() <= 65535,
            self.additionals@.len() <= 65535,
        ensures
            self.id.is_none() ==> r == Err::<Message, MessageBuilderError>(
                MessageBuilderError::MissingId,
            ),
            self.id.is_some() && self.message_type.is_none() ==> r == Err::<
                Message,
                MessageBuilderError,
            >(MessageBuilderError::MissingMessageType),
            self.id.is_some() && self.message_type.is_some() && self.opcode.is_none() ==> r
                == Err::<Message, MessageBuilderError>(MessageBuilderError::MissingOpcode),
            self.id.is_some() && self.message_type.is_some() && self.opcode.is_some() ==> (
            r matches Ok(m) && m.counts_ok() && m.header.id == self.id.unwrap()
                && m.header.message_type == self.message_type.unwrap() && m.header.opcode
                == self.opcode.unwrap() && m.header.authoritative_answer
                == self.authoritative_answer && m.header.truncation == self.truncation
                && m.header.recursion_desired == self.recursion_desired
                && m.header.recursion_available == self.recursion_available
                && m.header.response_code == self.response_code && m.question@
                == self.questions@ && m.answer@ == self.answers@ && m.authority@
                == self.authorities@ && m.additional@ == self.additionals@),
    {
        let id = match self.id {
            Some(id) => id,
            None => {
                return Err(MessageBuilderError::MissingId);
            },
        };
        let message_type = match self.message_type {
            Some(t) => t,
            None => {
                return Err(MessageBuilderError::MissingMessageType);
            },
        };
        let opcode = match self.opcode {
            Some(o) => o,
            None => {
                return Err(MessageBuilderError::MissingOpcode);
            },
        };
        let header = Header {
            id,
            message_type,
            opcode,
            authoritative_answer: self.authoritative_answer,
            truncation: self.truncation,
            recursion_desired: self.recursion_desired,
            recursion_available: self.recursion_available,
            response_code: self.response_code,
            question_count: self.questions.len() as u16,
            resource_records_count: self.answers.len() as u16,
            name_server_records_count: self.authorities.len() as u16,
            additional_records_count: self.additionals.len() as u16,
        };
        Ok(
            Message {
                header,
                question: self.questions,
                answer: self.answers,
                authority: self.authorities,
                additional: self.additionals,
            },
        )
    }
}

} // verus!
