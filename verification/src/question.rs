//! Question record: one entry of a message's question section.
//!
//! Wire form: the domain name's labels, then the query type and the query
//! class as one byte each.

use crate::enums::{QueryClass, QueryType};
use crate::message_format::MessageError;
use crate::primitives::{first_bad_segment, segments, valid_name_text, LabelError, LabelSequence};
use vstd::prelude::*;
use vstd::string::*;

verus! {

/// Question section entry of a message.
#[derive(Clone, Debug, PartialEq, Eq)]
pub struct Question {
    /// Domain name the question asks about (`QNAME`).
    pub domain_name: LabelSequence,
    /// Type of query to run (`QTYPE`).
    pub query_type: QueryType,
    /// Class of the query (`QCLASS`).
    pub class: QueryClass,
}

impl Question {
    /// The domain name is fit for the wire.
    pub open spec fn wf(self) -> bool {
        self.domain_name.wf()
    }

    /// Wire form: the name, then the query type and class bytes.
    pub open spec fn wire(self) -> Seq<u8> {
        self.domain_name.wire() + seq![
            self.query_type.spec_value(),
            self.class.spec_value(),
        ]
    }

    /// The question's observable content: name segments, type and class.
    pub open spec fn model(self) -> (Seq<Seq<u8>>, QueryType, QueryClass) {
        (self.domain_name.contents(), self.query_type, self.class)
    }

    /// Builds a question from dotted name text; segments that do not fit a
    /// label are rejected as the name parser says.
    pub fn new(domain_name: &str, query_type: QueryType, class: QueryClass) -> (r: Result<
        Question,
        LabelError,
    >)
        ensures
            valid_name_text(domain_name.spec_bytes()) ==> (r matches Ok(q) && q.wf()
                && q.domain_name.contents() == segments(domain_name.spec_bytes())
                && q.query_type == query_type && q.class == class),
            !valid_name_text(domain_name.spec_bytes()) ==> r == Err::<Question, LabelError>(
                LabelError::SizeError(
                    segments(domain_name.spec_bytes())[first_bad_segment(
                        segments(domain_name.spec_bytes()),
                    )].len() as usize,
                ),
            ),
    {
        let name = LabelSequence::try_from(domain_name.as_bytes())?;
        Ok(Question { domain_name: name, query_type, class })
    }

    /// What decoding a question at `start` yields: its model and the
    /// position just past it, or the first error of its parts.
    pub open spec fn spec_decode(b: Seq<u8>, start: int) -> Result<
        ((Seq<Seq<u8>>, QueryType, QueryClass), int),
        MessageError,
    > {
        match LabelSequence::spec_decode(b, start) {
            Err(e) => Err(MessageError::spec_from_label(e)),
            Ok(name) => if name.1 + 2 > b.len() {
                Err(MessageError::TruncatedInputError)
            } else {
                match QueryType::spec_from(b[name.1]) {
                    Err(v) => Err(MessageError::EnumConversionError(v)),
                    Ok(qt) => match QueryClass::spec_from(b[name.1 + 1]) {
                        Err(v) => Err(MessageError::EnumConversionError(v)),
                        Ok(qc) => Ok(((name.0, qt, qc), name.1 + 2)),
                    },
                }
            },
        }
    }

    /// Serializes the question.  The first label not fit for the wire
    /// aborts with its error; nothing else can fail.
    pub fn encode(&self) -> (r: Result<Vec<u8>, MessageError>)
        ensures
            self.wf() ==> (r matches Ok(b) && b@ == self.wire()),
            !self.wf() ==> r == Err::<Vec<u8>, MessageError>(
                MessageError::spec_from_label(self.domain_name.spec_encode_err()),
            ),
    {
        match self.domain_name.encode() {
            Ok(mut out) => {
                out.push(self.query_type.to_value());
                out.push(self.class.to_value());
                proof {
                    if self.wf() {
                        assert(out@ =~= self.wire());
                    }
                }
                Ok(out)
            },
            Err(e) => Err(MessageError::from_label(e)),
        }
    }

    /// Reads a question from `bytes` at `start`: a domain name, then the
    /// query type and class bytes, whose unknown values are rejected with
    /// the offending value.  On success, also returns the position just
    /// past the question.
    pub fn decode(bytes: &[u8], start: usize) -> (r: Result<(Question, usize), MessageError>)
        ensures
            match r {
                Ok(p) => p.0.wf() && p.1 <= bytes@.len() && Self::spec_decode(
                    bytes@,
                    start as int,
                ) == Ok::<
                    ((Seq<Seq<u8>>, QueryType, QueryClass), int),
                    MessageError,
                >((p.0.model(), p.1 as int)),
                Err(e) => Self::spec_decode(bytes@, start as int) == Err::<
                    ((Seq<Seq<u8>>, QueryType, QueryClass), int),
                    MessageError,
                >(e),
            },
    {
        let (name, pos) = match LabelSequence::decode(bytes, start) {
            Ok(p) => p,
            Err(e) => {
                return Err(MessageError::from_label(e));
            },
        };
        if pos >= bytes.len() || bytes.len() - pos < 2 {
            return Err(MessageError::TruncatedInputError);
        }
        let qt = match QueryType::from_value(bytes[pos]) {
            Ok(qt) => qt,
            Err(v) => {
                return Err(MessageError::EnumConversionError(v));
            },
        };
        let qc = match QueryClass::from_value(bytes[pos + 1]) {
            Ok(qc) => qc,
            Err(v) => {
                return Err(MessageError::EnumConversionError(v));
            },
        };
        Ok((Question { domain_name: name, query_type: qt, class: qc }, pos + 2))
    }
}

/// A well-formed question survives the wire round trip, even embedded at
/// any position of a larger buffer: decoding its encoding yields exactly
/// its model and consumes exactly its wire form.
pub proof fn lemma_question_round_trip(q: Question, b: Seq<u8>, start: int)
    requires
        q.wf(),
        0 <= start,
        start + q.wire().len() <= b.len(),
        b.subrange(start, start + q.wire().len()) =~= q.wire(),
    ensures
        Question::spec_decode(b, start) == Ok::<
            ((Seq<Seq<u8>>, QueryType, QueryClass), int),
            MessageError,
        >((q.model(), start + q.wire().len())),
{
    let w = q.wire();
    let nw = q.domain_name.wire().len() as int;
    assert(b.subrange(start, start + nw) =~= q.domain_name.wire()) by {
        assert(forall|k: int|
            0 <= k < nw ==> b.subrange(start, start + w.len())[k] == q.domain_name.wire()[k]);
    }
    crate::primitives::lemma_name_round_trip(q.domain_name, b, start);
    let p = start + nw;
    assert(b[p] == q.query_type.spec_value() && b[p + 1] == q.class.spec_value()) by {
        assert(b.subrange(start, start + w.len())[nw] == w[nw]);
        assert(b.subrange(start, start + w.len())[nw + 1] == w[nw + 1]);
    }
    crate::enums::lemma_query_type_round_trip(q.query_type);
    crate::enums::lemma_query_class_round_trip(q.class);
}

} // verus!
