//! A binary codec for DNS protocol messages.
//!
//! The crate translates between an in-memory structured representation of a
//! DNS message (header, question and resource-record sections) and its exact
//! wire-format byte sequence, and back.  Every encoder states the bytes it
//! produces, every decoder states exactly which inputs succeed and which
//! error each failing input yields, and round-trip lemmas prove that
//! decoding an encoded value gives the value back.

use vstd::prelude::*;

pub mod enums;
pub mod header;
pub mod message_format;
pub mod primitives;
pub mod question;
pub mod resource;

use crate::enums::{QueryClass, QueryType, Type};
use crate::message_format::MessageBuilder;
use crate::primitives::{seg_ok, segments, valid_name_text};
use crate::question::Question;
use vstd::string::*;

verus! {

/// The demonstration query's name splits into the segments `ando` and
/// `gq`, both of which fit a label.
proof fn lemma_query_name_valid()
    ensures
        valid_name_text("ando.gq".spec_bytes()),
{
    broadcast use vstd::string::is_ascii_spec_bytes;

    reveal_strlit("ando.gq");
    let s = "ando.gq";
    assert(is_ascii(s));
    let b = s.spec_bytes();
    assert(b =~= seq![97u8, 110u8, 100u8, 111u8, 46u8, 103u8, 113u8]);
    let t1 = b.drop_first();
    let t2 = t1.drop_first();
    let t3 = t2.drop_first();
    let t4 = t3.drop_first();
    let t5 = t4.drop_first();
    let t6 = t5.drop_first();
    let t7 = t6.drop_first();
    assert(t7 =~= Seq::<u8>::empty());
    assert(segments(t7) =~~= seq![Seq::<u8>::empty()]);
    assert(t6[0] == 113);
    assert(segments(t6) =~~= seq![seq![113u8]]);
    assert(t5[0] == 103);
    assert(segments(t5) =~~= seq![seq![103u8, 113u8]]);
    assert(t4[0] == 46);
    assert(segments(t4) =~~= seq![Seq::<u8>::empty(), seq![103u8, 113u8]]);
    assert(t3[0] == 111);
    assert(segments(t3) =~~= seq![seq![111u8], seq![103u8, 113u8]]);
    assert(t2[0] == 100);
    assert(segments(t2) =~~= seq![seq![100u8, 111u8], seq![103u8, 113u8]]);
    assert(t1[0] == 110);
    assert(segments(t1) =~~= seq![seq![110u8, 100u8, 111u8], seq![103u8, 113u8]]);
    assert(b[0] == 97);
    assert(segments(b) =~~= seq![seq![97u8, 110u8, 100u8, 111u8], seq![103u8, 113u8]]);
    assert(forall|i: int|
        0 <= i < segments(b).len() ==> seg_ok(#[trigger] segments(b)[i]));
}

/// Exercises the library end to end: builds a standard query carrying one
/// question, with every step proved to succeed, so nothing here can panic.
pub fn test() {
    proof {
        lemma_query_name_valid();
    }
    let question = match Question::new("ando.gq", QueryType::Type(Type::A), QueryClass::ANY) {
        Ok(q) => q,
        Err(_) => {
            proof {
                assert(false);
            }
            return ;
        },
    };
    match MessageBuilder::query().set_id(10).question(question).build() {
        Ok(_) => (),
        Err(_) => {
            proof {
                assert(false);
            }
        },
    }
}

} // verus!
