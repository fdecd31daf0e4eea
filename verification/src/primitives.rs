//! Label and domain-name wire codec.
//!
//! A domain name travels on the wire as a sequence of length-prefixed
//! labels: one length byte (1–63) followed by exactly that many content
//! bytes, the whole sequence terminated by a single zero byte (the root
//! label), so a decoder reading labels out of a longer buffer knows where
//! the name ends without an external length.  In text form a domain name is
//! its labels' contents joined with `.`; parsing splits on that delimiter
//! and rejects empty or over-long segments.

use vstd::prelude::*;

verus! {

/// Failure of a label or domain-name operation.
#[derive(Clone, Copy, Debug, PartialEq, Eq, Structural)]
pub enum LabelError {
    /// A declared or actual size is outside what the wire format allows;
    /// carries the offending size (a content length on encode, a length
    /// byte or segment length on decode).
    SizeError(usize),
    /// Fewer bytes remain in the buffer than a length field declares.
    TruncatedInputError,
}

/// One length-prefixed segment of a domain name.
#[derive(Clone, Debug, PartialEq, Eq)]
pub struct Label {
    /// Number of content bytes, as it appears on the wire.
    pub size: u8,
    /// The content bytes.
    pub content: Vec<u8>,
}

impl Label {
    /// A label fit for the wire: the stored size matches the content, which
    /// holds between 1 and 63 bytes.
    pub open spec fn wf(self) -> bool {
        &&& self.size as int == self.content@.len()
        &&& 1 <= self.content@.len() <= 63
    }

    /// Wire form: the length byte followed by the content bytes.
    pub open spec fn wire(self) -> Seq<u8> {
        seq![self.size] + self.content@
    }

    /// The error encoding this label yields when it is not well formed.
    pub open spec fn spec_encode_err(self) -> LabelError {
        if self.content@.len() == 0 || self.content@.len() > 63 {
            LabelError::SizeError(self.content@.len() as usize)
        } else {
            LabelError::SizeError(self.size as usize)
        }
    }

    /// Builds a label from its content, measuring the size itself.  Content
    /// of length 0 or above 63 does not fit a length byte's two reserved
    /// high bits and is rejected.
    pub fn new(content: Vec<u8>) -> (r: Result<Label, LabelError>)
        ensures
            1 <= content@.len() <= 63 ==> (r matches Ok(l) && l.wf() && l.content@ == content@
                && l.size as int == content@.len()),
            !(1 <= content@.len() <= 63) ==> r == Err::<Label, LabelError>(
                LabelError::SizeError(content@.len() as usize),
            ),
    {
        let n = content.len();
        if n == 0 || n > 63 {
            Err(LabelError::SizeError(n))
        } else {
            Ok(Label { size: n as u8, content })
        }
    }

    /// Serializes the label: its length byte, then its content.  A label
    /// whose content length is 0 or above 63, or whose stored size does not
    /// match its content, is rejected with the offending size.
    pub fn encode(&self) -> (r: Result<Vec<u8>, LabelError>)
        ensures
            self.wf() ==> (r matches Ok(b) && b@ == self.wire()),
            !self.wf() ==> r == Err::<Vec<u8>, LabelError>(self.spec_encode_err()),
    {
        let n = self.content.len();
        if n == 0 || n > 63 {
            return Err(LabelError::SizeError(n));
        }
        if self.size as usize != n {
            return Err(LabelError::SizeError(self.size as usize));
        }
        let mut out: Vec<u8> = Vec::new();
        out.push(self.size);
        let mut j: usize = 0;
        while j < n
            invariant
                n == self.content@.len(),
                j <= n,
                out@ == seq![self.size] + self.content@.subrange(0, j as int),
            decreases n - j,
        {
            out.push(self.content[j]);
            proof {
                assert(self.content@.subrange(0, j + 1) =~= self.content@.subrange(0, j as int)
                    .push(self.content@[j as int]));
            }
            j = j + 1;
        }
        proof {
            assert(self.content@.subrange(0, n as int) =~= self.content@);
        }
        Ok(out)
    }

    /// What decoding one label at `start` yields: the content bytes and the
    /// position just past them, or the first error the wire rules give.
    pub open spec fn spec_decode(b: Seq<u8>, start: int) -> Result<(Seq<u8>, int), LabelError> {
        if start < 0 || start >= b.len() {
            Err(LabelError::TruncatedInputError)
        } else if b[start] == 0 || b[start] > 63 {
            Err(LabelError::SizeError(b[start] as usize))
        } else if start + 1 + b[start] > b.len() {
            Err(LabelError::TruncatedInputError)
        } else {
            Ok((b.subrange(start + 1, start + 1 + b[start]), start + 1 + b[start]))
        }
    }

    /// Reads one label from `bytes` at `start`: a length byte of 1–63, then
    /// that many content bytes.  A length byte of 0 or above 63 is a size
    /// error (0 denotes only the terminating root label, which the
    /// domain-name decoder handles); fewer content bytes than declared is a
    /// truncation error.  On success, also returns the position just past
    /// the label.
    pub fn decode(bytes: &[u8], start: usize) -> (r: Result<(Label, usize), LabelError>)
        ensures
            match r {
                Ok(p) => p.0.wf() && Self::spec_decode(bytes@, start as int)
                    == Ok::<(Seq<u8>, int), LabelError>((p.0.content@, p.1 as int)),
                Err(e) => Self::spec_decode(bytes@, start as int)
                    == Err::<(Seq<u8>, int), LabelError>(e),
            },
    {
        if start >= bytes.len() {
            return Err(LabelError::TruncatedInputError);
        }
        let n = bytes[start];
        if n == 0 || n > 63 {
            return Err(LabelError::SizeError(n as usize));
        }
        if (n as usize) > bytes.len() - start - 1 {
            return Err(LabelError::TruncatedInputError);
        }
        let end: usize = start + 1 + (n as usize);
        let mut content: Vec<u8> = Vec::new();
        let mut j: usize = 0;
        while j < n as usize
            invariant
                end == start + 1 + n,
                end <= bytes@.len(),
                j <= n as usize,
                content@ == bytes@.subrange(start + 1, start + 1 + j),
            decreases n as usize - j,
        {
            content.push(bytes[start + 1 + j]);
            proof {
                assert(bytes@.subrange(start + 1, start + 1 + j + 1) =~= bytes@.subrange(
                    start + 1,
                    start + 1 + j,
                ).push(bytes@[start + 1 + j]));
            }
            j = j + 1;
        }
        Ok((Label { size: n, content }, end))
    }
}

/// Wire form of a run of labels: each label's wire form in order, without
/// the terminating root label.
pub open spec fn wire_labels(ls: Seq<Label>) -> Seq<u8>
    decreases ls.len(),
{
    if ls.len() == 0 {
        Seq::empty()
    } else {
        ls[0].wire() + wire_labels(ls.drop_first())
    }
}

/// The content byte strings of a run of labels, in order.
pub open spec fn contents_of(ls: Seq<Label>) -> Seq<Seq<u8>> {
    ls.map_values(|l: Label| l.content@)
}

/// Appending a label extends the wire form by that label's wire form.
pub proof fn lemma_wire_labels_push(ls: Seq<Label>, l: Label)
    ensures
        wire_labels(ls.push(l)) == wire_labels(ls) + l.wire(),
    decreases ls.len(),
{
    if ls.len() == 0 {
        let s1 = ls.push(l);
        assert(s1.drop_first() =~= Seq::<Label>::empty());
        assert(wire_labels(s1.drop_first()) == Seq::<u8>::empty());
        assert(wire_labels(s1) == s1[0].wire() + wire_labels(s1.drop_first()));
        assert(wire_labels(s1) =~= l.wire());
        assert(wire_labels(ls) + l.wire() =~= l.wire());
    } else {
        assert(ls.push(l).drop_first() =~= ls.drop_first().push(l));
        lemma_wire_labels_push(ls.drop_first(), l);
        assert(ls.push(l)[0] == ls[0]);
        assert(ls[0].wire() + (wire_labels(ls.drop_first()) + l.wire()) =~= (ls[0].wire()
            + wire_labels(ls.drop_first())) + l.wire());
    }
}

proof fn lemma_first_bad_label_at(ls: Seq<Label>, k: int)
    requires
        0 <= k < ls.len(),
        forall|j: int| 0 <= j < k ==> (#[trigger] ls[j]).wf(),
        !ls[k].wf(),
    ensures
        LabelSequence::first_bad_label(ls) == k,
    decreases k,
{
    if k > 0 {
        lemma_first_bad_label_at(ls.drop_first(), k - 1);
    }
}

/// A sequence of labels combined and treated as one domain name.
#[derive(Clone, Debug, PartialEq, Eq)]
pub struct LabelSequence {
    /// The labels, in order; the implicit root label is not stored.
    pub labels: Vec<Label>,
}

impl LabelSequence {
    /// Every label is fit for the wire.
    pub open spec fn wf(self) -> bool {
        forall|i: int| 0 <= i < self.labels@.len() ==> (#[trigger] self.labels@[i]).wf()
    }

    /// Wire form: the labels' wire forms in order, terminated by the
    /// zero-length root label.
    pub open spec fn wire(self) -> Seq<u8> {
        wire_labels(self.labels@) + seq![0u8]
    }

    /// The labels' content byte strings, in order.
    pub open spec fn contents(self) -> Seq<Seq<u8>> {
        contents_of(self.labels@)
    }

    /// What decoding a domain name at `start` yields: the labels' contents
    /// and the position just past the terminating root label, or the first
    /// error the wire rules give.  Labels are read until a zero length
    /// byte, which is consumed but yields no label.
    pub open spec fn spec_decode(b: Seq<u8>, start: int) -> Result<
        (Seq<Seq<u8>>, int),
        LabelError,
    >
        decreases b.len() - start,
    {
        if start < 0 || start >= b.len() {
            Err(LabelError::TruncatedInputError)
        } else if b[start] == 0 {
            Ok((Seq::empty(), start + 1))
        } else if b[start] > 63 {
            Err(LabelError::SizeError(b[start] as usize))
        } else if start + 1 + b[start] > b.len() {
            Err(LabelError::TruncatedInputError)
        } else {
            match Self::spec_decode(b, start + 1 + b[start]) {
                Ok(rest) => Ok(
                    (seq![b.subrange(start + 1, start + 1 + b[start])] + rest.0, rest.1),
                ),
                Err(e) => Err(e),
            }
        }
    }

    /// Index of the first label that is not fit for the wire.
    pub open spec fn first_bad_label(ls: Seq<Label>) -> int
        decreases ls.len(),
    {
        if ls.len() == 0 {
            0
        } else if !ls[0].wf() {
            0
        } else {
            1 + Self::first_bad_label(ls.drop_first())
        }
    }

    /// The error encoding this name yields when some label is not well
    /// formed: the first such label's encoding error.
    pub open spec fn spec_encode_err(self) -> LabelError {
        self.labels@[Self::first_bad_label(self.labels@)].spec_encode_err()
    }

    /// Serializes the name: each label's wire form in order, then the
    /// terminating root label.  The first label that is not fit for the
    /// wire aborts with that label's encoding error.
    pub fn encode(&self) -> (r: Result<Vec<u8>, LabelError>)
        ensures
            self.wf() ==> (r matches Ok(b) && b@ == self.wire()),
            !self.wf() ==> r == Err::<Vec<u8>, LabelError>(self.spec_encode_err()),
    {
        let mut out: Vec<u8> = Vec::new();
        let mut i: usize = 0;
        while i < self.labels.len()
            invariant
                i <= self.labels@.len(),
                out@ == wire_labels(self.labels@.subrange(0, i as int)),
                forall|j: int| 0 <= j < i ==> (#[trigger] self.labels@[j]).wf(),
            decreases self.labels@.len() - i,
        {
            match self.labels[i].encode() {
                Ok(mut b) => {
                    proof {
                        lemma_wire_labels_push(
                            self.labels@.subrange(0, i as int),
                            self.labels@[i as int],
                        );
                        assert(self.labels@.subrange(0, i + 1) =~= self.labels@.subrange(
                            0,
                            i as int,
                        ).push(self.labels@[i as int]));
                    }
                    out.append(&mut b);
                },
                Err(e) => {
                    proof {
                        lemma_first_bad_label_at(self.labels@, i as int);
                    }
                    return Err(e);
                },
            }
            i = i + 1;
        }
        proof {
            assert(self.labels@.subrange(0, self.labels@.len() as int) =~= self.labels@);
        }
        out.push(0);
        Ok(out)
    }

    /// Reads a domain name from `bytes` at `start`: labels until a zero
    /// length byte, which is consumed but becomes no label.  On success,
    /// also returns the position just past the zero byte.
    pub fn decode(bytes: &[u8], start: usize) -> (r: Result<(LabelSequence, usize), LabelError>)
        ensures
            match r {
                Ok(p) => p.0.wf() && Self::spec_decode(bytes@, start as int) == Ok::<
                    (Seq<Seq<u8>>, int),
                    LabelError,
                >((p.0.contents(), p.1 as int)),
                Err(e) => Self::spec_decode(bytes@, start as int) == Err::<
                    (Seq<Seq<u8>>, int),
                    LabelError,
                >(e),
            },
    {
        let ghost whole = Self::spec_decode(bytes@, start as int);
        let mut labels: Vec<Label> = Vec::new();
        let mut pos = start;
        loop
            invariant
                forall|j: int| 0 <= j < labels@.len() ==> (#[trigger] labels@[j]).wf(),
                whole == Self::spec_decode(bytes@, start as int),
                whole == match Self::spec_decode(bytes@, pos as int) {
                    Ok(rest) => Ok::<(Seq<Seq<u8>>, int), LabelError>(
                        (contents_of(labels@) + rest.0, rest.1),
                    ),
                    Err(e) => Err(e),
                },
            decreases bytes@.len() - pos,
        {
            if pos >= bytes.len() {
                return Err(LabelError::TruncatedInputError);
            }
            let n = bytes[pos];
            if n == 0 {
                proof {
                    assert(contents_of(labels@) + Seq::<Seq<u8>>::empty() =~= contents_of(
                        labels@,
                    ));
                }
                return Ok((LabelSequence { labels }, pos + 1));
            }
            match Label::decode(bytes, pos) {
                Ok((label, next)) => {
                    proof {
                        assert(contents_of(labels@.push(label)) =~= contents_of(labels@).push(
                            label.content@,
                        ));
                        if let Ok(rest) = Self::spec_decode(bytes@, next as int) {
                            assert((contents_of(labels@) + (seq![label.content@] + rest.0)) =~= (
                            contents_of(labels@).push(label.content@) + rest.0));
                        }
                    }
                    labels.push(label);
                    pos = next;
                },
                Err(e) => {
                    return Err(e);
                },
            }
        }
    }
}

/// Decoding an embedded encoded run of labels yields exactly those labels'
/// contents and consumes exactly the run and its terminator.
proof fn lemma_wire_labels_decode(b: Seq<u8>, start: int, s: Seq<Label>)
    requires
        0 <= start,
        forall|i: int| 0 <= i < s.len() ==> (#[trigger] s[i]).wf(),
        start + wire_labels(s).len() + 1 <= b.len(),
        b.subrange(start, start + wire_labels(s).len() + 1) =~= wire_labels(s) + seq![0u8],
    ensures
        LabelSequence::spec_decode(b, start) == Ok::<(Seq<Seq<u8>>, int), LabelError>(
            (contents_of(s), start + wire_labels(s).len() + 1),
        ),
    decreases s.len(),
{
    let w = b.subrange(start, start + wire_labels(s).len() + 1);
    if s.len() == 0 {
        assert(wire_labels(s) == Seq::<u8>::empty());
        assert(w[0] == b[start]);
        assert(w[0] == (wire_labels(s) + seq![0u8])[0]);
        assert(b[start] == 0);
        assert(contents_of(s) =~= Seq::<Seq<u8>>::empty());
    } else {
        let l0 = s[0];
        let rest = s.drop_first();
        assert(wire_labels(s) == l0.wire() + wire_labels(rest));
        assert(w[0] == b[start]);
        assert(w[0] == (wire_labels(s) + seq![0u8])[0]);
        assert((wire_labels(s) + seq![0u8])[0] == l0.wire()[0]);
        assert(b[start] == l0.size);
        let next = start + 1 + l0.size;
        assert(b.subrange(start + 1, next) =~= l0.content@) by {
            assert(forall|k: int|
                0 <= k < l0.content@.len() ==> b.subrange(
                    start,
                    start + wire_labels(s).len() + 1,
                )[1 + k] == l0.content@[k]);
        }
        assert(b.subrange(next, next + wire_labels(rest).len() + 1) =~= wire_labels(rest)
            + seq![0u8]) by {
            assert(forall|k: int|
                0 <= k < wire_labels(rest).len() + 1 ==> b.subrange(
                    start,
                    start + wire_labels(s).len() + 1,
                )[1 + l0.size + k] == (wire_labels(rest) + seq![0u8])[k]);
        }
        lemma_wire_labels_decode(b, next, rest);
        assert(contents_of(s) =~= seq![l0.content@] + contents_of(rest));
    }
}

/// The textual segments of a name: the byte strings between consecutive
/// `.` delimiters, in order.  Text with no delimiter is one segment; every
/// delimiter opens a new, possibly empty, segment.
pub open spec fn segments(t: Seq<u8>) -> Seq<Seq<u8>>
    decreases t.len(),
{
    if t.len() == 0 {
        seq![Seq::<u8>::empty()]
    } else if t[0] == 46 {
        seq![Seq::<u8>::empty()] + segments(t.drop_first())
    } else {
        let rest = segments(t.drop_first());
        seq![seq![t[0]] + rest[0]] + rest.drop_first()
    }
}

/// Text always has at least one segment.
pub proof fn lemma_segments_len(t: Seq<u8>)
    ensures
        segments(t).len() >= 1,
    decreases t.len(),
{
    if t.len() != 0 {
        lemma_segments_len(t.drop_first());
    }
}

/// A textual segment that fits one label: 1 to 63 bytes.
pub open spec fn seg_ok(s: Seq<u8>) -> bool {
    1 <= s.len() <= 63
}

/// Text that parses into a domain name: every dot-separated segment fits
/// one label.
pub open spec fn valid_name_text(t: Seq<u8>) -> bool {
    forall|i: int| 0 <= i < segments(t).len() ==> seg_ok(#[trigger] segments(t)[i])
}

/// Index of the first segment that does not fit a label.
pub open spec fn first_bad_segment(ss: Seq<Seq<u8>>) -> int
    decreases ss.len(),
{
    if ss.len() == 0 {
        0
    } else if !seg_ok(ss[0]) {
        0
    } else {
        1 + first_bad_segment(ss.drop_first())
    }
}

proof fn lemma_first_bad_at(ss: Seq<Seq<u8>>, k: int)
    requires
        0 <= k < ss.len(),
        forall|j: int| 0 <= j < k ==> seg_ok(#[trigger] ss[j]),
        !seg_ok(ss[k]),
    ensures
        first_bad_segment(ss) == k,
    decreases k,
{
    if k > 0 {
        lemma_first_bad_at(ss.drop_first(), k - 1);
    }
}

impl LabelSequence {
    /// Splits dotted name text into labels: the text between consecutive
    /// `.` delimiters becomes one label each, in order.  The first segment
    /// that is empty or longer than 63 bytes aborts with its length.
    pub fn try_from(text: &[u8]) -> (r: Result<LabelSequence, LabelError>)
        ensures
            valid_name_text(text@) ==> (r matches Ok(ls) && ls.wf() && ls.contents() == segments(
                text@,
            )),
            !valid_name_text(text@) ==> r == Err::<LabelSequence, LabelError>(
                LabelError::SizeError(
                    segments(text@)[first_bad_segment(segments(text@))].len() as usize,
                ),
            ),
    {
        let ghost t = text@;
        let mut labels: Vec<Label> = Vec::new();
        let mut cur: Vec<u8> = Vec::new();
        let mut i: usize = 0;
        proof {
            lemma_segments_len(t);
            assert(t.subrange(0, t.len() as int) =~= t);
            assert(contents_of(labels@) =~= Seq::<Seq<u8>>::empty());
            assert(cur@ + segments(t)[0] =~= segments(t)[0]);
            assert(segments(t) =~= contents_of(labels@) + seq![cur@ + segments(
                t.subrange(0, t.len() as int),
            )[0]] + segments(t.subrange(0, t.len() as int)).drop_first());
        }
        while i < text.len()
            invariant
                i <= t.len(),
                t == text@,
                forall|j: int| 0 <= j < labels@.len() ==> (#[trigger] labels@[j]).wf(),
                segments(t) == contents_of(labels@) + seq![cur@ + segments(
                    t.subrange(i as int, t.len() as int),
                )[0]] + segments(t.subrange(i as int, t.len() as int)).drop_first(),
            decreases t.len() - i,
        {
            let ghost rem = t.subrange(i as int, t.len() as int);
            let ghost rem2 = t.subrange(i + 1, t.len() as int);
            proof {
                assert(rem[0] == t[i as int]);
                assert(rem.drop_first() =~= rem2);
                lemma_segments_len(rem2);
            }
            let c = text[i];
            if c == 46 {
                proof {
                    assert(segments(rem) == seq![Seq::<u8>::empty()] + segments(rem2));
                    assert(cur@ + segments(rem)[0] =~= cur@);
                    assert(segments(rem).drop_first() =~= segments(rem2));
                }
                let ghost old_labels = labels@;
                let ghost old_cur = cur@;
                let n = cur.len();
                if n == 0 || n > 63 {
                    proof {
                        let ss = segments(t);
                        let k = labels@.len() as int;
                        assert(ss[k] == old_cur);
                        assert(forall|j: int|
                            0 <= j < k ==> ss[j] == contents_of(labels@)[j] && seg_ok(
                                #[trigger] ss[j],
                            ));
                        lemma_first_bad_at(ss, k);
                    }
                    return Err(LabelError::SizeError(n));
                }
                let lbl = Label { size: n as u8, content: cur };
                labels.push(lbl);
                cur = Vec::new();
                proof {
                    assert(contents_of(labels@) =~= contents_of(old_labels).push(old_cur));
                    assert(segments(t) =~= contents_of(labels@) + seq![cur@ + segments(rem2)[0]]
                        + segments(rem2).drop_first());
                }
            } else {
                proof {
                    let r0 = segments(rem2);
                    assert(segments(rem) == seq![seq![rem[0]] + r0[0]] + r0.drop_first());
                    assert(cur@ + segments(rem)[0] =~= cur@.push(c) + r0[0]);
                    assert(segments(rem).drop_first() =~= r0.drop_first());
                    assert(contents_of(labels@) + seq![cur@ + segments(rem)[0]] + segments(
                        rem,
                    ).drop_first() =~= contents_of(labels@) + seq![cur@.push(c) + r0[0]]
                        + r0.drop_first());
                }
                cur.push(c);
            }
            i = i + 1;
        }
        let ghost rem = t.subrange(t.len() as int, t.len() as int);
        proof {
            assert(rem.len() == 0);
            assert(segments(rem) == seq![Seq::<u8>::empty()]);
            assert(cur@ + segments(rem)[0] =~= cur@);
            assert(segments(rem).drop_first() =~= Seq::<Seq<u8>>::empty());
            assert(segments(t) =~= contents_of(labels@).push(cur@));
        }
        let ghost old_cur = cur@;
        let n = cur.len();
        if n == 0 || n > 63 {
            proof {
                let ss = segments(t);
                let k = labels@.len() as int;
                assert(ss[k] == old_cur);
                assert(forall|j: int|
                    0 <= j < k ==> ss[j] == contents_of(labels@)[j] && seg_ok(#[trigger] ss[j]));
                lemma_first_bad_at(ss, k);
            }
            return Err(LabelError::SizeError(n));
        }
        let lbl = Label { size: n as u8, content: cur };
        labels.push(lbl);
        proof {
            assert(contents_of(labels@) =~= segments(t));
        }
        Ok(LabelSequence { labels })
    }
}

/// A domain name of well-formed labels survives the wire round trip: its
/// encoded form decodes to exactly its labels' contents, consuming the
/// whole encoding, even when embedded at any position of a larger buffer.
pub proof fn lemma_name_round_trip(ls: LabelSequence, b: Seq<u8>, start: int)
    requires
        ls.wf(),
        0 <= start,
        start + ls.wire().len() <= b.len(),
        b.subrange(start, start + ls.wire().len()) =~= ls.wire(),
    ensures
        LabelSequence::spec_decode(b, start) == Ok::<(Seq<Seq<u8>>, int), LabelError>(
            (ls.contents(), start + ls.wire().len()),
        ),
{
    lemma_wire_labels_decode(b, start, ls.labels@);
}

} // verus!
