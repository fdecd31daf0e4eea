use dns::primitives::{Label, LabelError, LabelSequence};

#[test]
fn label_new_measures_size() {
    let label = Label::new(vec![10, 11, 12]).unwrap();
    assert_eq!(label.size, 3);
    assert_eq!(label.content, vec![10, 11, 12]);
}

#[test]
fn label_empty_content_fails() {
    assert_eq!(Label::new(vec![]), Err(LabelError::SizeError(0)));
}

#[test]
fn label_oversize_content_fails() {
    let content = vec![7u8; 64];
    assert_eq!(Label::new(content), Err(LabelError::SizeError(64)));
    let exact = vec![7u8; 63];
    assert!(Label::new(exact).is_ok());
}

#[test]
fn label_encode_wire_form() {
    let label = Label::new(vec![10, 11, 12, 13, 14]).unwrap();
    assert_eq!(label.encode().unwrap(), vec![5, 10, 11, 12, 13, 14]);
}

#[test]
fn label_encode_rejects_empty_and_oversize() {
    let empty = Label { size: 0, content: vec![] };
    assert_eq!(empty.encode(), Err(LabelError::SizeError(0)));
    let oversize = Label { size: 64, content: vec![1u8; 64] };
    assert_eq!(oversize.encode(), Err(LabelError::SizeError(64)));
}

#[test]
fn label_encode_rejects_mismatched_size() {
    let label = Label { size: 5, content: vec![1, 2, 3] };
    assert_eq!(label.encode(), Err(LabelError::SizeError(5)));
}

#[test]
fn label_decode_reads_one_label() {
    let bytes: &[u8] = &[5, 10, 11, 12, 13, 14];
    let (label, next) = Label::decode(bytes, 0).unwrap();
    assert_eq!(label.size, 5);
    assert_eq!(label.content, vec![10, 11, 12, 13, 14]);
    assert_eq!(next, 6);
}

#[test]
fn label_decode_length_byte_over_63_fails() {
    let bytes: &[u8] = &[64, 1, 2];
    assert_eq!(Label::decode(bytes, 0), Err(LabelError::SizeError(64)));
}

#[test]
fn label_decode_zero_length_byte_fails() {
    let bytes: &[u8] = &[0, 1, 2];
    assert_eq!(Label::decode(bytes, 0), Err(LabelError::SizeError(0)));
}

#[test]
fn label_decode_truncated_content_fails() {
    let bytes: &[u8] = &[3, 1];
    assert_eq!(Label::decode(bytes, 0), Err(LabelError::TruncatedInputError));
    let empty: &[u8] = &[];
    assert_eq!(Label::decode(empty, 0), Err(LabelError::TruncatedInputError));
}

#[test]
fn name_parse_splits_on_dots() {
    let name = LabelSequence::try_from(b"ando.gq").unwrap();
    assert_eq!(name.labels.len(), 2);
    assert_eq!(name.labels[0].content, b"ando".to_vec());
    assert_eq!(name.labels[1].content, b"gq".to_vec());
}

#[test]
fn name_encode_wire_form() {
    let name = LabelSequence::try_from(b"ando.gq").unwrap();
    assert_eq!(
        name.encode().unwrap(),
        vec![4, b'a', b'n', b'd', b'o', 2, b'g', b'q', 0],
    );
}

#[test]
fn name_parse_rejects_empty_text() {
    assert_eq!(LabelSequence::try_from(b""), Err(LabelError::SizeError(0)));
}

#[test]
fn name_parse_rejects_empty_segments() {
    assert_eq!(LabelSequence::try_from(b"a..b"), Err(LabelError::SizeError(0)));
    assert_eq!(LabelSequence::try_from(b".a"), Err(LabelError::SizeError(0)));
    assert_eq!(LabelSequence::try_from(b"a."), Err(LabelError::SizeError(0)));
}

#[test]
fn name_parse_rejects_long_segment() {
    let mut text = vec![b'x'; 64];
    text.push(b'.');
    text.push(b'y');
    assert_eq!(LabelSequence::try_from(&text), Err(LabelError::SizeError(64)));
    let edge = vec![b'x'; 63];
    let name = LabelSequence::try_from(&edge).unwrap();
    assert_eq!(name.labels.len(), 1);
    assert_eq!(name.labels[0].size, 63);
}

#[test]
fn name_wire_round_trip() {
    let name = LabelSequence::try_from(b"mail.example.com").unwrap();
    let wire = name.encode().unwrap();
    let (decoded, next) = LabelSequence::decode(&wire, 0).unwrap();
    assert_eq!(decoded, name);
    assert_eq!(next, wire.len());
}

#[test]
fn name_decode_stops_at_root_label() {
    let bytes: &[u8] = &[255, 1, b'a', 0, 7, 7];
    let (name, next) = LabelSequence::decode(bytes, 1).unwrap();
    assert_eq!(name.labels.len(), 1);
    assert_eq!(name.labels[0].content, vec![b'a']);
    assert_eq!(next, 4);
}

#[test]
fn name_decode_missing_terminator_fails() {
    let bytes: &[u8] = &[1, b'a'];
    assert_eq!(
        LabelSequence::decode(bytes, 0),
        Err(LabelError::TruncatedInputError),
    );
}
