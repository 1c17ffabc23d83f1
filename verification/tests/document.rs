use aws_nitro_enclaves_nsm_api::api::{AttestationDoc, Digest, Error};
use std::collections::BTreeMap;

fn sample() -> AttestationDoc {
    let mut pcrs = BTreeMap::new();
    pcrs.insert(1, vec![1, 2, 3]);
    pcrs.insert(2, vec![4, 5, 6]);
    pcrs.insert(3, vec![7, 8, 9]);
    AttestationDoc::new(
        "abcd".to_string(),
        Digest::SHA256,
        1234,
        pcrs,
        vec![42; 10],
        vec![],
        Some(vec![255; 10]),
        None,
        None,
    )
}

#[test]
fn test_attestationdoc_binary_encode() {
    let mut pcrs = BTreeMap::new();
    pcrs.insert(1, vec![1, 2, 3]);
    pcrs.insert(2, vec![4, 5, 6]);
    pcrs.insert(3, vec![7, 8, 9]);

    let doc1 = AttestationDoc::new(
        "abcd".to_string(),
        Digest::SHA256,
        1234,
        pcrs,
        vec![42; 10],
        vec![],
        Some(vec![255; 10]),
        None,
        None,
    );
    let bin1 = doc1.to_binary();
    let doc2 = AttestationDoc::from_binary(&bin1).unwrap();
    let bin2 = doc2.to_binary();
    assert_eq!(doc1, doc2);
    assert_eq!(bin1, bin2);
}

#[test]
fn new_keeps_every_part() {
    let doc = sample();
    assert_eq!(doc.module_id, "abcd");
    assert_eq!(doc.digest, Digest::SHA256);
    assert_eq!(doc.timestamp, 1234);
    assert_eq!(doc.pcrs.len(), 3);
    assert_eq!(doc.pcrs[&2], vec![4, 5, 6]);
    assert_eq!(doc.certificate, vec![42; 10]);
    assert!(doc.cabundle.is_empty());
    assert_eq!(doc.user_data, Some(vec![255; 10]));
    assert_eq!(doc.nonce, None);
    assert_eq!(doc.public_key, None);
}

#[test]
fn document_has_the_expected_bytes() {
    let mut expected: Vec<u8> = vec![0x88];
    expected.extend_from_slice(&[0x64, b'a', b'b', b'c', b'd']);
    expected.extend_from_slice(&[0x82, 0x00, 0x80]);
    expected.extend_from_slice(&[0x19, 0x04, 0xd2]);
    expected.extend_from_slice(&[0xa3]);
    expected.extend_from_slice(&[0x01, 0x83, 1, 2, 3]);
    expected.extend_from_slice(&[0x02, 0x83, 4, 5, 6]);
    expected.extend_from_slice(&[0x03, 0x83, 7, 8, 9]);
    expected.push(0x8a);
    for _ in 0..10 {
        expected.extend_from_slice(&[0x18, 42]);
    }
    expected.push(0x80);
    expected.push(0xf6);
    expected.push(0x8a);
    for _ in 0..10 {
        expected.extend_from_slice(&[0x18, 255]);
    }
    assert_eq!(sample().to_binary(), expected);
}

#[test]
fn document_matches_the_cbor_library() {
    let doc = sample();
    let mut e = minicbor::Encoder::new(Vec::new());
    e.array(8).unwrap();
    e.str("abcd").unwrap();
    e.array(2).unwrap().i64(0).unwrap().array(0).unwrap();
    e.u64(1234).unwrap();
    e.map(3).unwrap();
    for (k, v) in doc.pcrs.iter() {
        e.u64(*k as u64).unwrap();
        e.array(v.len() as u64).unwrap();
        for b in v {
            e.u8(*b).unwrap();
        }
    }
    e.array(10).unwrap();
    for b in doc.certificate.iter() {
        e.u8(*b).unwrap();
    }
    e.array(0).unwrap();
    e.null().unwrap();
    e.array(10).unwrap();
    for _ in 0..10 {
        e.u8(255).unwrap();
    }
    assert_eq!(doc.to_binary(), e.into_writer());
}

#[test]
fn trailing_absent_fields_are_left_out() {
    let mut doc = sample();
    doc.user_data = None;
    let bytes = doc.to_binary();
    assert_eq!(bytes[0], 0x86);
    assert_eq!(AttestationDoc::from_binary(&bytes).unwrap(), doc);

    doc.nonce = Some(vec![]);
    let bytes = doc.to_binary();
    assert_eq!(bytes[0], 0x89);
    assert_eq!(&bytes[bytes.len() - 3..], &[0xf6, 0xf6, 0x80]);
    assert_eq!(AttestationDoc::from_binary(&bytes).unwrap(), doc);
}

#[test]
fn registers_are_written_in_ascending_order() {
    let mut pcrs = BTreeMap::new();
    pcrs.insert(300, vec![9]);
    pcrs.insert(0, vec![]);
    pcrs.insert(24, vec![200]);
    let doc = AttestationDoc::new(
        String::new(),
        Digest::SHA512,
        0,
        pcrs,
        vec![],
        vec![vec![1], vec![]],
        None,
        None,
        None,
    );
    let bytes = doc.to_binary();
    let expected: Vec<u8> = vec![
        0x86, 0x60, 0x82, 0x02, 0x80, 0x00, 0xa3, 0x00, 0x80, 0x18, 24, 0x81, 0x18, 200, 0x19,
        0x01, 0x2c, 0x81, 0x09, 0x80, 0x82, 0x81, 0x01, 0x80,
    ];
    assert_eq!(bytes, expected);
    assert_eq!(AttestationDoc::from_binary(&bytes).unwrap(), doc);
}

#[test]
fn document_round_trips_with_every_field() {
    let mut pcrs = BTreeMap::new();
    for i in 0..32usize {
        pcrs.insert(i * 1000, vec![i as u8; 48]);
    }
    let doc = AttestationDoc::new(
        "i-0123456789abcdef-enc\u{e9}\u{4e16}".to_string(),
        Digest::SHA384,
        u64::MAX,
        pcrs,
        (0..=255u8).collect(),
        vec![vec![0; 300], vec![], vec![1, 2, 3]],
        Some(vec![1]),
        Some(vec![2, 2]),
        Some(vec![3, 3, 3]),
    );
    let bytes = doc.to_binary();
    let back = AttestationDoc::from_binary(&bytes).unwrap();
    assert_eq!(back, doc);
    assert_eq!(back.to_binary(), bytes);
}

#[test]
fn document_is_read_from_an_open_array() {
    let mut e = minicbor::Encoder::new(Vec::new());
    e.begin_array().unwrap();
    e.str("m").unwrap();
    e.array(2).unwrap().u8(1).unwrap().null().unwrap();
    e.u32(70000).unwrap();
    e.begin_map().unwrap();
    e.u8(4).unwrap().begin_array().unwrap().u16(7).unwrap().end().unwrap();
    e.u8(4).unwrap().array(1).unwrap().u8(8).unwrap();
    e.end().unwrap();
    e.array(0).unwrap();
    e.begin_array().unwrap().end().unwrap();
    e.end().unwrap();
    let bytes = e.into_writer();
    let doc = AttestationDoc::from_binary(&bytes).unwrap();
    assert_eq!(doc.module_id, "m");
    assert_eq!(doc.digest, Digest::SHA384);
    assert_eq!(doc.timestamp, 70000);
    assert_eq!(doc.pcrs.len(), 1);
    assert_eq!(doc.pcrs[&4], vec![8]);
    assert!(doc.certificate.is_empty());
    assert!(doc.cabundle.is_empty());
    assert_eq!(doc.public_key, None);
    assert_eq!(doc.user_data, None);
    assert_eq!(doc.nonce, None);
}

#[test]
fn document_with_a_missing_field_is_refused() {
    let mut e = minicbor::Encoder::new(Vec::new());
    e.array(5).unwrap();
    e.str("m").unwrap();
    e.array(2).unwrap().u8(0).unwrap().array(0).unwrap();
    e.u8(1).unwrap();
    e.map(0).unwrap();
    e.array(0).unwrap();
    let bytes = e.into_writer();
    assert_eq!(AttestationDoc::from_binary(&bytes), Err(Error::CborDecode));
}

#[test]
fn broken_documents_are_refused() {
    let bytes = sample().to_binary();
    for cut in 0..bytes.len() {
        assert_eq!(AttestationDoc::from_binary(&bytes[..cut]), Err(Error::CborDecode));
    }
    assert_eq!(AttestationDoc::from_binary(&[]), Err(Error::CborDecode));
    assert_eq!(AttestationDoc::from_binary(&[0xa0]), Err(Error::CborDecode));
    let mut wrong_text = bytes.clone();
    wrong_text[2] = 0xff;
    assert_eq!(AttestationDoc::from_binary(&wrong_text), Err(Error::CborDecode));
    let mut wrong_digest = bytes.clone();
    wrong_digest[7] = 0x03;
    assert_eq!(AttestationDoc::from_binary(&wrong_digest), Err(Error::CborDecode));
}

#[test]
fn bytes_behind_a_document_are_not_looked_at() {
    let doc = sample();
    let mut bytes = doc.to_binary();
    bytes.extend_from_slice(&[0xff, 0x00, 0x17]);
    assert_eq!(AttestationDoc::from_binary(&bytes).unwrap(), doc);
}

#[test]
fn digest_register_lengths() {
    assert_eq!(Digest::SHA256.register_len(), 32);
    assert_eq!(Digest::SHA384.register_len(), 48);
    assert_eq!(Digest::SHA512.register_len(), 64);
}
