use aws_nitro_enclaves_nsm_api::api::{Digest, Error, ErrorCode, Response};
use aws_nitro_enclaves_nsm_api::codec::{decode_response, encode_response, read_response};
use aws_nitro_enclaves_nsm_api::driver::nsm_decode_response_from_cbor;
use std::collections::BTreeSet;

fn description() -> Response {
    let mut locked = BTreeSet::new();
    locked.insert(300);
    locked.insert(0);
    locked.insert(2);
    locked.insert(1);
    Response::DescribeNSM {
        version_major: 1,
        version_minor: 0,
        version_patch: 24,
        module_id: "abcd".to_string(),
        max_pcrs: 32,
        locked_pcrs: locked,
        digest: Digest::SHA384,
    }
}

fn every_response() -> Vec<Response> {
    let mut all = vec![
        Response::DescribePCR { lock: true, data: vec![0; 48] },
        Response::DescribePCR { lock: false, data: vec![] },
        Response::ExtendPCR { data: vec![255; 32] },
        Response::LockPCR,
        Response::LockPCRs,
        description(),
        Response::Attestation { document: vec![0x84, 0x40, 0xa0, 0x40, 0x40] },
        Response::GetRandom { random: vec![1, 2, 3, 4, 5, 6, 7, 8, 9, 10, 11, 12] },
    ];
    for code in [
        ErrorCode::Success,
        ErrorCode::InvalidArgument,
        ErrorCode::InvalidIndex,
        ErrorCode::InvalidResponse,
        ErrorCode::ReadOnlyIndex,
        ErrorCode::InvalidOperation,
        ErrorCode::BufferTooSmall,
        ErrorCode::InputTooLarge,
        ErrorCode::InternalError,
    ] {
        all.push(Response::Error(code));
    }
    all
}

#[test]
fn invalid_index_error_decodes_to_itself() {
    let buffer = encode_response(&Response::Error(ErrorCode::InvalidIndex));
    assert_eq!(buffer, vec![0x82, 0x07, 0x81, 0x82, 0x02, 0x80]);
    assert_eq!(nsm_decode_response_from_cbor(&buffer), Response::Error(ErrorCode::InvalidIndex));
}

#[test]
fn every_response_round_trips() {
    for response in every_response() {
        let bytes = encode_response(&response);
        assert_eq!(nsm_decode_response_from_cbor(&bytes), response);
        assert_eq!(decode_response(&bytes), Ok(response.clone()));
        assert_eq!(read_response(&bytes, 0), Some((response, bytes.len())));
    }
}

#[test]
fn description_has_the_expected_bytes() {
    let expected: Vec<u8> = vec![
        0x82, 0x04, 0x87, 0x01, 0x00, 0x18, 0x18, 0x64, b'a', b'b', b'c', b'd', 0x18, 0x20, 0x84,
        0x00, 0x01, 0x02, 0x19, 0x01, 0x2c, 0x82, 0x01, 0x80,
    ];
    assert_eq!(encode_response(&description()), expected);
}

#[test]
fn responses_have_the_expected_bytes() {
    assert_eq!(encode_response(&Response::LockPCR), vec![0x82, 0x02, 0x80]);
    assert_eq!(encode_response(&Response::LockPCRs), vec![0x82, 0x03, 0x80]);
    assert_eq!(
        encode_response(&Response::DescribePCR { lock: true, data: vec![3] }),
        vec![0x82, 0x00, 0x82, 0xf5, 0x81, 0x03]
    );
    assert_eq!(
        encode_response(&Response::DescribePCR { lock: false, data: vec![] }),
        vec![0x82, 0x00, 0x82, 0xf4, 0x80]
    );
    assert_eq!(
        encode_response(&Response::GetRandom { random: vec![24] }),
        vec![0x82, 0x06, 0x81, 0x81, 0x18, 0x18]
    );
    assert_eq!(
        encode_response(&Response::Error(ErrorCode::InternalError)),
        vec![0x82, 0x07, 0x81, 0x82, 0x08, 0x80]
    );
}

#[test]
fn description_matches_the_cbor_library() {
    let mut e = minicbor::Encoder::new(Vec::new());
    e.array(2).unwrap().i64(4).unwrap();
    e.array(7).unwrap();
    e.u16(1).unwrap().u16(0).unwrap().u16(24).unwrap();
    e.str("abcd").unwrap();
    e.u16(32).unwrap();
    e.array(4).unwrap().u16(0).unwrap().u16(1).unwrap().u16(2).unwrap().u16(300).unwrap();
    e.array(2).unwrap().i64(1).unwrap().array(0).unwrap();
    assert_eq!(encode_response(&description()), e.into_writer());
}

#[test]
fn broken_responses_become_internal_errors() {
    let internal = Response::Error(ErrorCode::InternalError);
    for response in every_response() {
        let bytes = encode_response(&response);
        for cut in 0..bytes.len() {
            assert_eq!(nsm_decode_response_from_cbor(&bytes[..cut]), internal);
        }
        let mut longer = bytes.clone();
        longer.push(0x00);
        assert_eq!(nsm_decode_response_from_cbor(&longer), internal);
        assert_eq!(decode_response(&longer), Ok(response));
    }
    assert_eq!(nsm_decode_response_from_cbor(&[]), internal);
    assert_eq!(nsm_decode_response_from_cbor(&[0xff]), internal);
    assert_eq!(nsm_decode_response_from_cbor(&[0; 0x3000]), internal);
    assert_eq!(nsm_decode_response_from_cbor(&[0x82, 0x07, 0x81, 0x82, 0x09, 0x80]), internal);
    assert_eq!(nsm_decode_response_from_cbor(&[0x82, 0x08, 0x80]), internal);
    assert_eq!(nsm_decode_response_from_cbor(&[0x82, 0x00, 0x82, 0x01, 0x80]), internal);
    assert_eq!(decode_response(&[0x82, 0x08, 0x80]), Err(Error::CborDecode));
}

#[test]
fn unknown_fields_are_passed_over() {
    let bytes = [0x82, 0x01, 0x82, 0x81, 0x09, 0x83, 0x01, 0x02, 0x03];
    assert_eq!(nsm_decode_response_from_cbor(&bytes), Response::ExtendPCR { data: vec![9] });
    let bytes = [0x82, 0x02, 0xa1, 0x01, 0x9f, 0x02, 0x03, 0xff];
    assert_eq!(nsm_decode_response_from_cbor(&bytes), Response::LockPCR);
    let bytes = [0x82, 0x03, 0xa1, 0x01, 0x9f, 0x02, 0x03];
    assert_eq!(
        nsm_decode_response_from_cbor(&bytes),
        Response::Error(ErrorCode::InternalError)
    );
}

#[test]
fn text_must_be_utf8() {
    let mut bytes = encode_response(&description());
    assert_eq!(&bytes[7..12], &[0x64, b'a', b'b', b'c', b'd']);
    bytes[8] = 0xc3;
    bytes[9] = 0xa9;
    match nsm_decode_response_from_cbor(&bytes) {
        Response::DescribeNSM { module_id, .. } => assert_eq!(module_id, "\u{e9}cd"),
        other => panic!("unexpected response {:?}", other),
    }
    bytes[9] = b'b';
    assert_eq!(
        nsm_decode_response_from_cbor(&bytes),
        Response::Error(ErrorCode::InternalError)
    );
}

#[test]
fn repeated_indices_are_one() {
    let mut e = minicbor::Encoder::new(Vec::new());
    e.array(2).unwrap().i64(4).unwrap();
    e.begin_array().unwrap();
    e.u16(2).unwrap().u16(1).unwrap().u16(0).unwrap();
    e.str("").unwrap();
    e.u16(16).unwrap();
    e.begin_array().unwrap().u16(7).unwrap().u16(3).unwrap().u16(7).unwrap().end().unwrap();
    e.array(2).unwrap().i64(2).unwrap().null().unwrap();
    e.end().unwrap();
    let bytes = e.into_writer();
    let mut locked = BTreeSet::new();
    locked.insert(3);
    locked.insert(7);
    assert_eq!(
        nsm_decode_response_from_cbor(&bytes),
        Response::DescribeNSM {
            version_major: 2,
            version_minor: 1,
            version_patch: 0,
            module_id: String::new(),
            max_pcrs: 16,
            locked_pcrs: locked,
            digest: Digest::SHA512,
        }
    );
}
