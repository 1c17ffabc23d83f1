use aws_nitro_enclaves_nsm_api::api::{Error, Request};
use aws_nitro_enclaves_nsm_api::codec::{decode_request, encode_request, read_request};
use aws_nitro_enclaves_nsm_api::driver::nsm_encode_request_to_cbor;

fn every_request() -> Vec<Request> {
    vec![
        Request::DescribePCR { index: 5 },
        Request::DescribePCR { index: 65535 },
        Request::ExtendPCR { index: 16, data: vec![1, 255] },
        Request::ExtendPCR { index: 0, data: vec![] },
        Request::ExtendPCR { index: 300, data: vec![7; 1000] },
        Request::LockPCR { index: 23 },
        Request::LockPCRs { range: 24 },
        Request::DescribeNSM,
        Request::Attestation { user_data: None, nonce: None, public_key: None },
        Request::Attestation { user_data: Some(vec![1]), nonce: None, public_key: None },
        Request::Attestation { user_data: None, nonce: Some(vec![7]), public_key: None },
        Request::Attestation { user_data: None, nonce: None, public_key: Some(vec![]) },
        Request::Attestation {
            user_data: Some(vec![128; 1024]),
            nonce: Some(vec![128; 1024]),
            public_key: Some(vec![128; 1024]),
        },
        Request::GetRandom,
    ]
}

#[test]
fn describe_pcr_round_trips() {
    let request = Request::DescribePCR { index: 5 };
    let bytes = encode_request(&request);
    assert_eq!(bytes, vec![0x82, 0x00, 0x81, 0x05]);
    assert_eq!(decode_request(&bytes), Ok(request));
}

#[test]
fn every_request_round_trips() {
    for request in every_request() {
        let bytes = encode_request(&request);
        assert_eq!(decode_request(&bytes), Ok(request.clone()));
        assert_eq!(read_request(&bytes, 0), Some((request.clone(), bytes.len())));
        assert_eq!(nsm_encode_request_to_cbor(request), bytes);
    }
}

#[test]
fn requests_have_the_expected_bytes() {
    assert_eq!(encode_request(&Request::DescribeNSM), vec![0x82, 0x04, 0x80]);
    assert_eq!(encode_request(&Request::GetRandom), vec![0x82, 0x06, 0x80]);
    assert_eq!(encode_request(&Request::LockPCR { index: 23 }), vec![0x82, 0x02, 0x81, 0x17]);
    assert_eq!(
        encode_request(&Request::LockPCRs { range: 24 }),
        vec![0x82, 0x03, 0x81, 0x18, 0x18]
    );
    assert_eq!(
        encode_request(&Request::DescribePCR { index: 65535 }),
        vec![0x82, 0x00, 0x81, 0x19, 0xff, 0xff]
    );
    assert_eq!(
        encode_request(&Request::ExtendPCR { index: 16, data: vec![1, 255] }),
        vec![0x82, 0x01, 0x82, 0x10, 0x82, 0x01, 0x18, 0xff]
    );
    assert_eq!(
        encode_request(&Request::Attestation { user_data: None, nonce: None, public_key: None }),
        vec![0x82, 0x05, 0x80]
    );
    assert_eq!(
        encode_request(&Request::Attestation {
            user_data: None,
            nonce: Some(vec![7]),
            public_key: None
        }),
        vec![0x82, 0x05, 0x82, 0xf6, 0x81, 0x07]
    );
}

#[test]
fn long_byte_strings_get_long_heads() {
    let bytes = encode_request(&Request::ExtendPCR { index: 1, data: vec![0; 70000] });
    assert_eq!(&bytes[..9], &[0x82, 0x01, 0x82, 0x01, 0x9a, 0x00, 0x01, 0x11, 0x70]);
    assert_eq!(bytes.len(), 9 + 70000);
    let bytes = encode_request(&Request::ExtendPCR { index: 1, data: vec![24; 256] });
    assert_eq!(&bytes[..7], &[0x82, 0x01, 0x82, 0x01, 0x99, 0x01, 0x00]);
    assert_eq!(bytes.len(), 7 + 512);
}

#[test]
fn requests_match_the_cbor_library() {
    let mut e = minicbor::Encoder::new(Vec::new());
    e.array(2).unwrap().i64(1).unwrap();
    e.array(2).unwrap().u16(4660).unwrap();
    e.array(3).unwrap().u8(0).unwrap().u8(23).unwrap().u8(24).unwrap();
    assert_eq!(
        encode_request(&Request::ExtendPCR { index: 4660, data: vec![0, 23, 24] }),
        e.into_writer()
    );

    let mut e = minicbor::Encoder::new(Vec::new());
    e.array(2).unwrap().i64(5).unwrap();
    e.array(3).unwrap();
    e.array(1).unwrap().u8(200).unwrap();
    e.null().unwrap();
    e.array(0).unwrap();
    assert_eq!(
        encode_request(&Request::Attestation {
            user_data: Some(vec![200]),
            nonce: None,
            public_key: Some(vec![])
        }),
        e.into_writer()
    );
}

#[test]
fn numbers_are_read_in_every_width() {
    let wide = [0x82, 0x1b, 0, 0, 0, 0, 0, 0, 0, 0x02, 0x81, 0x1a, 0, 0, 0x01, 0x00];
    assert_eq!(decode_request(&wide), Ok(Request::LockPCR { index: 256 }));
    let too_large = [0x82, 0x02, 0x81, 0x1a, 0, 0x01, 0x00, 0x00];
    assert_eq!(decode_request(&too_large), Err(Error::CborDecode));
    let bytes_too_large = [0x82, 0x01, 0x82, 0x00, 0x81, 0x19, 0x01, 0x00];
    assert_eq!(decode_request(&bytes_too_large), Err(Error::CborDecode));
}

#[test]
fn unknown_request_variants_are_refused() {
    assert_eq!(decode_request(&[0x82, 0x07, 0x80]), Err(Error::CborDecode));
    assert_eq!(decode_request(&[0x82, 0x20, 0x80]), Err(Error::CborDecode));
    assert_eq!(decode_request(&[0x83, 0x04, 0x80, 0x80]), Err(Error::CborDecode));
    assert_eq!(decode_request(&[0x9f, 0x04, 0x80, 0xff]), Err(Error::CborDecode));
    assert_eq!(decode_request(&[0x04]), Err(Error::CborDecode));
    assert_eq!(decode_request(&[]), Err(Error::CborDecode));
}

#[test]
fn absent_and_extra_request_fields() {
    assert_eq!(decode_request(&[0x82, 0x00, 0x80]), Err(Error::CborDecode));
    assert_eq!(decode_request(&[0x82, 0x01, 0x81, 0x03]), Err(Error::CborDecode));
    assert_eq!(
        decode_request(&[0x82, 0x05, 0x81, 0x81, 0x09]),
        Ok(Request::Attestation { user_data: Some(vec![9]), nonce: None, public_key: None })
    );
    let extra = [0x82, 0x00, 0x83, 0x05, 0xa1, 0x01, 0x82, 0x02, 0x03, 0x63, b'x', b'y', b'z'];
    assert_eq!(read_request(&extra, 0), Some((Request::DescribePCR { index: 5 }, extra.len())));
    let cut = [0x82, 0x00, 0x83, 0x05, 0xa1, 0x01, 0x82, 0x02, 0x03, 0x63, b'x', b'y'];
    assert_eq!(read_request(&cut, 0), None);
}

#[test]
fn plain_variants_take_any_item_for_their_record() {
    assert_eq!(read_request(&[0x82, 0x04, 0xf6], 0), Some((Request::DescribeNSM, 3)));
    assert_eq!(read_request(&[0x82, 0x06, 0x82, 0x01, 0x02], 0), Some((Request::GetRandom, 5)));
    assert_eq!(read_request(&[0x82, 0x06, 0x82, 0x01], 0), None);
    assert_eq!(read_request(&[0x82, 0x04], 0), None);
}

#[test]
fn requests_are_read_at_a_position() {
    let bytes = [0xff, 0x82, 0x02, 0x9f, 0x09, 0xff, 0x00];
    assert_eq!(read_request(&bytes, 1), Some((Request::LockPCR { index: 9 }, 6)));
    assert_eq!(read_request(&bytes, 0), None);
    assert_eq!(read_request(&bytes, 7), None);
    assert_eq!(read_request(&bytes, 100), None);
}

#[test]
fn requests_cut_short_are_refused() {
    for request in every_request() {
        let bytes = encode_request(&request);
        for cut in 0..bytes.len() {
            assert_eq!(decode_request(&bytes[..cut]), Err(Error::CborDecode));
            assert_eq!(read_request(&bytes[..cut], 0), None);
        }
    }
}

#[test]
fn bytes_behind_a_request_are_not_looked_at() {
    for request in every_request() {
        let mut bytes = encode_request(&request);
        let end = bytes.len();
        bytes.extend_from_slice(&[0xff, 0x1c, 0x00]);
        assert_eq!(read_request(&bytes, 0), Some((request, end)));
    }
}
