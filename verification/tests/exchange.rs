use aws_nitro_enclaves_nsm_api::api::{ErrorCode, Request, Response};
use aws_nitro_enclaves_nsm_api::codec::{encode_request, encode_response};
use aws_nitro_enclaves_nsm_api::driver::{
    nsm_finish_request, nsm_map_error, nsm_process_request, nsm_start_request, Step,
    TransportError, NSM_REQUEST_MAX_SIZE, NSM_RESPONSE_MAX_SIZE,
};
use aws_nitro_enclaves_nsm_api::harness::{
    attestation_request, check_single_attestation, extend_pcr, AttestationFault,
};

struct Recorder {
    calls: usize,
    last_input: Vec<u8>,
    last_capacity: usize,
    answer: Result<Vec<u8>, TransportError>,
}

impl Recorder {
    fn new(answer: Result<Vec<u8>, TransportError>) -> Recorder {
        Recorder { calls: 0, last_input: Vec::new(), last_capacity: 0, answer }
    }

    fn exchange(&mut self, request: Request) -> Response {
        match nsm_start_request(request) {
            Step::Respond(response) => response,
            Step::Call { input, capacity } => {
                self.calls += 1;
                self.last_input = input;
                self.last_capacity = capacity;
                match &self.answer {
                    Ok(written) => nsm_finish_request(Ok(written.as_slice())),
                    Err(error) => nsm_finish_request(Err(*error)),
                }
            }
        }
    }
}

#[test]
fn limits() {
    assert_eq!(NSM_REQUEST_MAX_SIZE, 4096);
    assert_eq!(NSM_RESPONSE_MAX_SIZE, 12288);
}

#[test]
fn oversized_request_is_answered_without_a_call() {
    let mut device = Recorder::new(Ok(encode_response(&Response::LockPCR)));
    let request = Request::ExtendPCR { index: 1, data: vec![0; 5000] };
    assert!(encode_request(&request).len() > 4096);
    assert_eq!(device.exchange(request), Response::Error(ErrorCode::InputTooLarge));
    assert_eq!(device.calls, 0);
}

#[test]
fn the_limit_is_on_the_encoded_size() {
    let fits = Request::ExtendPCR { index: 1, data: vec![0; 4089] };
    assert_eq!(encode_request(&fits).len(), 4096);
    let mut device = Recorder::new(Ok(encode_response(&Response::ExtendPCR { data: vec![1] })));
    assert_eq!(device.exchange(fits.clone()), Response::ExtendPCR { data: vec![1] });
    assert_eq!(device.calls, 1);
    assert_eq!(device.last_input, encode_request(&fits));
    assert_eq!(device.last_capacity, 12288);

    let over = Request::ExtendPCR { index: 1, data: vec![0; 4090] };
    assert_eq!(encode_request(&over).len(), 4097);
    assert_eq!(device.exchange(over), Response::Error(ErrorCode::InputTooLarge));
    assert_eq!(device.calls, 1);

    let wide = Request::ExtendPCR { index: 1, data: vec![200; 2045] };
    assert_eq!(encode_request(&wide).len(), 4097);
    assert_eq!(device.exchange(wide), Response::Error(ErrorCode::InputTooLarge));
    assert_eq!(device.calls, 1);
}

#[test]
fn message_too_large_is_input_too_large() {
    let mut device = Recorder::new(Err(TransportError::MessageTooLarge));
    let response = device.exchange(Request::ExtendPCR { index: 3, data: vec![1, 2, 3, 4] });
    assert_eq!(response, Response::Error(ErrorCode::InputTooLarge));
    assert_eq!(device.calls, 1);
}

#[test]
fn other_failures_are_internal_errors() {
    let mut device = Recorder::new(Err(TransportError::Other));
    let response = device.exchange(Request::GetRandom);
    assert_eq!(response, Response::Error(ErrorCode::InternalError));
    assert_eq!(device.calls, 1);
    assert_eq!(nsm_map_error(TransportError::Other), ErrorCode::InternalError);
    assert_eq!(nsm_map_error(TransportError::MessageTooLarge), ErrorCode::InputTooLarge);
}

#[test]
fn an_answer_that_does_not_decode_is_an_internal_error() {
    let mut device = Recorder::new(Ok(vec![0x82, 0x07]));
    assert_eq!(device.exchange(Request::DescribeNSM), Response::Error(ErrorCode::InternalError));
    assert_eq!(device.calls, 1);
    assert_eq!(device.last_input, vec![0x82, 0x04, 0x80]);
}

#[test]
fn the_answer_of_the_device_is_handed_on() {
    let answer = Response::GetRandom { random: vec![9; 64] };
    let mut device = Recorder::new(Ok(encode_response(&answer)));
    assert_eq!(device.exchange(Request::GetRandom), answer);
    let error = Response::Error(ErrorCode::ReadOnlyIndex);
    let mut device = Recorder::new(Ok(encode_response(&error)));
    assert_eq!(device.exchange(Request::LockPCR { index: 0 }), error);
}

#[test]
fn load_test_extends_a_register_chosen_by_the_round() {
    assert_eq!(extend_pcr(0), Request::ExtendPCR { index: 0, data: vec![0, 0, 0, 0] });
    assert_eq!(
        extend_pcr(0x0102_0304),
        Request::ExtendPCR { index: 4, data: vec![1, 2, 3, 4] }
    );
    assert_eq!(extend_pcr(31), Request::ExtendPCR { index: 15, data: vec![0, 0, 0, 31] });
    assert_eq!(
        extend_pcr(usize::MAX),
        Request::ExtendPCR { index: 15, data: vec![255, 255, 255, 255] }
    );
}

#[test]
fn load_test_attestation_requests() {
    let data = vec![128; 1024];
    assert_eq!(
        attestation_request(&data, false, false, false),
        Request::Attestation { user_data: None, nonce: None, public_key: None }
    );
    assert_eq!(
        attestation_request(&data, true, true, false),
        Request::Attestation {
            user_data: Some(data.clone()),
            nonce: Some(data.clone()),
            public_key: None
        }
    );
    assert_eq!(
        attestation_request(&data, false, false, true),
        Request::Attestation { user_data: None, nonce: None, public_key: Some(data.clone()) }
    );
}

#[test]
fn load_test_judges_attestations() {
    assert_eq!(check_single_attestation(&Response::Attestation { document: vec![1] }), Ok(()));
    assert_eq!(
        check_single_attestation(&Response::Attestation { document: vec![] }),
        Err(AttestationFault::AttestationDocumentEmpty)
    );
    assert_eq!(
        check_single_attestation(&Response::Error(ErrorCode::InternalError)),
        Err(AttestationFault::AttestationInvalidResponse)
    );
    assert_eq!(
        check_single_attestation(&Response::LockPCR),
        Err(AttestationFault::AttestationInvalidResponse)
    );
    assert_eq!(AttestationFault::AttestationDocumentEmpty.exit_code(), 1);
    assert_eq!(AttestationFault::AttestationInvalidResponse.exit_code(), 2);
}

#[test]
fn oversized_request_never_reaches_the_transport() {
    let mut calls = 0;
    let response = nsm_process_request(
        |_input: &[u8], _capacity: usize| {
            calls += 1;
            Ok(encode_response(&Response::LockPCR))
        },
        Request::Attestation {
            user_data: Some(vec![1; 1500]),
            nonce: Some(vec![2; 1500]),
            public_key: Some(vec![3; 1500]),
        },
    );
    assert_eq!(response, Response::Error(ErrorCode::InputTooLarge));
    assert_eq!(calls, 0);
}

#[test]
fn a_request_that_fits_reaches_the_transport_once() {
    let mut calls = 0;
    let mut seen: Vec<u8> = Vec::new();
    let mut room = 0;
    let response = nsm_process_request(
        |input: &[u8], capacity: usize| {
            calls += 1;
            seen = input.to_vec();
            room = capacity;
            Ok(encode_response(&Response::DescribePCR { lock: true, data: vec![0; 48] }))
        },
        Request::DescribePCR { index: 5 },
    );
    assert_eq!(response, Response::DescribePCR { lock: true, data: vec![0; 48] });
    assert_eq!(calls, 1);
    assert_eq!(seen, vec![0x82, 0x00, 0x81, 0x05]);
    assert_eq!(room, 12288);
}

#[test]
fn transport_reporting_message_too_large() {
    let mut calls = 0;
    let response = nsm_process_request(
        |_input: &[u8], _capacity: usize| {
            calls += 1;
            Err(TransportError::MessageTooLarge)
        },
        Request::ExtendPCR { index: 16, data: vec![0, 0, 0, 1] },
    );
    assert_eq!(response, Response::Error(ErrorCode::InputTooLarge));
    assert_eq!(calls, 1);
}

#[test]
fn transport_failing_otherwise() {
    let response = nsm_process_request(
        |_input: &[u8], _capacity: usize| Err(TransportError::Other),
        Request::ExtendPCR { index: 16, data: vec![0, 0, 0, 1] },
    );
    assert_eq!(response, Response::Error(ErrorCode::InternalError));
}

#[test]
fn transport_writing_what_is_no_response() {
    let response = nsm_process_request(
        |_input: &[u8], capacity: usize| Ok(vec![0; capacity]),
        Request::GetRandom,
    );
    assert_eq!(response, Response::Error(ErrorCode::InternalError));
}
