//! One exchange with the module: what is sent, when nothing is sent, and
//! what the caller gets for each outcome of the device-control call. The
//! call itself is the caller's: this module decides, it does no I/O.

use crate::api::{ErrorCode, Request, RequestView, Response, ResponseView};
use crate::codec::{encode_request, read_response, request_bytes, response_at};
use vstd::prelude::*;

verus! {

/// The largest encoded request that the device takes.
pub const NSM_REQUEST_MAX_SIZE: usize = 0x1000;

/// The room that is reserved for the device's answer, whatever its size.
pub const NSM_RESPONSE_MAX_SIZE: usize = 0x3000;

/// The ways in which the device-control call fails.
#[derive(Debug, Clone, Copy, PartialEq, Eq, Structural)]
pub enum TransportError {
    /// The device reports that the message is too large.
    MessageTooLarge,
    /// Any other failure of the call.
    Other,
}

/// What is to be done for a request.
#[derive(Debug, Clone, PartialEq, Eq)]
pub enum Step {
    /// The device is not called: this is the answer.
    Respond(Response),
    /// The device is called once, with `input` as the request and room for
    /// `capacity` bytes of answer.
    Call { input: Vec<u8>, capacity: usize },
}

/// The error code of a failed device-control call.
pub open spec fn transport_code(error: TransportError) -> ErrorCode {
    match error {
        TransportError::MessageTooLarge => ErrorCode::InputTooLarge,
        TransportError::Other => ErrorCode::InternalError,
    }
}

/// The response that the bytes `s` stand for: the one response that they
/// encode from the first byte to the last, and an internal error for
/// bytes that are anything else.
pub open spec fn response_in(s: Seq<u8>) -> ResponseView {
    match response_at(s, 0) {
        Some((response, end)) => if end == s.len() {
            response
        } else {
            ResponseView::Error(ErrorCode::InternalError)
        },
        None => ResponseView::Error(ErrorCode::InternalError),
    }
}

/// The answer to an exchange whose device-control call ended with
/// `outcome`: the bytes that the device wrote, or the failure of the call.
pub open spec fn response_to(outcome: Result<Seq<u8>, TransportError>) -> ResponseView {
    match outcome {
        Ok(written) => response_in(written),
        Err(error) => ResponseView::Error(transport_code(error)),
    }
}

/// The encoding of a request.
pub fn nsm_encode_request_to_cbor(request: Request) -> (bytes: Vec<u8>)
    ensures
        bytes@ == request_bytes(request@),
{
    encode_request(&request)
}

/// The response that the device wrote. Bytes that do not hold exactly one
/// response give an internal error; nothing else comes of them.
pub fn nsm_decode_response_from_cbor(response_data: &[u8]) -> (response: Response)
    ensures
        response@ == response_in(response_data@),
{
    match read_response(response_data, 0) {
        Some((response, end)) => if end == response_data.len() {
            response
        } else {
            Response::Error(ErrorCode::InternalError)
        },
        None => Response::Error(ErrorCode::InternalError),
    }
}

/// The error code that stands for a failed device-control call. Nothing
/// else of the failure reaches the caller.
pub fn nsm_map_error(error: TransportError) -> (code: ErrorCode)
    ensures
        code == transport_code(error),
{
    match error {
        TransportError::MessageTooLarge => ErrorCode::InputTooLarge,
        TransportError::Other => ErrorCode::InternalError,
    }
}

/// The first half of an exchange. A request whose encoding is longer than
/// [`NSM_REQUEST_MAX_SIZE`] is answered at once, and the device is not
/// called; any other is to be sent as it is encoded, with room for
/// [`NSM_RESPONSE_MAX_SIZE`] bytes of answer.
pub fn nsm_start_request(request: Request) -> (step: Step)
    ensures
        match step {
            Step::Respond(response) => request_bytes(request@).len() > NSM_REQUEST_MAX_SIZE
                && response@ == ResponseView::Error(ErrorCode::InputTooLarge),
            Step::Call { input, capacity } => request_bytes(request@).len()
                <= NSM_REQUEST_MAX_SIZE && input@ == request_bytes(request@) && capacity
                == NSM_RESPONSE_MAX_SIZE,
        },
{
    let input = nsm_encode_request_to_cbor(request);
    if input.len() > NSM_REQUEST_MAX_SIZE {
        Step::Respond(Response::Error(ErrorCode::InputTooLarge))
    } else {
        Step::Call { input, capacity: NSM_RESPONSE_MAX_SIZE }
    }
}

/// The second half of an exchange: the answer for the outcome of the
/// device-control call.
pub fn nsm_finish_request(outcome: Result<&[u8], TransportError>) -> (response: Response)
    ensures
        response@ == response_to(
            match outcome {
                Ok(written) => Ok(written@),
                Err(error) => Err(error),
            },
        ),
{
    match outcome {
        Ok(written) => nsm_decode_response_from_cbor(written),
        Err(error) => Response::Error(nsm_map_error(error)),
    }
}

/// What the device-control call is handed for a request: its encoding.
pub open spec fn sent_for(request: RequestView, input: &[u8]) -> bool {
    input@ == request_bytes(request)
}

/// The bytes and the failure of an outcome of the device-control call.
pub open spec fn outcome_of(outcome: Result<Vec<u8>, TransportError>) -> Result<
    Seq<u8>,
    TransportError,
> {
    match outcome {
        Ok(written) => Ok(written@),
        Err(error) => Err(error),
    }
}

/// One exchange with the module over `transport`, which stands for the
/// device-control call: it is handed the encoded request and the room for
/// the answer, and gives back the bytes that the device wrote or the
/// failure of the call. A request whose encoding is longer than
/// [`NSM_REQUEST_MAX_SIZE`] is answered with `InputTooLarge` whatever the
/// transport would do; any other is answered by what the one call of the
/// transport gave.
pub fn nsm_process_request<T>(transport: T, request: Request) -> (response: Response) where
    T: FnOnce(&[u8], usize) -> Result<Vec<u8>, TransportError>,

    requires
        request_bytes(request@).len() <= NSM_REQUEST_MAX_SIZE ==> forall|input: &[u8]|
            #[trigger] sent_for(request@, input) ==> transport.requires(
                (input, NSM_RESPONSE_MAX_SIZE),
            ),
    ensures
        request_bytes(request@).len() > NSM_REQUEST_MAX_SIZE ==> response@
            == ResponseView::Error(ErrorCode::InputTooLarge),
        request_bytes(request@).len() <= NSM_REQUEST_MAX_SIZE ==> exists|
            input: &[u8],
            outcome: Result<Vec<u8>, TransportError>,
        |
            sent_for(request@, input) && transport.ensures(
                (input, NSM_RESPONSE_MAX_SIZE),
                outcome,
            ) && response@ == response_to(outcome_of(outcome)),
{
    let ghost asked = request@;
    match nsm_start_request(request) {
        Step::Respond(response) => response,
        Step::Call { input, capacity } => {
            let sent = input.as_slice();
            assert(sent_for(asked, sent));
            let outcome = transport(sent, capacity);
            let response = match &outcome {
                Ok(written) => nsm_finish_request(Ok(written.as_slice())),
                Err(error) => nsm_finish_request(Err(*error)),
            };
            assert(response@ == response_to(outcome_of(outcome)));
            response
        },
    }
}

} // verus!
