//! What a load test of the module sends and how it judges the answers.

use crate::api::{Request, RequestView, Response, ResponseView};
use vstd::prelude::*;

verus! {

/// The ways in which an attestation can fail a load test.
#[derive(Debug, Clone, Copy, PartialEq, Eq, Structural)]
pub enum AttestationFault {
    /// The module answered with an empty document.
    AttestationDocumentEmpty,
    /// The module answered with something other than a document.
    AttestationInvalidResponse,
}

impl AttestationFault {
    /// The exit code that a load test ends with after this fault.
    pub fn exit_code(self) -> (code: i32)
        ensures
            code == match self {
                AttestationFault::AttestationDocumentEmpty => 1int,
                AttestationFault::AttestationInvalidResponse => 2int,
            },
    {
        match self {
            AttestationFault::AttestationDocumentEmpty => 1,
            AttestationFault::AttestationInvalidResponse => 2,
        }
    }
}

/// The request of round `j` of a load test: it extends one of the sixteen
/// registers above the reserved ones, chosen by `j`, with the four low
/// bytes of `j`, the highest first.
pub fn extend_pcr(j: usize) -> (request: Request)
    ensures
        request@ == (RequestView::ExtendPCR {
            index: (j % 16) as u16,
            data: seq![
                (j / 0x100_0000 % 0x100) as u8,
                (j / 0x1_0000 % 0x100) as u8,
                (j / 0x100 % 0x100) as u8,
                (j % 0x100) as u8,
            ],
        }),
{
    let pcr: u16 = (j % 16) as u16;
    let one: u8 = (j / 0x100_0000 % 0x100) as u8;
    let two: u8 = (j / 0x1_0000 % 0x100) as u8;
    let three: u8 = (j / 0x100 % 0x100) as u8;
    let four: u8 = (j % 0x100) as u8;
    let mut data: Vec<u8> = Vec::new();
    data.push(one);
    data.push(two);
    data.push(three);
    data.push(four);
    assert(data@ =~= seq![one, two, three, four]);
    Request::ExtendPCR { index: pcr, data }
}

/// The attestation request of a load test, with `data` in each of the
/// three optional fields that is asked for.
pub fn attestation_request(
    data: &Vec<u8>,
    with_user_data: bool,
    with_nonce: bool,
    with_public_key: bool,
) -> (request: Request)
    ensures
        request@ == (RequestView::Attestation {
            user_data: if with_user_data {
                Some(data@)
            } else {
                None
            },
            nonce: if with_nonce {
                Some(data@)
            } else {
                None
            },
            public_key: if with_public_key {
                Some(data@)
            } else {
                None
            },
        }),
{
    let user_data = if with_user_data {
        Some(data.clone())
    } else {
        None
    };
    let nonce = if with_nonce {
        Some(data.clone())
    } else {
        None
    };
    let public_key = if with_public_key {
        Some(data.clone())
    } else {
        None
    };
    Request::Attestation { user_data, nonce, public_key }
}

/// Judges the answer to an attestation request: a document that is not
/// empty passes.
pub fn check_single_attestation(response: &Response) -> (r: Result<(), AttestationFault>)
    ensures
        r == match response@ {
            ResponseView::Attestation { document } => if document.len() == 0 {
                Err(AttestationFault::AttestationDocumentEmpty)
            } else {
                Ok(())
            },
            _ => Err::<(), AttestationFault>(AttestationFault::AttestationInvalidResponse),
        },
{
    match response {
        Response::Attestation { document } => {
            if document.len() == 0 {
                Err(AttestationFault::AttestationDocumentEmpty)
            } else {
                Ok(())
            }
        },
        _ => Err(AttestationFault::AttestationInvalidResponse),
    }
}

} // verus!
