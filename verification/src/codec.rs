//! The wire form of requests, responses and attestation documents.

use crate::api::{
    AttestationDoc, AttestationDocView, Error, Request, RequestView, Response, ResponseView,
};
use crate::schema::{
    plain_end, read_plain_end, read_record, read_variant, record_at, record_bytes, slots_of,
    variant_at, variant_bytes, write_record, write_variant, Field, Kind, Slot, Value,
};
use vstd::prelude::*;

verus! {

// Requests

/// The tag of a request's variant.
pub open spec fn request_tag(request: RequestView) -> u64 {
    match request {
        RequestView::DescribePCR { .. } => 0,
        RequestView::ExtendPCR { .. } => 1,
        RequestView::LockPCR { .. } => 2,
        RequestView::LockPCRs { .. } => 3,
        RequestView::DescribeNSM => 4,
        RequestView::Attestation { .. } => 5,
        RequestView::GetRandom => 6,
    }
}

/// The fields of a request, in the order of their tags.
pub open spec fn request_slots(request: RequestView) -> Seq<Slot> {
    match request {
        RequestView::DescribePCR { index } => seq![Slot::Index(index)],
        RequestView::ExtendPCR { index, data } => seq![Slot::Index(index), Slot::Bytes(data)],
        RequestView::LockPCR { index } => seq![Slot::Index(index)],
        RequestView::LockPCRs { range } => seq![Slot::Index(range)],
        RequestView::DescribeNSM => seq![],
        RequestView::Attestation { user_data, nonce, public_key } => seq![
            Slot::OptionalBytes(user_data),
            Slot::OptionalBytes(nonce),
            Slot::OptionalBytes(public_key),
        ],
        RequestView::GetRandom => seq![],
    }
}

/// The encoding of a request: the tag of its variant, then the record of
/// its fields.
pub open spec fn request_bytes(request: RequestView) -> Seq<u8> {
    variant_bytes(request_tag(request)) + record_bytes(request_slots(request))
}

/// The types of the fields of the request variant with tag `tag`; none for
/// a variant without fields.
pub open spec fn request_kinds(tag: u64) -> Option<Seq<Kind>> {
    if tag == 0 || tag == 2 || tag == 3 {
        Some(seq![Kind::Index])
    } else if tag == 1 {
        Some(seq![Kind::Index, Kind::Bytes])
    } else if tag == 5 {
        Some(seq![Kind::OptionalBytes, Kind::OptionalBytes, Kind::OptionalBytes])
    } else {
        None
    }
}

/// The request variant with tag `tag` and the fields `found`; none where a
/// field that it needs is missing.
pub open spec fn request_of(tag: u64, found: Seq<Option<Slot>>) -> Option<RequestView> {
    if tag == 0 {
        match found[0] {
            Some(Slot::Index(index)) => Some(RequestView::DescribePCR { index }),
            _ => None,
        }
    } else if tag == 1 {
        match (found[0], found[1]) {
            (Some(Slot::Index(index)), Some(Slot::Bytes(data))) => Some(
                RequestView::ExtendPCR { index, data },
            ),
            _ => None,
        }
    } else if tag == 2 {
        match found[0] {
            Some(Slot::Index(index)) => Some(RequestView::LockPCR { index }),
            _ => None,
        }
    } else if tag == 3 {
        match found[0] {
            Some(Slot::Index(range)) => Some(RequestView::LockPCRs { range }),
            _ => None,
        }
    } else if tag == 5 {
        match (found[0], found[1], found[2]) {
            (
                Some(Slot::OptionalBytes(user_data)),
                Some(Slot::OptionalBytes(nonce)),
                Some(Slot::OptionalBytes(public_key)),
            ) => Some(RequestView::Attestation { user_data, nonce, public_key }),
            _ => None,
        }
    } else {
        None
    }
}

/// The request that starts at `pos`, and the position behind it.
pub open spec fn request_at(s: Seq<u8>, pos: int) -> Option<(RequestView, int)> {
    match variant_at(s, pos, 6) {
        Some((tag, mid)) => match request_kinds(tag) {
            Some(kinds) => match record_at(kinds, s, mid) {
                Some((found, end)) => match request_of(tag, found) {
                    Some(request) => Some((request, end)),
                    None => None,
                },
                None => None,
            },
            None => match plain_end(s, mid) {
                Some(end) => Some(
                    (
                        if tag == 4 {
                            RequestView::DescribeNSM
                        } else {
                            RequestView::GetRandom
                        },
                        end,
                    ),
                ),
                None => None,
            },
        },
        None => None,
    }
}

/// Appends the encoding of a request.
pub fn write_request(buf: &mut Vec<u8>, request: &Request)
    ensures
        final(buf)@ == old(buf)@ + request_bytes(request@),
{
    match request {
        Request::DescribePCR { index } => {
            write_variant(buf, 0);
            let fields = vec![Field::Index(*index)];
            proof {
                assert(slots_of(fields@) =~= request_slots(request@));
            }
            write_record(buf, &fields);
        },
        Request::ExtendPCR { index, data } => {
            write_variant(buf, 1);
            let fields = vec![Field::Index(*index), Field::Bytes(data)];
            proof {
                assert(slots_of(fields@) =~= request_slots(request@));
            }
            write_record(buf, &fields);
        },
        Request::LockPCR { index } => {
            write_variant(buf, 2);
            let fields = vec![Field::Index(*index)];
            proof {
                assert(slots_of(fields@) =~= request_slots(request@));
            }
            write_record(buf, &fields);
        },
        Request::LockPCRs { range } => {
            write_variant(buf, 3);
            let fields = vec![Field::Index(*range)];
            proof {
                assert(slots_of(fields@) =~= request_slots(request@));
            }
            write_record(buf, &fields);
        },
        Request::DescribeNSM => {
            write_variant(buf, 4);
            let fields: Vec<Field<'_>> = Vec::new();
            proof {
                assert(slots_of(fields@) =~= request_slots(request@));
            }
            write_record(buf, &fields);
        },
        Request::Attestation { user_data, nonce, public_key } => {
            write_variant(buf, 5);
            let fields = vec![
                Field::OptionalBytes(user_data),
                Field::OptionalBytes(nonce),
                Field::OptionalBytes(public_key),
            ];
            proof {
                assert(slots_of(fields@) =~= request_slots(request@));
            }
            write_record(buf, &fields);
        },
        Request::GetRandom => {
            write_variant(buf, 6);
            let fields: Vec<Field<'_>> = Vec::new();
            proof {
                assert(slots_of(fields@) =~= request_slots(request@));
            }
            write_record(buf, &fields);
        },
    }
    assert(buf@ =~= old(buf)@ + request_bytes(request@));
}

/// Reads the request that starts at `pos`.
pub fn read_request(bytes: &[u8], pos: usize) -> (r: Option<(Request, usize)>)
    ensures
        match r {
            Some((request, end)) => request_at(bytes@, pos as int) == Some(
                (request@, end as int),
            ) && pos < end <= bytes.len(),
            None => request_at(bytes@, pos as int) is None,
        },
{
    let (tag, mid) = match read_variant(bytes, pos, 6) {
        Some(opened) => opened,
        None => {
            return None;
        },
    };
    if tag == 4 || tag == 6 {
        return match read_plain_end(bytes, mid) {
            Some(end) => Some(
                (
                    if tag == 4 {
                        Request::DescribeNSM
                    } else {
                        Request::GetRandom
                    },
                    end,
                ),
            ),
            None => None,
        };
    }
    let kinds: Vec<Kind> = if tag == 1 {
        vec![Kind::Index, Kind::Bytes]
    } else if tag == 5 {
        vec![Kind::OptionalBytes, Kind::OptionalBytes, Kind::OptionalBytes]
    } else {
        vec![Kind::Index]
    };
    proof {
        assert(Some(kinds@) =~= request_kinds(tag));
    }
    let (mut found, end) = match read_record(&kinds, bytes, mid) {
        Some(read) => read,
        None => {
            return None;
        },
    };
    if tag == 1 {
        let data = match found.pop() {
            Some(Some(Value::Bytes(data))) => data,
            _ => {
                return None;
            },
        };
        let index = match found.pop() {
            Some(Some(Value::Index(index))) => index,
            _ => {
                return None;
            },
        };
        Some((Request::ExtendPCR { index, data }, end))
    } else if tag == 5 {
        let public_key = match found.pop() {
            Some(Some(Value::OptionalBytes(data))) => data,
            _ => {
                return None;
            },
        };
        let nonce = match found.pop() {
            Some(Some(Value::OptionalBytes(data))) => data,
            _ => {
                return None;
            },
        };
        let user_data = match found.pop() {
            Some(Some(Value::OptionalBytes(data))) => data,
            _ => {
                return None;
            },
        };
        Some((Request::Attestation { user_data, nonce, public_key }, end))
    } else {
        let index = match found.pop() {
            Some(Some(Value::Index(index))) => index,
            _ => {
                return None;
            },
        };
        if tag == 0 {
            Some((Request::DescribePCR { index }, end))
        } else if tag == 2 {
            Some((Request::LockPCR { index }, end))
        } else {
            Some((Request::LockPCRs { range: index }, end))
        }
    }
}

/// The encoding of a request.
pub fn encode_request(request: &Request) -> (bytes: Vec<u8>)
    ensures
        bytes@ == request_bytes(request@),
{
    let mut bytes: Vec<u8> = Vec::new();
    write_request(&mut bytes, request);
    assert(bytes@ =~= request_bytes(request@));
    bytes
}

/// Reads one request from the start of `bytes`. What follows the request
/// is not looked at.
pub fn decode_request(bytes: &[u8]) -> (r: Result<Request, Error>)
    ensures
        match r {
            Ok(request) => request_at(bytes@, 0) matches Some((found, _)) && found == request@,
            Err(e) => e == Error::CborDecode && request_at(bytes@, 0) is None,
        },
{
    match read_request(bytes, 0) {
        Some((request, _)) => Ok(request),
        None => Err(Error::CborDecode),
    }
}

// Responses

/// The tag of a response's variant.
pub open spec fn response_tag(response: ResponseView) -> u64 {
    match response {
        ResponseView::DescribePCR { .. } => 0,
        ResponseView::ExtendPCR { .. } => 1,
        ResponseView::LockPCR => 2,
        ResponseView::LockPCRs => 3,
        ResponseView::DescribeNSM { .. } => 4,
        ResponseView::Attestation { .. } => 5,
        ResponseView::GetRandom { .. } => 6,
        ResponseView::Error(_) => 7,
    }
}

/// The fields of a response, in the order of their tags.
pub open spec fn response_slots(response: ResponseView) -> Seq<Slot> {
    match response {
        ResponseView::DescribePCR { lock, data } => seq![Slot::Flag(lock), Slot::Bytes(data)],
        ResponseView::ExtendPCR { data } => seq![Slot::Bytes(data)],
        ResponseView::LockPCR => seq![],
        ResponseView::LockPCRs => seq![],
        ResponseView::DescribeNSM {
            version_major,
            version_minor,
            version_patch,
            module_id,
            max_pcrs,
            locked_pcrs,
            digest,
        } => seq![
            Slot::Index(version_major),
            Slot::Index(version_minor),
            Slot::Index(version_patch),
            Slot::Text(module_id),
            Slot::Index(max_pcrs),
            Slot::Indices(locked_pcrs),
            Slot::Digest(digest),
        ],
        ResponseView::Attestation { document } => seq![Slot::Bytes(document)],
        ResponseView::GetRandom { random } => seq![Slot::Bytes(random)],
        ResponseView::Error(code) => seq![Slot::Code(code)],
    }
}

/// The encoding of a response: the tag of its variant, then the record of
/// its fields.
pub open spec fn response_bytes(response: ResponseView) -> Seq<u8> {
    variant_bytes(response_tag(response)) + record_bytes(response_slots(response))
}

/// The types of the fields of the response variant with tag `tag`; none
/// for a variant without fields.
pub open spec fn response_kinds(tag: u64) -> Option<Seq<Kind>> {
    if tag == 0 {
        Some(seq![Kind::Flag, Kind::Bytes])
    } else if tag == 1 || tag == 5 || tag == 6 {
        Some(seq![Kind::Bytes])
    } else if tag == 4 {
        Some(
            seq![
                Kind::Index,
                Kind::Index,
                Kind::Index,
                Kind::Text,
                Kind::Index,
                Kind::Indices,
                Kind::Digest,
            ],
        )
    } else if tag == 7 {
        Some(seq![Kind::Code])
    } else {
        None
    }
}

/// The response variant with tag `tag` and the fields `found`; none where
/// a field that it needs is missing.
pub open spec fn response_of(tag: u64, found: Seq<Option<Slot>>) -> Option<ResponseView> {
    if tag == 0 {
        match (found[0], found[1]) {
            (Some(Slot::Flag(lock)), Some(Slot::Bytes(data))) => Some(
                ResponseView::DescribePCR { lock, data },
            ),
            _ => None,
        }
    } else if tag == 1 {
        match found[0] {
            Some(Slot::Bytes(data)) => Some(ResponseView::ExtendPCR { data }),
            _ => None,
        }
    } else if tag == 4 {
        match (found[0], found[1], found[2], found[3], found[4], found[5], found[6]) {
            (
                Some(Slot::Index(version_major)),
                Some(Slot::Index(version_minor)),
                Some(Slot::Index(version_patch)),
                Some(Slot::Text(module_id)),
                Some(Slot::Index(max_pcrs)),
                Some(Slot::Indices(locked_pcrs)),
                Some(Slot::Digest(digest)),
            ) => Some(
                ResponseView::DescribeNSM {
                    version_major,
                    version_minor,
                    version_patch,
                    module_id,
                    max_pcrs,
                    locked_pcrs,
                    digest,
                },
            ),
            _ => None,
        }
    } else if tag == 5 {
        match found[0] {
            Some(Slot::Bytes(document)) => Some(ResponseView::Attestation { document }),
            _ => None,
        }
    } else if tag == 6 {
        match found[0] {
            Some(Slot::Bytes(random)) => Some(ResponseView::GetRandom { random }),
            _ => None,
        }
    } else if tag == 7 {
        match found[0] {
            Some(Slot::Code(code)) => Some(ResponseView::Error(code)),
            _ => None,
        }
    } else {
        None
    }
}

/// The response that starts at `pos`, and the position behind it.
pub open spec fn response_at(s: Seq<u8>, pos: int) -> Option<(ResponseView, int)> {
    match variant_at(s, pos, 7) {
        Some((tag, mid)) => match response_kinds(tag) {
            Some(kinds) => match record_at(kinds, s, mid) {
                Some((found, end)) => match response_of(tag, found) {
                    Some(response) => Some((response, end)),
                    None => None,
                },
                None => None,
            },
            None => match plain_end(s, mid) {
                Some(end) => Some(
                    (
                        if tag == 2 {
                            ResponseView::LockPCR
                        } else {
                            ResponseView::LockPCRs
                        },
                        end,
                    ),
                ),
                None => None,
            },
        },
        None => None,
    }
}

/// Appends the encoding of a response.
pub fn write_response(buf: &mut Vec<u8>, response: &Response)
    ensures
        final(buf)@ == old(buf)@ + response_bytes(response@),
{
    match response {
        Response::DescribePCR { lock, data } => {
            write_variant(buf, 0);
            let fields = vec![Field::Flag(*lock), Field::Bytes(data)];
            proof {
                assert(slots_of(fields@) =~= response_slots(response@));
            }
            write_record(buf, &fields);
        },
        Response::ExtendPCR { data } => {
            write_variant(buf, 1);
            let fields = vec![Field::Bytes(data)];
            proof {
                assert(slots_of(fields@) =~= response_slots(response@));
            }
            write_record(buf, &fields);
        },
        Response::LockPCR => {
            write_variant(buf, 2);
            let fields: Vec<Field<'_>> = Vec::new();
            proof {
                assert(slots_of(fields@) =~= response_slots(response@));
            }
            write_record(buf, &fields);
        },
        Response::LockPCRs => {
            write_variant(buf, 3);
            let fields: Vec<Field<'_>> = Vec::new();
            proof {
                assert(slots_of(fields@) =~= response_slots(response@));
            }
            write_record(buf, &fields);
        },
        Response::DescribeNSM {
            version_major,
            version_minor,
            version_patch,
            module_id,
            max_pcrs,
            locked_pcrs,
            digest,
        } => {
            write_variant(buf, 4);
            let fields = vec![
                Field::Index(*version_major),
                Field::Index(*version_minor),
                Field::Index(*version_patch),
                Field::Text(module_id),
                Field::Index(*max_pcrs),
                Field::Indices(locked_pcrs),
                Field::Digest(*digest),
            ];
            proof {
                assert(slots_of(fields@) =~= response_slots(response@));
            }
            write_record(buf, &fields);
        },
        Response::Attestation { document } => {
            write_variant(buf, 5);
            let fields = vec![Field::Bytes(document)];
            proof {
                assert(slots_of(fields@) =~= response_slots(response@));
            }
            write_record(buf, &fields);
        },
        Response::GetRandom { random } => {
            write_variant(buf, 6);
            let fields = vec![Field::Bytes(random)];
            proof {
                assert(slots_of(fields@) =~= response_slots(response@));
            }
            write_record(buf, &fields);
        },
        Response::Error(code) => {
            write_variant(buf, 7);
            let fields = vec![Field::Code(*code)];
            proof {
                assert(slots_of(fields@) =~= response_slots(response@));
            }
            write_record(buf, &fields);
        },
    }
    assert(buf@ =~= old(buf)@ + response_bytes(response@));
}

/// Reads the fields of the runtime configuration.
fn read_description(bytes: &[u8], pos: usize) -> (r: Option<(Response, usize)>)
    ensures
        match r {
            Some((response, end)) => record_at(response_kinds(4)->0, bytes@, pos as int)
                matches Some((found, stop)) && response_of(4, found) == Some(response@) && stop
                == end && pos < end <= bytes.len(),
            None => match record_at(response_kinds(4)->0, bytes@, pos as int) {
                Some((found, _)) => response_of(4, found) is None,
                None => true,
            },
        },
{
    let kinds: Vec<Kind> = vec![
        Kind::Index,
        Kind::Index,
        Kind::Index,
        Kind::Text,
        Kind::Index,
        Kind::Indices,
        Kind::Digest,
    ];
    proof {
        assert(Some(kinds@) =~= response_kinds(4));
    }
    let (mut found, end) = match read_record(&kinds, bytes, pos) {
        Some(read) => read,
        None => {
            return None;
        },
    };
    let digest = match found.pop() {
        Some(Some(Value::Digest(digest))) => digest,
        _ => {
            return None;
        },
    };
    let locked_pcrs = match found.pop() {
        Some(Some(Value::Indices(set))) => set,
        _ => {
            return None;
        },
    };
    let max_pcrs = match found.pop() {
        Some(Some(Value::Index(n))) => n,
        _ => {
            return None;
        },
    };
    let module_id = match found.pop() {
        Some(Some(Value::Text(text))) => text,
        _ => {
            return None;
        },
    };
    let version_patch = match found.pop() {
        Some(Some(Value::Index(n))) => n,
        _ => {
            return None;
        },
    };
    let version_minor = match found.pop() {
        Some(Some(Value::Index(n))) => n,
        _ => {
            return None;
        },
    };
    let version_major = match found.pop() {
        Some(Some(Value::Index(n))) => n,
        _ => {
            return None;
        },
    };
    Some(
        (
            Response::DescribeNSM {
                version_major,
                version_minor,
                version_patch,
                module_id,
                max_pcrs,
                locked_pcrs,
                digest,
            },
            end,
        ),
    )
}

/// Reads the response that starts at `pos`.
pub fn read_response(bytes: &[u8], pos: usize) -> (r: Option<(Response, usize)>)
    ensures
        match r {
            Some((response, end)) => response_at(bytes@, pos as int) == Some(
                (response@, end as int),
            ) && pos < end <= bytes.len(),
            None => response_at(bytes@, pos as int) is None,
        },
{
    let (tag, mid) = match read_variant(bytes, pos, 7) {
        Some(opened) => opened,
        None => {
            return None;
        },
    };
    if tag == 2 || tag == 3 {
        return match read_plain_end(bytes, mid) {
            Some(end) => Some(
                (
                    if tag == 2 {
                        Response::LockPCR
                    } else {
                        Response::LockPCRs
                    },
                    end,
                ),
            ),
            None => None,
        };
    }
    if tag == 4 {
        return read_description(bytes, mid);
    }
    let kinds: Vec<Kind> = if tag == 0 {
        vec![Kind::Flag, Kind::Bytes]
    } else if tag == 7 {
        vec![Kind::Code]
    } else {
        vec![Kind::Bytes]
    };
    proof {
        assert(Some(kinds@) =~= response_kinds(tag));
    }
    let (mut found, end) = match read_record(&kinds, bytes, mid) {
        Some(read) => read,
        None => {
            return None;
        },
    };
    if tag == 7 {
        match found.pop() {
            Some(Some(Value::Code(code))) => Some((Response::Error(code), end)),
            _ => None,
        }
    } else {
        let data = match found.pop() {
            Some(Some(Value::Bytes(data))) => data,
            _ => {
                return None;
            },
        };
        if tag == 0 {
            match found.pop() {
                Some(Some(Value::Flag(lock))) => Some((Response::DescribePCR { lock, data }, end)),
                _ => None,
            }
        } else if tag == 1 {
            Some((Response::ExtendPCR { data }, end))
        } else if tag == 5 {
            Some((Response::Attestation { document: data }, end))
        } else {
            Some((Response::GetRandom { random: data }, end))
        }
    }
}

/// The encoding of a response.
pub fn encode_response(response: &Response) -> (bytes: Vec<u8>)
    ensures
        bytes@ == response_bytes(response@),
{
    let mut bytes: Vec<u8> = Vec::new();
    write_response(&mut bytes, response);
    assert(bytes@ =~= response_bytes(response@));
    bytes
}

/// Reads one response from the start of `bytes`. What follows the
/// response is not looked at.
pub fn decode_response(bytes: &[u8]) -> (r: Result<Response, Error>)
    ensures
        match r {
            Ok(response) => response_at(bytes@, 0) matches Some((found, _)) && found
                == response@,
            Err(e) => e == Error::CborDecode && response_at(bytes@, 0) is None,
        },
{
    match read_response(bytes, 0) {
        Some((response, _)) => Ok(response),
        None => Err(Error::CborDecode),
    }
}

// Attestation documents

/// The fields of an attestation document, in the order of their tags.
pub open spec fn document_slots(doc: AttestationDocView) -> Seq<Slot> {
    seq![
        Slot::Text(doc.module_id),
        Slot::Digest(doc.digest),
        Slot::Word(doc.timestamp),
        Slot::Registers(doc.pcrs),
        Slot::Bytes(doc.certificate),
        Slot::Bundle(doc.cabundle),
        Slot::OptionalBytes(doc.public_key),
        Slot::OptionalBytes(doc.user_data),
        Slot::OptionalBytes(doc.nonce),
    ]
}

/// The encoding of an attestation document: the record of its fields.
pub open spec fn document_bytes(doc: AttestationDocView) -> Seq<u8> {
    record_bytes(document_slots(doc))
}

/// The types of the fields of an attestation document.
pub open spec fn document_kinds() -> Seq<Kind> {
    seq![
        Kind::Text,
        Kind::Digest,
        Kind::Word,
        Kind::Registers,
        Kind::Bytes,
        Kind::Bundle,
        Kind::OptionalBytes,
        Kind::OptionalBytes,
        Kind::OptionalBytes,
    ]
}

/// The attestation document with the fields `found`; none where a field
/// that it needs is missing.
pub open spec fn document_of(found: Seq<Option<Slot>>) -> Option<AttestationDocView> {
    match (
        found[0],
        found[1],
        found[2],
        found[3],
        found[4],
        found[5],
        found[6],
        found[7],
        found[8],
    ) {
        (
            Some(Slot::Text(module_id)),
            Some(Slot::Digest(digest)),
            Some(Slot::Word(timestamp)),
            Some(Slot::Registers(pcrs)),
            Some(Slot::Bytes(certificate)),
            Some(Slot::Bundle(cabundle)),
            Some(Slot::OptionalBytes(public_key)),
            Some(Slot::OptionalBytes(user_data)),
            Some(Slot::OptionalBytes(nonce)),
        ) => Some(
            AttestationDocView {
                module_id,
                digest,
                timestamp,
                pcrs,
                certificate,
                cabundle,
                public_key,
                user_data,
                nonce,
            },
        ),
        _ => None,
    }
}

/// The attestation document that starts at `pos`, and the position behind
/// it.
pub open spec fn document_at(s: Seq<u8>, pos: int) -> Option<(AttestationDocView, int)> {
    match record_at(document_kinds(), s, pos) {
        Some((found, end)) => match document_of(found) {
            Some(doc) => Some((doc, end)),
            None => None,
        },
        None => None,
    }
}

/// Appends the encoding of an attestation document.
pub fn write_document(buf: &mut Vec<u8>, doc: &AttestationDoc)
    ensures
        final(buf)@ == old(buf)@ + document_bytes(doc@),
{
    let fields = vec![
        Field::Text(&doc.module_id),
        Field::Digest(doc.digest),
        Field::Word(doc.timestamp),
        Field::Registers(&doc.pcrs),
        Field::Bytes(&doc.certificate),
        Field::Bundle(&doc.cabundle),
        Field::OptionalBytes(&doc.public_key),
        Field::OptionalBytes(&doc.user_data),
        Field::OptionalBytes(&doc.nonce),
    ];
    proof {
        assert(slots_of(fields@) =~= document_slots(doc@));
    }
    write_record(buf, &fields);
}

/// Reads the attestation document that starts at `pos`.
pub fn read_document(bytes: &[u8], pos: usize) -> (r: Option<(AttestationDoc, usize)>)
    ensures
        match r {
            Some((doc, end)) => document_at(bytes@, pos as int) == Some((doc@, end as int))
                && pos < end <= bytes.len(),
            None => document_at(bytes@, pos as int) is None,
        },
{
    let kinds: Vec<Kind> = vec![
        Kind::Text,
        Kind::Digest,
        Kind::Word,
        Kind::Registers,
        Kind::Bytes,
        Kind::Bundle,
        Kind::OptionalBytes,
        Kind::OptionalBytes,
        Kind::OptionalBytes,
    ];
    proof {
        assert(kinds@ =~= document_kinds());
    }
    let (mut found, end) = match read_record(&kinds, bytes, pos) {
        Some(read) => read,
        None => {
            return None;
        },
    };
    let nonce = match found.pop() {
        Some(Some(Value::OptionalBytes(data))) => data,
        _ => {
            return None;
        },
    };
    let user_data = match found.pop() {
        Some(Some(Value::OptionalBytes(data))) => data,
        _ => {
            return None;
        },
    };
    let public_key = match found.pop() {
        Some(Some(Value::OptionalBytes(data))) => data,
        _ => {
            return None;
        },
    };
    let cabundle = match found.pop() {
        Some(Some(Value::Bundle(list))) => list,
        _ => {
            return None;
        },
    };
    let certificate = match found.pop() {
        Some(Some(Value::Bytes(data))) => data,
        _ => {
            return None;
        },
    };
    let pcrs = match found.pop() {
        Some(Some(Value::Registers(map))) => map,
        _ => {
            return None;
        },
    };
    let timestamp = match found.pop() {
        Some(Some(Value::Word(n))) => n,
        _ => {
            return None;
        },
    };
    let digest = match found.pop() {
        Some(Some(Value::Digest(digest))) => digest,
        _ => {
            return None;
        },
    };
    let module_id = match found.pop() {
        Some(Some(Value::Text(text))) => text,
        _ => {
            return None;
        },
    };
    Some(
        (
            AttestationDoc {
                module_id,
                digest,
                timestamp,
                pcrs,
                certificate,
                cabundle,
                public_key,
                user_data,
                nonce,
            },
            end,
        ),
    )
}

impl AttestationDoc {
    /// The encoding of the document.
    pub fn to_binary(&self) -> (bytes: Vec<u8>)
        ensures
            bytes@ == document_bytes(self@),
    {
        let mut bytes: Vec<u8> = Vec::new();
        write_document(&mut bytes, self);
        assert(bytes@ =~= document_bytes(self@));
        bytes
    }

    /// Reads one document from the start of `bin`. What follows the
    /// document is not looked at.
    pub fn from_binary(bin: &[u8]) -> (r: Result<Self, Error>)
        ensures
            match r {
                Ok(doc) => document_at(bin@, 0) matches Some((found, _)) && found == doc@,
                Err(e) => e == Error::CborDecode && document_at(bin@, 0) is None,
            },
    {
        match read_document(bin, 0) {
            Some((doc, _)) => Ok(doc),
            None => Err(Error::CborDecode),
        }
    }
}

} // verus!
