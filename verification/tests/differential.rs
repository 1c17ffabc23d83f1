use aws_nitro_enclaves_nsm_api::api::{AttestationDoc, Digest, ErrorCode, Request, Response};
use aws_nitro_enclaves_nsm_api::codec::{read_document, read_request, read_response};
use aws_nitro_enclaves_nsm_api::schema::{read_slot, Kind, Value};
use minicbor::data::Type;
use minicbor::decode::Error;
use minicbor::Decoder;
use std::collections::{BTreeMap, BTreeSet};

const ALPHABET: [u8; 40] = [
    0x00, 0x01, 0x02, 0x03, 0x08, 0x17, 0x18, 0x19, 0x1a, 0x1b, 0x1c, 0x1f, 0x20, 0x38, 0x3b,
    0x40, 0x41, 0x5f, 0x60, 0x61, 0x62, 0x7f, 0x80, 0x81, 0x82, 0x83, 0x89, 0x9f, 0xa0, 0xa1,
    0xbf, 0xc0, 0xc3, 0xa9, 0xf4, 0xf5, 0xf6, 0xf7, 0xf8, 0xff,
];

struct Inputs {
    state: u64,
}

impl Inputs {
    fn new(seed: u64) -> Inputs {
        Inputs { state: seed }
    }

    fn next(&mut self) -> u64 {
        self.state ^= self.state << 13;
        self.state ^= self.state >> 7;
        self.state ^= self.state << 17;
        self.state
    }

    fn bytes(&mut self, prefix: &[u8], most: usize) -> Vec<u8> {
        let mut out = prefix.to_vec();
        let len = (self.next() % (most as u64 + 1)) as usize;
        for _ in 0..len {
            let pick = self.next();
            if pick % 16 == 0 {
                out.push((pick >> 8) as u8);
            } else {
                out.push(ALPHABET[(pick >> 8) as usize % ALPHABET.len()]);
            }
        }
        out
    }
}

fn short_inputs() -> Vec<Vec<u8>> {
    let mut all: Vec<Vec<u8>> = vec![vec![]];
    for a in ALPHABET {
        all.push(vec![a]);
        for b in ALPHABET {
            all.push(vec![a, b]);
            for c in ALPHABET {
                all.push(vec![a, b, c]);
            }
        }
    }
    all
}

fn compare<F>(kind: Kind, seed: u64, prefixes: &[&[u8]], expected: F)
where
    F: Fn(&mut Decoder) -> Result<Value, Error>,
{
    let mut inputs = short_inputs();
    let mut more = Inputs::new(seed);
    for _ in 0..30000 {
        for prefix in prefixes {
            inputs.push(more.bytes(prefix, 7));
        }
    }
    let mut accepted = 0;
    for input in inputs {
        let mut d = Decoder::new(&input);
        let theirs = match expected(&mut d) {
            Ok(value) => Some((value, d.position())),
            Err(_) => None,
        };
        if theirs.is_some() {
            accepted += 1;
        }
        assert_eq!(read_slot(kind, &input, 0), theirs, "input {:02x?}", input);
    }
    assert!(accepted > 100);
}

#[test]
fn indices_are_read_as_the_cbor_library_reads_them() {
    compare(Kind::Index, 11, &[&[], &[0x19], &[0x1a, 0x00], &[0x1b, 0, 0, 0, 0, 0]], |d| {
        d.u16().map(Value::Index)
    });
}

#[test]
fn words_are_read_as_the_cbor_library_reads_them() {
    compare(Kind::Word, 12, &[&[], &[0x1a], &[0x1b]], |d| d.u64().map(Value::Word));
}

#[test]
fn flags_are_read_as_the_cbor_library_reads_them() {
    compare(Kind::Flag, 13, &[&[]], |d| d.bool().map(Value::Flag));
}

#[test]
fn texts_are_read_as_the_cbor_library_reads_them() {
    compare(Kind::Text, 14, &[&[], &[0x63], &[0x78, 0x04], &[0x64, 0xf0, 0x9f]], |d| {
        d.decode::<String>().map(Value::Text)
    });
}

#[test]
fn byte_strings_are_read_as_the_cbor_library_reads_them() {
    compare(Kind::Bytes, 15, &[&[], &[0x83], &[0x9f], &[0x98, 0x02]], |d| {
        d.decode::<Vec<u8>>().map(Value::Bytes)
    });
}

#[test]
fn optional_byte_strings_are_read_as_the_cbor_library_reads_them() {
    compare(Kind::OptionalBytes, 16, &[&[], &[0x82], &[0x9f]], |d| {
        d.decode::<Option<Vec<u8>>>().map(Value::OptionalBytes)
    });
}

#[test]
fn bundles_are_read_as_the_cbor_library_reads_them() {
    compare(Kind::Bundle, 17, &[&[], &[0x82, 0x81], &[0x9f, 0x9f], &[0x81, 0x82]], |d| {
        d.decode::<Vec<Vec<u8>>>().map(Value::Bundle)
    });
}

#[test]
fn index_sets_are_read_as_the_cbor_library_reads_them() {
    compare(Kind::Indices, 18, &[&[], &[0x83], &[0x9f], &[0x82, 0x19]], |d| {
        d.decode::<BTreeSet<u16>>().map(Value::Indices)
    });
}

#[test]
fn register_maps_are_read_as_the_cbor_library_reads_them() {
    compare(Kind::Registers, 19, &[&[], &[0xa1], &[0xbf], &[0xa2, 0x01, 0x80]], |d| {
        d.decode::<BTreeMap<usize, Vec<u8>>>().map(Value::Registers)
    });
}

fn plain(d: &mut Decoder, last: i64) -> Result<i64, Error> {
    if Some(2) != d.array()? {
        return Err(Error::message("expected enum (2-element array)"));
    }
    let tag = d.i64()?;
    if 0 <= tag && tag <= last {
        d.skip()?;
        Ok(tag)
    } else {
        Err(Error::message("unknown variant"))
    }
}

fn digest(d: &mut Decoder) -> Result<Digest, Error> {
    Ok(match plain(d, 2)? {
        0 => Digest::SHA256,
        1 => Digest::SHA384,
        _ => Digest::SHA512,
    })
}

fn code(d: &mut Decoder) -> Result<ErrorCode, Error> {
    Ok(match plain(d, 8)? {
        0 => ErrorCode::Success,
        1 => ErrorCode::InvalidArgument,
        2 => ErrorCode::InvalidIndex,
        3 => ErrorCode::InvalidResponse,
        4 => ErrorCode::ReadOnlyIndex,
        5 => ErrorCode::InvalidOperation,
        6 => ErrorCode::BufferTooSmall,
        7 => ErrorCode::InputTooLarge,
        _ => ErrorCode::InternalError,
    })
}

#[test]
fn digests_are_read_as_the_cbor_library_reads_them() {
    compare(Kind::Digest, 20, &[&[0x82], &[0x82, 0x01], &[0x82, 0x02, 0x9f]], |d| {
        digest(d).map(Value::Digest)
    });
}

#[test]
fn codes_are_read_as_the_cbor_library_reads_them() {
    compare(Kind::Code, 21, &[&[0x82], &[0x82, 0x08], &[0x82, 0x03, 0xbf]], |d| {
        code(d).map(Value::Code)
    });
}

fn fields<F>(d: &mut Decoder, known: u64, mut field: F) -> Result<(), Error>
where
    F: FnMut(u64, &mut Decoder) -> Result<(), Error>,
{
    if let Some(len) = d.array()? {
        for i in 0..len {
            if i < known {
                field(i, d)?
            } else {
                d.skip()?
            }
        }
    } else {
        let mut i = 0;
        while Type::Break != d.datatype()? {
            if i < known {
                field(i, d)?
            } else {
                d.skip()?
            }
            i += 1
        }
        d.skip()?
    }
    Ok(())
}

fn needed<T>(value: Option<T>) -> Result<T, Error> {
    value.ok_or_else(|| Error::message("missing value"))
}

fn request(d: &mut Decoder) -> Result<Request, Error> {
    if Some(2) != d.array()? {
        return Err(Error::message("expected enum (2-element array)"));
    }
    match d.i64()? {
        0 => {
            let mut index = None;
            fields(d, 1, |_, d| {
                index = Some(d.u16()?);
                Ok(())
            })?;
            Ok(Request::DescribePCR { index: needed(index)? })
        }
        1 => {
            let mut index = None;
            let mut data = None;
            fields(d, 2, |i, d| {
                if i == 0 {
                    index = Some(d.u16()?);
                } else {
                    data = Some(d.decode::<Vec<u8>>()?);
                }
                Ok(())
            })?;
            Ok(Request::ExtendPCR { index: needed(index)?, data: needed(data)? })
        }
        2 => {
            let mut index = None;
            fields(d, 1, |_, d| {
                index = Some(d.u16()?);
                Ok(())
            })?;
            Ok(Request::LockPCR { index: needed(index)? })
        }
        3 => {
            let mut range = None;
            fields(d, 1, |_, d| {
                range = Some(d.u16()?);
                Ok(())
            })?;
            Ok(Request::LockPCRs { range: needed(range)? })
        }
        4 => {
            d.skip()?;
            Ok(Request::DescribeNSM)
        }
        5 => {
            let mut user_data = None;
            let mut nonce = None;
            let mut public_key = None;
            fields(d, 3, |i, d| {
                let value = d.decode::<Option<Vec<u8>>>()?;
                if i == 0 {
                    user_data = value;
                } else if i == 1 {
                    nonce = value;
                } else {
                    public_key = value;
                }
                Ok(())
            })?;
            Ok(Request::Attestation { user_data, nonce, public_key })
        }
        6 => {
            d.skip()?;
            Ok(Request::GetRandom)
        }
        _ => Err(Error::message("unknown variant")),
    }
}

fn response(d: &mut Decoder) -> Result<Response, Error> {
    if Some(2) != d.array()? {
        return Err(Error::message("expected enum (2-element array)"));
    }
    match d.i64()? {
        0 => {
            let mut lock = None;
            let mut data = None;
            fields(d, 2, |i, d| {
                if i == 0 {
                    lock = Some(d.bool()?);
                } else {
                    data = Some(d.decode::<Vec<u8>>()?);
                }
                Ok(())
            })?;
            Ok(Response::DescribePCR { lock: needed(lock)?, data: needed(data)? })
        }
        1 => {
            let mut data = None;
            fields(d, 1, |_, d| {
                data = Some(d.decode::<Vec<u8>>()?);
                Ok(())
            })?;
            Ok(Response::ExtendPCR { data: needed(data)? })
        }
        2 => {
            d.skip()?;
            Ok(Response::LockPCR)
        }
        3 => {
            d.skip()?;
            Ok(Response::LockPCRs)
        }
        4 => {
            let mut numbers: [Option<u16>; 5] = [None; 5];
            let mut module_id = None;
            let mut locked_pcrs = None;
            let mut kind = None;
            fields(d, 7, |i, d| {
                match i {
                    0 | 1 | 2 => numbers[i as usize] = Some(d.u16()?),
                    3 => module_id = Some(d.decode::<String>()?),
                    4 => numbers[4] = Some(d.u16()?),
                    5 => locked_pcrs = Some(d.decode::<BTreeSet<u16>>()?),
                    _ => kind = Some(digest(d)?),
                }
                Ok(())
            })?;
            Ok(Response::DescribeNSM {
                version_major: needed(numbers[0])?,
                version_minor: needed(numbers[1])?,
                version_patch: needed(numbers[2])?,
                module_id: needed(module_id)?,
                max_pcrs: needed(numbers[4])?,
                locked_pcrs: needed(locked_pcrs)?,
                digest: needed(kind)?,
            })
        }
        5 => {
            let mut document = None;
            fields(d, 1, |_, d| {
                document = Some(d.decode::<Vec<u8>>()?);
                Ok(())
            })?;
            Ok(Response::Attestation { document: needed(document)? })
        }
        6 => {
            let mut random = None;
            fields(d, 1, |_, d| {
                random = Some(d.decode::<Vec<u8>>()?);
                Ok(())
            })?;
            Ok(Response::GetRandom { random: needed(random)? })
        }
        7 => {
            let mut found = None;
            fields(d, 1, |_, d| {
                found = Some(code(d)?);
                Ok(())
            })?;
            Ok(Response::Error(needed(found)?))
        }
        _ => Err(Error::message("unknown variant")),
    }
}

fn document(d: &mut Decoder) -> Result<AttestationDoc, Error> {
    let mut module_id = None;
    let mut kind = None;
    let mut timestamp = None;
    let mut pcrs = None;
    let mut certificate = None;
    let mut cabundle = None;
    let mut public_key = None;
    let mut user_data = None;
    let mut nonce = None;
    fields(d, 9, |i, d| {
        match i {
            0 => module_id = Some(d.decode::<String>()?),
            1 => kind = Some(digest(d)?),
            2 => timestamp = Some(d.u64()?),
            3 => pcrs = Some(d.decode::<BTreeMap<usize, Vec<u8>>>()?),
            4 => certificate = Some(d.decode::<Vec<u8>>()?),
            5 => cabundle = Some(d.decode::<Vec<Vec<u8>>>()?),
            6 => public_key = d.decode::<Option<Vec<u8>>>()?,
            7 => user_data = d.decode::<Option<Vec<u8>>>()?,
            _ => nonce = d.decode::<Option<Vec<u8>>>()?,
        }
        Ok(())
    })?;
    Ok(AttestationDoc {
        module_id: needed(module_id)?,
        digest: needed(kind)?,
        timestamp: needed(timestamp)?,
        pcrs: needed(pcrs)?,
        certificate: needed(certificate)?,
        cabundle: needed(cabundle)?,
        public_key,
        user_data,
        nonce,
    })
}

#[test]
fn requests_are_read_as_the_cbor_library_reads_them() {
    let mut inputs = short_inputs();
    let mut more = Inputs::new(31);
    for _ in 0..20000 {
        for tag in 0..8u8 {
            inputs.push(more.bytes(&[0x82, tag], 8));
            inputs.push(more.bytes(&[0x82, tag, 0x9f], 8));
        }
        inputs.push(more.bytes(&[0x82, 0x05, 0x83], 8));
        inputs.push(more.bytes(&[0x82, 0x01, 0x82, 0x03], 8));
    }
    let mut accepted = 0;
    for input in inputs {
        let mut d = Decoder::new(&input);
        let theirs = match request(&mut d) {
            Ok(value) => Some((value, d.position())),
            Err(_) => None,
        };
        if theirs.is_some() {
            accepted += 1;
        }
        assert_eq!(read_request(&input, 0), theirs, "input {:02x?}", input);
    }
    assert!(accepted > 1000);
}

#[test]
fn responses_are_read_as_the_cbor_library_reads_them() {
    let mut inputs = short_inputs();
    let mut more = Inputs::new(32);
    for _ in 0..20000 {
        for tag in 0..9u8 {
            inputs.push(more.bytes(&[0x82, tag], 8));
            inputs.push(more.bytes(&[0x82, tag, 0x9f], 8));
        }
        inputs.push(more.bytes(&[0x82, 0x04, 0x87, 0x01, 0x00, 0x00, 0x60, 0x10], 8));
        inputs.push(more.bytes(&[0x82, 0x07, 0x81, 0x82], 8));
        inputs.push(more.bytes(&[0x82, 0x00, 0x82], 8));
    }
    let mut accepted = 0;
    for input in inputs {
        let mut d = Decoder::new(&input);
        let theirs = match response(&mut d) {
            Ok(value) => Some((value, d.position())),
            Err(_) => None,
        };
        if theirs.is_some() {
            accepted += 1;
        }
        assert_eq!(read_response(&input, 0), theirs, "input {:02x?}", input);
    }
    assert!(accepted > 1000);
}

#[test]
fn documents_are_read_as_the_cbor_library_reads_them() {
    let mut inputs = short_inputs();
    let mut more = Inputs::new(33);
    let start: [u8; 9] = [0x60, 0x82, 0x00, 0x80, 0x00, 0xa0, 0x80, 0x80, 0xf6];
    for _ in 0..20000 {
        for known in 0..start.len() {
            let mut prefix = vec![0x9f];
            prefix.extend_from_slice(&start[..known]);
            inputs.push(more.bytes(&prefix, 8));
            prefix[0] = 0x80 + (more.next() % 12) as u8;
            inputs.push(more.bytes(&prefix, 8));
        }
    }
    let mut accepted = 0;
    for input in inputs {
        let mut d = Decoder::new(&input);
        let theirs = match document(&mut d) {
            Ok(value) => Some((value, d.position())),
            Err(_) => None,
        };
        if theirs.is_some() {
            accepted += 1;
        }
        assert_eq!(read_document(&input, 0), theirs, "input {:02x?}", input);
    }
    assert!(accepted > 1000);
}
