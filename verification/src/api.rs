//! The vocabulary of the protocol: requests, responses, error codes, the
//! digest kinds and the attestation document, each with the mathematical
//! value that the codec's contracts speak of.

use std::collections::BTreeMap;
use std::collections::BTreeSet;
use vstd::prelude::*;

verus! {

/// The ways in which this library fails.
#[derive(Debug, Clone, Copy, PartialEq, Eq, Structural)]
pub enum Error {
    /// The device could not be read or written.
    Io,
    /// The bytes are no CBOR encoding of the value asked for.
    CborDecode,
}

/// The codes with which the module answers a request that it did not
/// carry out.
#[derive(Debug, Clone, Copy, PartialEq, Eq, Structural)]
pub enum ErrorCode {
    /// No errors.
    Success,
    /// Input argument(s) invalid.
    InvalidArgument,
    /// Register index out of bounds.
    InvalidIndex,
    /// The received response does not correspond to the earlier request.
    InvalidResponse,
    /// The register is read-only and the operation attempted to modify it.
    ReadOnlyIndex,
    /// The request cannot be fulfilled due to missing capabilities.
    InvalidOperation,
    /// The operation succeeded but the provided output buffer is too small.
    BufferTooSmall,
    /// The user-provided input is too large.
    InputTooLarge,
    /// The module cannot fulfill the request due to internal errors.
    InternalError,
}

/// The hash function of the register bank.
#[derive(Debug, Clone, Copy, PartialEq, Eq, Structural)]
pub enum Digest {
    /// SHA256
    SHA256,
    /// SHA384
    SHA384,
    /// SHA512
    SHA512,
}

impl Digest {
    /// The length in bytes of a register of a bank with this digest.
    pub open spec fn spec_register_len(self) -> nat {
        match self {
            Digest::SHA256 => 32,
            Digest::SHA384 => 48,
            Digest::SHA512 => 64,
        }
    }

    /// The length in bytes of a register of a bank with this digest.
    pub fn register_len(self) -> (len: usize)
        ensures
            len == self.spec_register_len(),
    {
        match self {
            Digest::SHA256 => 32,
            Digest::SHA384 => 48,
            Digest::SHA512 => 64,
        }
    }
}

/// The byte string that an optional vector holds.
pub open spec fn optional(bytes: Option<Vec<u8>>) -> Option<Seq<u8>> {
    match bytes {
        Some(bytes) => Some(bytes@),
        None => None,
    }
}

/// Operations that the module carries out.
#[derive(Debug, Clone, PartialEq, Eq)]
#[non_exhaustive]
pub enum Request {
    /// Read the register at `index`.
    DescribePCR {
        /// Index of the register to describe.
        index: u16,
    },
    /// Extend the register at `index` with `data`.
    ExtendPCR {
        /// Index of the register to extend.
        index: u16,
        /// Data to extend it with.
        data: Vec<u8>,
    },
    /// Lock the register at `index` against further modification.
    LockPCR {
        /// Index of the register to lock.
        index: u16,
    },
    /// Lock the registers at the indices `[0, range)`.
    LockPCRs {
        /// Number of registers to lock, starting from index 0.
        range: u16,
    },
    /// Return the capabilities and the version of the module.
    DescribeNSM,
    /// Create and sign an attestation document.
    Attestation {
        /// Additional user data for the document.
        user_data: Option<Vec<u8>>,
        /// An additional nonce for the document.
        nonce: Option<Vec<u8>>,
        /// A public key for the document.
        public_key: Option<Vec<u8>>,
    },
    /// Ask the module for entropy.
    GetRandom,
}

/// The value of a [`Request`].
pub enum RequestView {
    DescribePCR { index: u16 },
    ExtendPCR { index: u16, data: Seq<u8> },
    LockPCR { index: u16 },
    LockPCRs { range: u16 },
    DescribeNSM,
    Attestation { user_data: Option<Seq<u8>>, nonce: Option<Seq<u8>>, public_key: Option<Seq<u8>> },
    GetRandom,
}

impl View for Request {
    type V = RequestView;

    open spec fn view(&self) -> RequestView {
        match *self {
            Request::DescribePCR { index } => RequestView::DescribePCR { index },
            Request::ExtendPCR { index, data } => RequestView::ExtendPCR { index, data: data@ },
            Request::LockPCR { index } => RequestView::LockPCR { index },
            Request::LockPCRs { range } => RequestView::LockPCRs { range },
            Request::DescribeNSM => RequestView::DescribeNSM,
            Request::Attestation { user_data, nonce, public_key } => RequestView::Attestation {
                user_data: optional(user_data),
                nonce: optional(nonce),
                public_key: optional(public_key),
            },
            Request::GetRandom => RequestView::GetRandom,
        }
    }
}

/// The answers of the module.
#[derive(Debug, Clone, PartialEq, Eq)]
#[non_exhaustive]
pub enum Response {
    /// The state of a register.
    DescribePCR {
        /// True if the register is read-only, false otherwise.
        lock: bool,
        /// The current value of the register.
        data: Vec<u8>,
    },
    /// The register has been extended.
    ExtendPCR {
        /// The new value of the register.
        data: Vec<u8>,
    },
    /// The register has been locked.
    LockPCR,
    /// The registers have been locked.
    LockPCRs,
    /// The runtime configuration of the module.
    DescribeNSM {
        /// Breaking API changes are denoted by the major version.
        version_major: u16,
        /// Minor API changes are denoted by the minor version.
        version_minor: u16,
        /// Security and stability updates are denoted by the patch version.
        version_patch: u16,
        /// The identifier of the module.
        module_id: String,
        /// The number of registers that the module exposes.
        max_pcrs: u16,
        /// The registers that are read-only.
        locked_pcrs: BTreeSet<u16>,
        /// The digest of the register bank.
        digest: Digest,
    },
    /// A signed attestation document.
    Attestation {
        /// A signed COSE structure with the encoded document as its payload.
        document: Vec<u8>,
    },
    /// A number of bytes of entropy.
    GetRandom {
        /// The random bytes.
        random: Vec<u8>,
    },
    /// The module could not carry out the operation.
    Error(ErrorCode),
}

/// The value of a [`Response`].
pub enum ResponseView {
    DescribePCR { lock: bool, data: Seq<u8> },
    ExtendPCR { data: Seq<u8> },
    LockPCR,
    LockPCRs,
    DescribeNSM {
        version_major: u16,
        version_minor: u16,
        version_patch: u16,
        module_id: Seq<char>,
        max_pcrs: u16,
        locked_pcrs: Set<u16>,
        digest: Digest,
    },
    Attestation { document: Seq<u8> },
    GetRandom { random: Seq<u8> },
    Error(ErrorCode),
}

impl View for Response {
    type V = ResponseView;

    open spec fn view(&self) -> ResponseView {
        match *self {
            Response::DescribePCR { lock, data } => ResponseView::DescribePCR {
                lock,
                data: data@,
            },
            Response::ExtendPCR { data } => ResponseView::ExtendPCR { data: data@ },
            Response::LockPCR => ResponseView::LockPCR,
            Response::LockPCRs => ResponseView::LockPCRs,
            Response::DescribeNSM {
                version_major,
                version_minor,
                version_patch,
                module_id,
                max_pcrs,
                locked_pcrs,
                digest,
            } => ResponseView::DescribeNSM {
                version_major,
                version_minor,
                version_patch,
                module_id: module_id@,
                max_pcrs,
                locked_pcrs: locked_pcrs@,
                digest,
            },
            Response::Attestation { document } => ResponseView::Attestation {
                document: document@,
            },
            Response::GetRandom { random } => ResponseView::GetRandom { random: random@ },
            Response::Error(code) => ResponseView::Error(code),
        }
    }
}

/// An attestation document: the statement that the module signs.
#[derive(Debug, Clone, PartialEq)]
pub struct AttestationDoc {
    /// The identifier of the issuing module.
    pub module_id: String,
    /// The digest function used for calculating the register values.
    pub digest: Digest,
    /// The time at which the document was created, in milliseconds since
    /// the Unix epoch.
    pub timestamp: u64,
    /// The locked registers at the moment the document was generated.
    pub pcrs: BTreeMap<usize, Vec<u8>>,
    /// The certificate used to sign the document, DER encoded.
    pub certificate: Vec<u8>,
    /// The issuing CA bundle for the certificate.
    pub cabundle: Vec<Vec<u8>>,
    /// An optional DER-encoded key that the consumer can encrypt data with.
    pub public_key: Option<Vec<u8>>,
    /// Additional signed user data.
    pub user_data: Option<Vec<u8>>,
    /// An optional nonce provided by the consumer as a proof of
    /// authenticity.
    pub nonce: Option<Vec<u8>>,
}

/// The value of an [`AttestationDoc`].
pub struct AttestationDocView {
    pub module_id: Seq<char>,
    pub digest: Digest,
    pub timestamp: u64,
    pub pcrs: Map<usize, Seq<u8>>,
    pub certificate: Seq<u8>,
    pub cabundle: Seq<Seq<u8>>,
    pub public_key: Option<Seq<u8>>,
    pub user_data: Option<Seq<u8>>,
    pub nonce: Option<Seq<u8>>,
}

impl View for AttestationDoc {
    type V = AttestationDocView;

    open spec fn view(&self) -> AttestationDocView {
        AttestationDocView {
            module_id: self.module_id@,
            digest: self.digest,
            timestamp: self.timestamp,
            pcrs: crate::lists::registers(self.pcrs@),
            certificate: self.certificate@,
            cabundle: crate::lists::rows(self.cabundle@),
            public_key: optional(self.public_key),
            user_data: optional(self.user_data),
            nonce: optional(self.nonce),
        }
    }
}

impl AttestationDoc {
    /// Creates a document from its parts. Nothing is checked: whether the
    /// certificate chain is valid or the time plausible is for the verifier
    /// of the document to say.
    pub fn new(
        module_id: String,
        digest: Digest,
        timestamp: u64,
        pcrs: BTreeMap<usize, Vec<u8>>,
        certificate: Vec<u8>,
        cabundle: Vec<Vec<u8>>,
        user_data: Option<Vec<u8>>,
        nonce: Option<Vec<u8>>,
        public_key: Option<Vec<u8>>,
    ) -> (doc: Self)
        ensures
            doc.module_id == module_id,
            doc.digest == digest,
            doc.timestamp == timestamp,
            doc.pcrs == pcrs,
            doc.certificate == certificate,
            doc.cabundle == cabundle,
            doc.user_data == user_data,
            doc.nonce == nonce,
            doc.public_key == public_key,
    {
        AttestationDoc {
            module_id,
            digest,
            timestamp,
            pcrs,
            cabundle,
            certificate,
            user_data,
            nonce,
            public_key,
        }
    }
}

} // verus!
