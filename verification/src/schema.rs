//! Records on the wire. A record is an array whose position `i` holds the
//! field with tag `i`; optional fields that are absent at the end are left
//! out, fields behind the known ones are passed over, and an enumeration
//! is a pair of a variant's tag and its record.

use crate::api::{optional, Digest, ErrorCode};
use crate::cbor::{
    bool_at, bool_bytes, byte_is, container_at, head, item_end, null_at, read_bool, read_container,
    read_text, read_uint, skip_item, text_at, text_bytes, uint_at, write_bool, write_head,
    write_text, write_uint, Major, NULL,
};
use crate::lists::{
    bundle_at, bundle_bytes, byte_list_at, byte_list_bytes, ends_at, fewer, indices_at,
    indices_bytes, one_fewer, read_bundle, read_byte_list, read_end, read_indices, read_registers,
    registers, registers_at, registers_bytes, rows, write_bundle, write_byte_list, write_indices,
    write_registers,
};
use std::collections::BTreeMap;
use std::collections::BTreeSet;
use vstd::prelude::*;

verus! {

/// The first byte of an array without elements.
pub const EMPTY_ARRAY: u8 = 0x80;

/// The first byte of an array of two elements.
pub const PAIR: u8 = 0x82;

/// The types that a field of the schema can have.
#[derive(Debug, Clone, Copy, PartialEq, Eq, Structural)]
pub enum Kind {
    /// A register index, or another 16-bit number.
    Index,
    /// A 64-bit number.
    Word,
    /// A truth value.
    Flag,
    /// A text.
    Text,
    /// A byte string.
    Bytes,
    /// A byte string that may be absent.
    OptionalBytes,
    /// A digest kind.
    Digest,
    /// An error code.
    Code,
    /// A list of byte strings.
    Bundle,
    /// A set of register indices.
    Indices,
    /// A register map.
    Registers,
}

/// The value of a field.
pub enum Slot {
    Index(u16),
    Word(u64),
    Flag(bool),
    Text(Seq<char>),
    Bytes(Seq<u8>),
    OptionalBytes(Option<Seq<u8>>),
    Digest(Digest),
    Code(ErrorCode),
    Bundle(Seq<Seq<u8>>),
    Indices(Set<u16>),
    Registers(Map<usize, Seq<u8>>),
}

impl Slot {
    /// The type of the field that holds this value.
    pub open spec fn kind(self) -> Kind {
        match self {
            Slot::Index(_) => Kind::Index,
            Slot::Word(_) => Kind::Word,
            Slot::Flag(_) => Kind::Flag,
            Slot::Text(_) => Kind::Text,
            Slot::Bytes(_) => Kind::Bytes,
            Slot::OptionalBytes(_) => Kind::OptionalBytes,
            Slot::Digest(_) => Kind::Digest,
            Slot::Code(_) => Kind::Code,
            Slot::Bundle(_) => Kind::Bundle,
            Slot::Indices(_) => Kind::Indices,
            Slot::Registers(_) => Kind::Registers,
        }
    }

    /// Whether this is an optional field without a value.
    pub open spec fn is_absent(self) -> bool {
        self == Slot::OptionalBytes(None)
    }
}

/// A field that has been read.
#[derive(Debug, Clone, PartialEq, Eq)]
pub enum Value {
    Index(u16),
    Word(u64),
    Flag(bool),
    Text(String),
    Bytes(Vec<u8>),
    OptionalBytes(Option<Vec<u8>>),
    Digest(Digest),
    Code(ErrorCode),
    Bundle(Vec<Vec<u8>>),
    Indices(BTreeSet<u16>),
    Registers(BTreeMap<usize, Vec<u8>>),
}

impl View for Value {
    type V = Slot;

    open spec fn view(&self) -> Slot {
        match *self {
            Value::Index(n) => Slot::Index(n),
            Value::Word(n) => Slot::Word(n),
            Value::Flag(b) => Slot::Flag(b),
            Value::Text(text) => Slot::Text(text@),
            Value::Bytes(data) => Slot::Bytes(data@),
            Value::OptionalBytes(data) => Slot::OptionalBytes(optional(data)),
            Value::Digest(digest) => Slot::Digest(digest),
            Value::Code(code) => Slot::Code(code),
            Value::Bundle(list) => Slot::Bundle(rows(list@)),
            Value::Indices(set) => Slot::Indices(set@),
            Value::Registers(map) => Slot::Registers(registers(map@)),
        }
    }
}

/// A field that is to be written.
#[derive(Debug, Clone, Copy, PartialEq, Eq)]
pub enum Field<'a> {
    Index(u16),
    Word(u64),
    Flag(bool),
    Text(&'a String),
    Bytes(&'a Vec<u8>),
    OptionalBytes(&'a Option<Vec<u8>>),
    Digest(Digest),
    Code(ErrorCode),
    Bundle(&'a Vec<Vec<u8>>),
    Indices(&'a BTreeSet<u16>),
    Registers(&'a BTreeMap<usize, Vec<u8>>),
}

impl<'a> View for Field<'a> {
    type V = Slot;

    open spec fn view(&self) -> Slot {
        match *self {
            Field::Index(n) => Slot::Index(n),
            Field::Word(n) => Slot::Word(n),
            Field::Flag(b) => Slot::Flag(b),
            Field::Text(text) => Slot::Text(text@),
            Field::Bytes(data) => Slot::Bytes(data@),
            Field::OptionalBytes(data) => Slot::OptionalBytes(optional(*data)),
            Field::Digest(digest) => Slot::Digest(digest),
            Field::Code(code) => Slot::Code(code),
            Field::Bundle(list) => Slot::Bundle(rows(list@)),
            Field::Indices(set) => Slot::Indices(set@),
            Field::Registers(map) => Slot::Registers(registers(map@)),
        }
    }
}

// Tags of the enumerations without fields

/// The tag of a digest kind.
pub open spec fn digest_tag(digest: Digest) -> u64 {
    match digest {
        Digest::SHA256 => 0,
        Digest::SHA384 => 1,
        Digest::SHA512 => 2,
    }
}

/// The digest kind with tag `tag`, for a tag of at most 2.
pub open spec fn digest_of(tag: u64) -> Digest {
    if tag == 0 {
        Digest::SHA256
    } else if tag == 1 {
        Digest::SHA384
    } else {
        Digest::SHA512
    }
}

/// The tag of an error code.
pub open spec fn code_tag(code: ErrorCode) -> u64 {
    match code {
        ErrorCode::Success => 0,
        ErrorCode::InvalidArgument => 1,
        ErrorCode::InvalidIndex => 2,
        ErrorCode::InvalidResponse => 3,
        ErrorCode::ReadOnlyIndex => 4,
        ErrorCode::InvalidOperation => 5,
        ErrorCode::BufferTooSmall => 6,
        ErrorCode::InputTooLarge => 7,
        ErrorCode::InternalError => 8,
    }
}

/// The error code with tag `tag`, for a tag of at most 8.
pub open spec fn code_of(tag: u64) -> ErrorCode {
    if tag == 0 {
        ErrorCode::Success
    } else if tag == 1 {
        ErrorCode::InvalidArgument
    } else if tag == 2 {
        ErrorCode::InvalidIndex
    } else if tag == 3 {
        ErrorCode::InvalidResponse
    } else if tag == 4 {
        ErrorCode::ReadOnlyIndex
    } else if tag == 5 {
        ErrorCode::InvalidOperation
    } else if tag == 6 {
        ErrorCode::BufferTooSmall
    } else if tag == 7 {
        ErrorCode::InputTooLarge
    } else {
        ErrorCode::InternalError
    }
}

/// The executable form of [`digest_tag`].
pub fn tag_of_digest(digest: Digest) -> (tag: u64)
    ensures
        tag == digest_tag(digest),
{
    match digest {
        Digest::SHA256 => 0,
        Digest::SHA384 => 1,
        Digest::SHA512 => 2,
    }
}

/// The executable form of [`digest_of`].
pub fn digest_with_tag(tag: u64) -> (digest: Digest)
    ensures
        digest == digest_of(tag),
{
    if tag == 0 {
        Digest::SHA256
    } else if tag == 1 {
        Digest::SHA384
    } else {
        Digest::SHA512
    }
}

/// The executable form of [`code_tag`].
pub fn tag_of_code(code: ErrorCode) -> (tag: u64)
    ensures
        tag == code_tag(code),
{
    match code {
        ErrorCode::Success => 0,
        ErrorCode::InvalidArgument => 1,
        ErrorCode::InvalidIndex => 2,
        ErrorCode::InvalidResponse => 3,
        ErrorCode::ReadOnlyIndex => 4,
        ErrorCode::InvalidOperation => 5,
        ErrorCode::BufferTooSmall => 6,
        ErrorCode::InputTooLarge => 7,
        ErrorCode::InternalError => 8,
    }
}

/// The executable form of [`code_of`].
pub fn code_with_tag(tag: u64) -> (code: ErrorCode)
    ensures
        code == code_of(tag),
{
    if tag == 0 {
        ErrorCode::Success
    } else if tag == 1 {
        ErrorCode::InvalidArgument
    } else if tag == 2 {
        ErrorCode::InvalidIndex
    } else if tag == 3 {
        ErrorCode::InvalidResponse
    } else if tag == 4 {
        ErrorCode::ReadOnlyIndex
    } else if tag == 5 {
        ErrorCode::InvalidOperation
    } else if tag == 6 {
        ErrorCode::BufferTooSmall
    } else if tag == 7 {
        ErrorCode::InputTooLarge
    } else {
        ErrorCode::InternalError
    }
}

// Variants

/// The opening of an enumeration's value: an array of two elements whose
/// first is the tag `tag` of a variant.
pub open spec fn variant_bytes(tag: u64) -> Seq<u8> {
    seq![PAIR] + head(Major::Unsigned, tag)
}

/// The tag of the variant whose pair starts at `pos`, where it is at most
/// `last`, and the position of the variant's record.
pub open spec fn variant_at(s: Seq<u8>, pos: int, last: u64) -> Option<(u64, int)> {
    match container_at(s, pos, Major::Array) {
        Some((count, start)) => if count == Some(2u64) {
            uint_at(s, start, last)
        } else {
            None
        },
        None => None,
    }
}

/// Appends the opening of an enumeration's value.
pub fn write_variant(buf: &mut Vec<u8>, tag: u64)
    ensures
        final(buf)@ == old(buf)@ + variant_bytes(tag),
{
    buf.push(PAIR);
    write_uint(buf, tag);
    assert(buf@ =~= old(buf)@ + variant_bytes(tag));
}

/// Reads the opening of an enumeration's value.
pub fn read_variant(bytes: &[u8], pos: usize, last: u64) -> (r: Option<(u64, usize)>)
    ensures
        match r {
            Some((tag, end)) => variant_at(bytes@, pos as int, last) == Some((tag, end as int))
                && pos < end <= bytes.len() && tag <= last,
            None => variant_at(bytes@, pos as int, last) is None,
        },
{
    match read_container(bytes, pos, Major::Array) {
        Some((count, start)) => match count {
            Some(n) => if n == 2 {
                read_uint(bytes, start, last)
            } else {
                None
            },
            None => None,
        },
        None => None,
    }
}

/// Where the record of a variant without fields ends. Such a record is
/// written as an empty array; in its place any one data item is accepted.
pub open spec fn plain_end(s: Seq<u8>, pos: int) -> Option<int> {
    if 0 <= pos < s.len() && s[pos] == EMPTY_ARRAY {
        Some(pos + 1)
    } else {
        match item_end(s, pos) {
            Some(end) => if pos < end <= s.len() {
                Some(end)
            } else {
                None
            },
            None => None,
        }
    }
}

/// Passes over the record of a variant without fields.
pub fn read_plain_end(bytes: &[u8], pos: usize) -> (r: Option<usize>)
    ensures
        match r {
            Some(end) => plain_end(bytes@, pos as int) == Some(end as int) && pos < end
                <= bytes.len(),
            None => plain_end(bytes@, pos as int) is None,
        },
{
    if byte_is(bytes, pos, EMPTY_ARRAY) {
        Some(pos + 1)
    } else {
        skip_item(bytes, pos)
    }
}

/// The encoding of the variant with tag `tag` of an enumeration without
/// fields.
pub open spec fn plain_bytes(tag: u64) -> Seq<u8> {
    variant_bytes(tag) + seq![EMPTY_ARRAY]
}

/// The tag of the variant without fields that starts at `pos`, where it is
/// at most `last`.
pub open spec fn plain_at(s: Seq<u8>, pos: int, last: u64) -> Option<(u64, int)> {
    match variant_at(s, pos, last) {
        Some((tag, mid)) => match plain_end(s, mid) {
            Some(end) => Some((tag, end)),
            None => None,
        },
        None => None,
    }
}

/// Appends a variant of an enumeration without fields.
pub fn write_plain(buf: &mut Vec<u8>, tag: u64)
    ensures
        final(buf)@ == old(buf)@ + plain_bytes(tag),
{
    write_variant(buf, tag);
    buf.push(EMPTY_ARRAY);
    assert(buf@ =~= old(buf)@ + plain_bytes(tag));
}

/// Reads a variant of an enumeration without fields.
pub fn read_plain(bytes: &[u8], pos: usize, last: u64) -> (r: Option<(u64, usize)>)
    ensures
        match r {
            Some((tag, end)) => plain_at(bytes@, pos as int, last) == Some((tag, end as int))
                && pos < end <= bytes.len() && tag <= last,
            None => plain_at(bytes@, pos as int, last) is None,
        },
{
    match read_variant(bytes, pos, last) {
        Some((tag, mid)) => match read_plain_end(bytes, mid) {
            Some(end) => Some((tag, end)),
            None => None,
        },
        None => None,
    }
}

// Fields

/// The encoding of a field.
pub open spec fn slot_bytes(slot: Slot) -> Seq<u8> {
    match slot {
        Slot::Index(n) => head(Major::Unsigned, n as u64),
        Slot::Word(n) => head(Major::Unsigned, n),
        Slot::Flag(b) => bool_bytes(b),
        Slot::Text(text) => text_bytes(text),
        Slot::Bytes(data) => byte_list_bytes(data),
        Slot::OptionalBytes(data) => match data {
            Some(data) => byte_list_bytes(data),
            None => seq![NULL],
        },
        Slot::Digest(digest) => plain_bytes(digest_tag(digest)),
        Slot::Code(code) => plain_bytes(code_tag(code)),
        Slot::Bundle(list) => bundle_bytes(list),
        Slot::Indices(set) => indices_bytes(set),
        Slot::Registers(map) => registers_bytes(map),
    }
}

/// The field of type `kind` that starts at `pos`.
pub open spec fn slot_at(kind: Kind, s: Seq<u8>, pos: int) -> Option<(Slot, int)> {
    match kind {
        Kind::Index => match uint_at(s, pos, 0xffff) {
            Some((n, end)) => Some((Slot::Index(n as u16), end)),
            None => None,
        },
        Kind::Word => match uint_at(s, pos, u64::MAX) {
            Some((n, end)) => Some((Slot::Word(n), end)),
            None => None,
        },
        Kind::Flag => match bool_at(s, pos) {
            Some((b, end)) => Some((Slot::Flag(b), end)),
            None => None,
        },
        Kind::Text => match text_at(s, pos) {
            Some((text, end)) => Some((Slot::Text(text), end)),
            None => None,
        },
        Kind::Bytes => match byte_list_at(s, pos) {
            Some((data, end)) => Some((Slot::Bytes(data), end)),
            None => None,
        },
        Kind::OptionalBytes => if null_at(s, pos) {
            Some((Slot::OptionalBytes(None), pos + 1))
        } else {
            match byte_list_at(s, pos) {
                Some((data, end)) => Some((Slot::OptionalBytes(Some(data)), end)),
                None => None,
            }
        },
        Kind::Digest => match plain_at(s, pos, 2) {
            Some((tag, end)) => Some((Slot::Digest(digest_of(tag)), end)),
            None => None,
        },
        Kind::Code => match plain_at(s, pos, 8) {
            Some((tag, end)) => Some((Slot::Code(code_of(tag)), end)),
            None => None,
        },
        Kind::Bundle => match bundle_at(s, pos) {
            Some((list, end)) => Some((Slot::Bundle(list), end)),
            None => None,
        },
        Kind::Indices => match indices_at(s, pos) {
            Some((set, end)) => Some((Slot::Indices(set), end)),
            None => None,
        },
        Kind::Registers => match registers_at(s, pos) {
            Some((map, end)) => Some((Slot::Registers(map), end)),
            None => None,
        },
    }
}

/// Appends a field.
pub fn write_slot(buf: &mut Vec<u8>, field: &Field<'_>)
    ensures
        final(buf)@ == old(buf)@ + slot_bytes(field@),
{
    match field {
        Field::Index(n) => write_uint(buf, *n as u64),
        Field::Word(n) => write_uint(buf, *n),
        Field::Flag(b) => write_bool(buf, *b),
        Field::Text(text) => write_text(buf, text.as_str()),
        Field::Bytes(data) => write_byte_list(buf, data.as_slice()),
        Field::OptionalBytes(data) => match data {
            Some(data) => write_byte_list(buf, data.as_slice()),
            None => {
                buf.push(NULL);
                assert(buf@ =~= old(buf)@ + seq![NULL]);
            },
        },
        Field::Digest(digest) => write_plain(buf, tag_of_digest(*digest)),
        Field::Code(code) => write_plain(buf, tag_of_code(*code)),
        Field::Bundle(list) => write_bundle(buf, list),
        Field::Indices(set) => write_indices(buf, set),
        Field::Registers(map) => write_registers(buf, map),
    }
}

/// Reads a field of type `kind`.
pub fn read_slot(kind: Kind, bytes: &[u8], pos: usize) -> (r: Option<(Value, usize)>)
    ensures
        match r {
            Some((value, end)) => slot_at(kind, bytes@, pos as int) == Some(
                (value@, end as int),
            ) && pos < end <= bytes.len(),
            None => slot_at(kind, bytes@, pos as int) is None,
        },
{
    match kind {
        Kind::Index => match read_uint(bytes, pos, 0xffff) {
            Some((n, end)) => Some((Value::Index(n as u16), end)),
            None => None,
        },
        Kind::Word => match read_uint(bytes, pos, u64::MAX) {
            Some((n, end)) => Some((Value::Word(n), end)),
            None => None,
        },
        Kind::Flag => match read_bool(bytes, pos) {
            Some((b, end)) => Some((Value::Flag(b), end)),
            None => None,
        },
        Kind::Text => match read_text(bytes, pos) {
            Some((text, end)) => Some((Value::Text(text), end)),
            None => None,
        },
        Kind::Bytes => match read_byte_list(bytes, pos) {
            Some((data, end)) => Some((Value::Bytes(data), end)),
            None => None,
        },
        Kind::OptionalBytes => if byte_is(bytes, pos, NULL) {
            Some((Value::OptionalBytes(None), pos + 1))
        } else {
            match read_byte_list(bytes, pos) {
                Some((data, end)) => Some((Value::OptionalBytes(Some(data)), end)),
                None => None,
            }
        },
        Kind::Digest => match read_plain(bytes, pos, 2) {
            Some((tag, end)) => Some((Value::Digest(digest_with_tag(tag)), end)),
            None => None,
        },
        Kind::Code => match read_plain(bytes, pos, 8) {
            Some((tag, end)) => Some((Value::Code(code_with_tag(tag)), end)),
            None => None,
        },
        Kind::Bundle => match read_bundle(bytes, pos) {
            Some((list, end)) => Some((Value::Bundle(list), end)),
            None => None,
        },
        Kind::Indices => match read_indices(bytes, pos) {
            Some((set, end)) => Some((Value::Indices(set), end)),
            None => None,
        },
        Kind::Registers => match read_registers(bytes, pos) {
            Some((map, end)) => Some((Value::Registers(map), end)),
            None => None,
        },
    }
}

// Records

/// The values of the fields that are to be written.
pub open spec fn slots_of(fields: Seq<Field<'_>>) -> Seq<Slot> {
    Seq::new(fields.len(), |i: int| fields[i]@)
}

/// The values of the fields that have been read; none for a field that
/// the input did not hold.
pub open spec fn slots_found(found: Seq<Option<Value>>) -> Seq<Option<Slot>> {
    Seq::new(
        found.len(),
        |i: int|
            match found[i] {
                Some(value) => Some(value@),
                None => None,
            },
    )
}

/// The number of fields that are written: all but the optional fields
/// without a value at the end.
pub open spec fn used(slots: Seq<Slot>) -> nat
    decreases slots.len(),
{
    if slots.len() == 0 {
        0
    } else if slots.last().is_absent() {
        used(slots.drop_last())
    } else {
        slots.len()
    }
}

/// The encodings of fields, one behind the other.
pub open spec fn slot_items(slots: Seq<Slot>) -> Seq<u8>
    decreases slots.len(),
{
    if slots.len() == 0 {
        Seq::empty()
    } else {
        slot_items(slots.drop_last()) + slot_bytes(slots.last())
    }
}

/// The encoding of a record: an array of the fields that are written.
pub open spec fn record_bytes(slots: Seq<Slot>) -> Seq<u8> {
    head(Major::Array, used(slots) as u64) + slot_items(slots.take(used(slots) as int))
}

/// The fields of a record of which nothing has been read yet: an optional
/// field is there without a value, any other is missing.
pub open spec fn blank(kinds: Seq<Kind>) -> Seq<Option<Slot>> {
    Seq::new(
        kinds.len(),
        |i: int|
            if kinds[i] == Kind::OptionalBytes {
                Some(Slot::OptionalBytes(None))
            } else {
                None
            },
    )
}

/// The fields read from `pos` on, the next of them with tag `i`, put into
/// the `acc` read before. An element behind the known fields is passed
/// over.
pub open spec fn slots_from(
    kinds: Seq<Kind>,
    s: Seq<u8>,
    pos: int,
    i: int,
    left: Option<u64>,
    acc: Seq<Option<Slot>>,
) -> Option<(Seq<Option<Slot>>, int)>
    decreases s.len() - pos,
{
    match ends_at(s, pos, left) {
        Some(end) => Some((acc, end)),
        None => if 0 <= i < kinds.len() {
            match slot_at(kinds[i], s, pos) {
                Some((slot, next)) => if pos < next <= s.len() {
                    slots_from(kinds, s, next, i + 1, fewer(left), acc.update(i, Some(slot)))
                } else {
                    None
                },
                None => None,
            }
        } else {
            match item_end(s, pos) {
                Some(next) => if pos < next <= s.len() {
                    slots_from(kinds, s, next, i + 1, fewer(left), acc)
                } else {
                    None
                },
                None => None,
            }
        },
    }
}

/// The fields of the record of types `kinds` that starts at `pos`.
pub open spec fn record_at(kinds: Seq<Kind>, s: Seq<u8>, pos: int) -> Option<
    (Seq<Option<Slot>>, int),
> {
    match container_at(s, pos, Major::Array) {
        Some((count, start)) => slots_from(kinds, s, start, 0, count, blank(kinds)),
        None => None,
    }
}

/// Whether a field is an optional one without a value.
pub fn field_is_absent(field: &Field<'_>) -> (b: bool)
    ensures
        b == field@.is_absent(),
{
    match field {
        Field::OptionalBytes(data) => data.is_none(),
        _ => false,
    }
}

/// Appends a record.
pub fn write_record(buf: &mut Vec<u8>, fields: &Vec<Field<'_>>)
    ensures
        final(buf)@ == old(buf)@ + record_bytes(slots_of(fields@)),
{
    let ghost slots = slots_of(fields@);
    let mut n: usize = fields.len();
    proof {
        assert(slots.take(n as int) =~= slots);
    }
    while n > 0 && field_is_absent(&fields[n - 1])
        invariant
            n <= fields.len(),
            slots == slots_of(fields@),
            used(slots) == used(slots.take(n as int)),
        decreases n,
    {
        proof {
            assert(slots.take(n as int).drop_last() =~= slots.take(n - 1));
        }
        n -= 1;
    }
    proof {
        if n > 0 {
            assert(slots.take(n as int).last() == fields@[n - 1]@);
        }
        assert(used(slots) == n);
    }
    write_head(buf, Major::Array, n as u64);
    let ghost before = buf@;
    let ghost written = slots.take(n as int);
    let mut i: usize = 0;
    while i < n
        invariant
            i <= n <= fields.len(),
            slots == slots_of(fields@),
            written == slots.take(n as int),
            buf@ == before + slot_items(written.take(i as int)),
        decreases n - i,
    {
        write_slot(buf, &fields[i]);
        i += 1;
        proof {
            let now = written.take(i as int);
            assert(now.drop_last() =~= written.take(i - 1));
            assert(now.last() == fields@[i - 1]@);
            assert(buf@ =~= before + slot_items(now));
        }
    }
    proof {
        assert(written.take(n as int) =~= written);
        assert(buf@ =~= old(buf)@ + record_bytes(slots));
    }
}

/// The fields of a record of which nothing has been read yet.
pub fn blank_record(kinds: &Vec<Kind>) -> (found: Vec<Option<Value>>)
    ensures
        slots_found(found@) == blank(kinds@),
        found.len() == kinds.len(),
{
    let mut found: Vec<Option<Value>> = Vec::new();
    let mut i: usize = 0;
    while i < kinds.len()
        invariant
            i <= kinds.len(),
            found.len() == i,
            forall|j: int|
                0 <= j < i ==> (#[trigger] slots_found(found@)[j]) == blank(kinds@)[j],
        decreases kinds.len() - i,
    {
        let ghost before = found@;
        match kinds[i] {
            Kind::OptionalBytes => found.push(Some(Value::OptionalBytes(None))),
            _ => found.push(None),
        }
        proof {
            assert forall|j: int| 0 <= j < i + 1 implies (#[trigger] slots_found(found@)[j])
                == blank(kinds@)[j] by {
                if j < i {
                    assert(found@[j] == before[j]);
                    assert(slots_found(before)[j] == blank(kinds@)[j]);
                }
            }
        }
        i += 1;
    }
    proof {
        assert(slots_found(found@) =~= blank(kinds@));
    }
    found
}

/// Reads a record whose fields have the types `kinds`.
pub fn read_record(kinds: &Vec<Kind>, bytes: &[u8], pos: usize) -> (r: Option<
    (Vec<Option<Value>>, usize),
>)
    ensures
        match r {
            Some((found, end)) => record_at(kinds@, bytes@, pos as int) == Some(
                (slots_found(found@), end as int),
            ) && pos < end <= bytes.len() && found.len() == kinds.len(),
            None => record_at(kinds@, bytes@, pos as int) is None,
        },
{
    let (count, start) = match read_container(bytes, pos, Major::Array) {
        Some(opened) => opened,
        None => {
            return None;
        },
    };
    let mut found: Vec<Option<Value>> = blank_record(kinds);
    let mut at: usize = start;
    let mut left: Option<u64> = count;
    let mut i: usize = 0;
    loop
        invariant
            pos < start <= at <= bytes.len(),
            i <= at - start,
            found.len() == kinds.len(),
            record_at(kinds@, bytes@, pos as int) == slots_from(
                kinds@,
                bytes@,
                at as int,
                i as int,
                left,
                slots_found(found@),
            ),
        decreases bytes.len() - at,
    {
        match read_end(bytes, at, left) {
            Some(end) => {
                return Some((found, end));
            },
            None => {},
        }
        if i < kinds.len() {
            match read_slot(kinds[i], bytes, at) {
                Some((value, next)) => {
                    proof {
                        assert(slots_found(found@.update(i as int, Some(value)))
                            =~= slots_found(found@).update(i as int, Some(value@)));
                    }
                    found.set(i, Some(value));
                    at = next;
                },
                None => {
                    return None;
                },
            }
        } else {
            match skip_item(bytes, at) {
                Some(next) => {
                    at = next;
                },
                None => {
                    return None;
                },
            }
        }
        left = one_fewer(left);
        i += 1;
    }
}

} // verus!
