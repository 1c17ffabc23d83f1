//! What is cut short is refused: no request, response or attestation
//! document is read from an encoding that ends before its last byte.

use crate::api::{AttestationDoc, ErrorCode, Request, Response, ResponseView};
use crate::cbor::{
    argument_at, bool_at, bool_bytes, container_at, head, major_at, null_at, text_at, text_bytes,
    uint_at, Major, INDEFINITE,
};
use crate::codec::{
    document_at, document_bytes, document_kinds, document_slots, request_at, request_bytes,
    request_kinds, request_slots, request_tag, response_at, response_bytes, response_kinds,
    response_slots, response_tag,
};
use crate::driver::response_in;
use crate::lists::{
    bundle_at, bundle_bytes, byte_items, byte_list_at, byte_list_bytes, bytes_from, entries_below,
    entries_from, ends_at, fewer, indices_at, indices_below, indices_bytes, indices_from,
    registers_at, registers_bytes, row_items, rows_from,
};
use crate::round_trip::{
    count_between, entries_between, indices_between, lemma_byte_items_front,
    lemma_byte_list_round_trip, lemma_container_round_trip, lemma_count_keys, lemma_count_members,
    lemma_document_fits, lemma_empty_record, lemma_entries_from_zero, lemma_entries_front,
    lemma_first_byte, lemma_head_round_trip, lemma_indices_from_zero, lemma_indices_front,
    lemma_occurs_split, lemma_request_fits, lemma_response_fits, lemma_response_found,
    lemma_row_items_front, lemma_slot_items_front, lemma_slot_round_trip, lemma_uint_round_trip,
    lemma_used_tail, lemma_variant_round_trip, members_below, members_between, keys_below,
    occurs_at, record_fits, registers_fit, rows_fit, slot_fits, text_fits,
};
use crate::schema::{
    code_tag, digest_tag, plain_at, plain_bytes, plain_end, record_at, record_bytes, slot_at,
    slot_bytes, slot_items, slots_from, used, variant_at, variant_bytes, Kind, Slot, EMPTY_ARRAY,
    PAIR,
};
use vstd::prelude::*;
use vstd::utf8::encode_utf8;

verus! {

/// Whether `s` ends inside the bytes `x`: it holds the first `m` of them
/// from `pos` on, and nothing more.
pub open spec fn cut_at(s: Seq<u8>, pos: int, x: Seq<u8>, m: int) -> bool {
    0 <= pos && 0 <= m < x.len() && s.len() == pos + m && s.subrange(pos, pos + m) == x.subrange(
        0,
        m,
    )
}

/// Where the input ends inside two byte strings that stand one behind the
/// other, it ends inside the first, or it holds the first and ends inside
/// the second.
pub proof fn lemma_cut_split(s: Seq<u8>, pos: int, a: Seq<u8>, b: Seq<u8>, m: int)
    requires
        cut_at(s, pos, a + b, m),
    ensures
        m < a.len() ==> cut_at(s, pos, a, m),
        m >= a.len() ==> occurs_at(s, pos, a) && cut_at(s, pos + a.len(), b, m - a.len()),
{
    let whole = a + b;
    if m < a.len() {
        assert(whole.subrange(0, m) =~= a.subrange(0, m));
    } else {
        let held = s.subrange(pos, pos + m);
        assert(s.subrange(pos, pos + a.len()) =~= held.subrange(0, a.len() as int));
        assert(whole.subrange(0, m).subrange(0, a.len() as int) =~= a);
        assert(s.subrange(pos + a.len(), pos + m) =~= held.subrange(a.len() as int, m));
        assert(whole.subrange(0, m).subrange(a.len() as int, m) =~= b.subrange(0, m - a.len()));
    }
}

/// A byte that the input holds of a string inside which it ends is the
/// byte of the string in its place.
pub proof fn lemma_cut_index(s: Seq<u8>, pos: int, x: Seq<u8>, m: int, i: int)
    requires
        cut_at(s, pos, x, m),
        0 <= i < m,
    ensures
        s[pos + i] == x[i],
{
    assert(s.subrange(pos, pos + m)[i] == s[pos + i]);
    assert(x.subrange(0, m)[i] == x[i]);
}

/// Every proper start of a byte string ends inside it.
pub proof fn lemma_cut_whole(x: Seq<u8>, m: int)
    requires
        0 <= m < x.len(),
    ensures
        cut_at(x.take(m), 0, x, m),
{
    assert(x.take(m).subrange(0, m) =~= x.subrange(0, m));
}

/// No argument is read from a head inside which the input ends.
pub proof fn lemma_head_cut(s: Seq<u8>, pos: int, major: Major, n: u64, m: int)
    requires
        cut_at(s, pos, head(major, n), m),
    ensures
        argument_at(s, pos) is None,
        0 <= pos < s.len() ==> s[pos] % 32 != INDEFINITE,
{
    let h = head(major, n);
    if m > 0 {
        lemma_cut_index(s, pos, h, m, 0);
        if n < 24 {
        } else if n < 0x100 {
            lemma_first_byte(major, 24);
        } else if n < 0x1_0000 {
            lemma_first_byte(major, 25);
        } else if n < 0x1_0000_0000 {
            lemma_first_byte(major, 26);
        } else {
            lemma_first_byte(major, 27);
        }
    }
}

/// No unsigned integer is read from one inside which the input ends.
pub proof fn lemma_uint_cut(s: Seq<u8>, pos: int, n: u64, max: u64, m: int)
    requires
        cut_at(s, pos, head(Major::Unsigned, n), m),
    ensures
        uint_at(s, pos, max) is None,
{
    lemma_head_cut(s, pos, Major::Unsigned, n, m);
}

/// No array or map is opened by a head inside which the input ends.
pub proof fn lemma_container_cut(s: Seq<u8>, pos: int, major: Major, n: u64, m: int)
    requires
        cut_at(s, pos, head(major, n), m),
    ensures
        container_at(s, pos, major) is None,
{
    lemma_head_cut(s, pos, major, n, m);
}

/// No truth value is read where the input ends.
pub proof fn lemma_bool_cut(s: Seq<u8>, pos: int, b: bool, m: int)
    requires
        cut_at(s, pos, bool_bytes(b), m),
    ensures
        bool_at(s, pos) is None,
{
}

/// No text is read from one inside which the input ends.
pub proof fn lemma_text_cut(s: Seq<u8>, pos: int, text: Seq<char>, m: int)
    requires
        cut_at(s, pos, text_bytes(text), m),
        encode_utf8(text).len() <= u64::MAX,
    ensures
        text_at(s, pos) is None,
{
    let raw = encode_utf8(text);
    let opening = head(Major::Text, raw.len() as u64);
    lemma_cut_split(s, pos, opening, raw, m);
    if m < opening.len() {
        lemma_head_cut(s, pos, Major::Text, raw.len() as u64, m);
    } else {
        lemma_head_round_trip(s, pos, Major::Text, raw.len() as u64);
    }
}

// Byte strings

/// No byte string is read from elements inside which the input ends.
pub proof fn lemma_bytes_cut(s: Seq<u8>, pos: int, data: Seq<u8>, acc: Seq<u8>, m: int)
    requires
        cut_at(s, pos, byte_items(data), m),
        data.len() <= u64::MAX,
    ensures
        bytes_from(s, pos, Some(data.len() as u64), acc) is None,
    decreases data.len(),
{
    if data.len() > 0 {
        let rest = data.drop_first();
        let first = head(Major::Unsigned, data[0] as u64);
        lemma_byte_items_front(data);
        lemma_cut_split(s, pos, first, byte_items(rest), m);
        assert(ends_at(s, pos, Some(data.len() as u64)) is None);
        if m < first.len() {
            lemma_uint_cut(s, pos, data[0] as u64, 0xff, m);
        } else {
            lemma_uint_round_trip(s, pos, data[0] as u64, 0xff);
            lemma_bytes_cut(s, pos + first.len(), rest, acc.push(data[0]), m - first.len());
            assert(fewer(Some(data.len() as u64)) == Some(rest.len() as u64));
        }
    }
}

/// No byte string is read from one inside which the input ends.
pub proof fn lemma_byte_list_cut(s: Seq<u8>, pos: int, data: Seq<u8>, m: int)
    requires
        cut_at(s, pos, byte_list_bytes(data), m),
        data.len() <= u64::MAX,
    ensures
        byte_list_at(s, pos) is None,
        0 <= pos < s.len() ==> major_at(s, pos, Major::Array),
{
    let opening = head(Major::Array, data.len() as u64);
    lemma_cut_split(s, pos, opening, byte_items(data), m);
    if m < opening.len() {
        lemma_container_cut(s, pos, Major::Array, data.len() as u64, m);
        if m > 0 {
            lemma_cut_index(s, pos, opening, m, 0);
            if data.len() < 24 {
                lemma_first_byte(Major::Array, data.len() as int);
            } else if data.len() < 0x100 {
                lemma_first_byte(Major::Array, 24);
            } else if data.len() < 0x1_0000 {
                lemma_first_byte(Major::Array, 25);
            } else if data.len() < 0x1_0000_0000 {
                lemma_first_byte(Major::Array, 26);
            } else {
                lemma_first_byte(Major::Array, 27);
            }
        }
    } else {
        lemma_head_round_trip(s, pos, Major::Array, data.len() as u64);
        lemma_bytes_cut(s, pos + opening.len(), data, Seq::empty(), m - opening.len());
    }
}

// Lists of byte strings

/// No list of byte strings is read from elements inside which the input
/// ends.
pub proof fn lemma_rows_cut(
    s: Seq<u8>,
    pos: int,
    list: Seq<Seq<u8>>,
    acc: Seq<Seq<u8>>,
    m: int,
)
    requires
        cut_at(s, pos, row_items(list), m),
        rows_fit(list),
    ensures
        rows_from(s, pos, Some(list.len() as u64), acc) is None,
    decreases list.len(),
{
    if list.len() > 0 {
        let rest = list.drop_first();
        let first = byte_list_bytes(list[0]);
        lemma_row_items_front(list);
        lemma_cut_split(s, pos, first, row_items(rest), m);
        assert(ends_at(s, pos, Some(list.len() as u64)) is None);
        if m < first.len() {
            lemma_byte_list_cut(s, pos, list[0], m);
        } else {
            lemma_byte_list_round_trip(s, pos, list[0]);
            assert(rows_fit(rest)) by {
                assert forall|i: int| 0 <= i < rest.len() implies (#[trigger] rest[i]).len()
                    <= u64::MAX by {
                    assert(rest[i] == list[i + 1]);
                }
            }
            lemma_rows_cut(s, pos + first.len(), rest, acc.push(list[0]), m - first.len());
            assert(fewer(Some(list.len() as u64)) == Some(rest.len() as u64));
        }
    }
}

/// No list of byte strings is read from one inside which the input ends.
pub proof fn lemma_bundle_cut(s: Seq<u8>, pos: int, list: Seq<Seq<u8>>, m: int)
    requires
        cut_at(s, pos, bundle_bytes(list), m),
        rows_fit(list),
    ensures
        bundle_at(s, pos) is None,
{
    let opening = head(Major::Array, list.len() as u64);
    lemma_cut_split(s, pos, opening, row_items(list), m);
    if m < opening.len() {
        lemma_container_cut(s, pos, Major::Array, list.len() as u64, m);
    } else {
        lemma_head_round_trip(s, pos, Major::Array, list.len() as u64);
        lemma_rows_cut(s, pos + opening.len(), list, Seq::empty(), m - opening.len());
    }
}

// The register map

/// No register map is read from entries inside which the input ends.
pub proof fn lemma_entries_cut(
    s: Seq<u8>,
    pos: int,
    map: Map<usize, Seq<u8>>,
    lo: int,
    acc: Map<usize, Seq<u8>>,
    m: int,
)
    requires
        0 <= lo <= usize::MAX + 1,
        registers_fit(map),
        cut_at(s, pos, entries_between(map, lo, usize::MAX + 1), m),
        count_between(map, lo, usize::MAX + 1) <= u64::MAX,
    ensures
        entries_from(s, pos, Some(count_between(map, lo, usize::MAX + 1) as u64), acc) is None,
    decreases usize::MAX + 1 - lo,
{
    let top = usize::MAX + 1;
    if lo < top {
        lemma_entries_front(map, lo, top);
        let k = lo as usize;
        if map.contains_key(k) {
            let key = head(Major::Unsigned, lo as u64);
            let row = byte_list_bytes(map[k]);
            let rest = entries_between(map, lo + 1, top);
            let count = count_between(map, lo, top) as u64;
            assert(ends_at(s, pos, Some(count)) is None);
            assert((key + row).len() == key.len() + row.len());
            lemma_cut_split(s, pos, key + row, rest, m);
            if m < key.len() + row.len() {
                lemma_cut_split(s, pos, key, row, m);
                if m < key.len() {
                    lemma_uint_cut(s, pos, lo as u64, usize::MAX as u64, m);
                } else {
                    lemma_uint_round_trip(s, pos, lo as u64, usize::MAX as u64);
                    lemma_byte_list_cut(s, pos + key.len(), map[k], m - key.len());
                }
            } else {
                lemma_occurs_split(s, pos, key, row);
                lemma_uint_round_trip(s, pos, lo as u64, usize::MAX as u64);
                lemma_byte_list_round_trip(s, pos + key.len(), map[k]);
                lemma_entries_cut(
                    s,
                    pos + key.len() + row.len(),
                    map,
                    lo + 1,
                    acc.insert(k, map[k]),
                    m - key.len() - row.len(),
                );
                assert(fewer(Some(count)) == Some(count_between(map, lo + 1, top) as u64));
            }
        } else {
            assert(entries_between(map, lo, top) =~= entries_between(map, lo + 1, top));
            lemma_entries_cut(s, pos, map, lo + 1, acc, m);
        }
    }
}

/// No register map is read from one inside which the input ends.
pub proof fn lemma_registers_cut(s: Seq<u8>, pos: int, map: Map<usize, Seq<u8>>, m: int)
    requires
        cut_at(s, pos, registers_bytes(map), m),
        registers_fit(map),
    ensures
        registers_at(s, pos) is None,
{
    let top = usize::MAX + 1;
    let opening = head(Major::Table, map.len() as u64);
    lemma_entries_from_zero(map, top);
    lemma_count_keys(map, top);
    assert(keys_below(map, top) =~= map.dom());
    lemma_cut_split(s, pos, opening, entries_below(map, top), m);
    if m < opening.len() {
        lemma_container_cut(s, pos, Major::Table, map.len() as u64, m);
    } else {
        lemma_head_round_trip(s, pos, Major::Table, map.len() as u64);
        lemma_entries_cut(s, pos + opening.len(), map, 0, Map::empty(), m - opening.len());
    }
}

// Sets of register indices

/// No set of register indices is read from members inside which the input
/// ends.
pub proof fn lemma_members_cut(
    s: Seq<u8>,
    pos: int,
    set: Set<u16>,
    lo: int,
    acc: Set<u16>,
    m: int,
)
    requires
        0 <= lo <= 0x1_0000,
        cut_at(s, pos, indices_between(set, lo, 0x1_0000), m),
    ensures
        indices_from(s, pos, Some(members_between(set, lo, 0x1_0000) as u64), acc) is None,
    decreases 0x1_0000 - lo,
{
    let top = 0x1_0000;
    if lo < top {
        lemma_indices_front(set, lo, top);
        let k = lo as u16;
        if set.contains(k) {
            let key = head(Major::Unsigned, lo as u64);
            let rest = indices_between(set, lo + 1, top);
            let count = members_between(set, lo, top) as u64;
            assert(ends_at(s, pos, Some(count)) is None);
            lemma_cut_split(s, pos, key, rest, m);
            if m < key.len() {
                lemma_uint_cut(s, pos, lo as u64, 0xffff, m);
            } else {
                lemma_uint_round_trip(s, pos, lo as u64, 0xffff);
                lemma_members_cut(s, pos + key.len(), set, lo + 1, acc.insert(k), m - key.len());
                assert(fewer(Some(count)) == Some(members_between(set, lo + 1, top) as u64)) by {
                    if lo + 1 < top {
                        lemma_indices_front(set, lo + 1, top);
                    }
                }
            }
        } else {
            assert(indices_between(set, lo, top) =~= indices_between(set, lo + 1, top));
            lemma_members_cut(s, pos, set, lo + 1, acc, m);
        }
    }
}

/// No set of register indices is read from one inside which the input
/// ends.
pub proof fn lemma_indices_cut(s: Seq<u8>, pos: int, set: Set<u16>, m: int)
    requires
        cut_at(s, pos, indices_bytes(set), m),
        set.finite(),
    ensures
        indices_at(s, pos) is None,
{
    let top = 0x1_0000;
    let opening = head(Major::Array, set.len() as u64);
    lemma_indices_from_zero(set, top);
    lemma_count_members(set, top);
    lemma_indices_front(set, 0, top);
    assert(members_below(set, top) =~= set);
    lemma_cut_split(s, pos, opening, indices_below(set, top), m);
    if m < opening.len() {
        lemma_container_cut(s, pos, Major::Array, set.len() as u64, m);
    } else {
        lemma_head_round_trip(s, pos, Major::Array, set.len() as u64);
        lemma_members_cut(s, pos + opening.len(), set, 0, Set::empty(), m - opening.len());
    }
}

// Variants and fields

/// No variant is opened by an opening inside which the input ends.
pub proof fn lemma_variant_cut(s: Seq<u8>, pos: int, tag: u64, last: u64, m: int)
    requires
        cut_at(s, pos, variant_bytes(tag), m),
    ensures
        variant_at(s, pos, last) is None,
{
    assert(seq![PAIR] =~= head(Major::Array, 2));
    lemma_cut_split(s, pos, head(Major::Array, 2), head(Major::Unsigned, tag), m);
    if m < 1 {
        lemma_container_cut(s, pos, Major::Array, 2, m);
    } else {
        lemma_container_round_trip(s, pos, Major::Array, 2);
        lemma_uint_cut(s, pos + 1, tag, last, m - 1);
    }
}

/// No variant without fields is read from one inside which the input
/// ends.
pub proof fn lemma_plain_cut(s: Seq<u8>, pos: int, tag: u64, last: u64, m: int)
    requires
        cut_at(s, pos, plain_bytes(tag), m),
        tag <= last,
    ensures
        plain_at(s, pos, last) is None,
{
    lemma_cut_split(s, pos, variant_bytes(tag), seq![EMPTY_ARRAY], m);
    if m < variant_bytes(tag).len() {
        lemma_variant_cut(s, pos, tag, last, m);
    } else {
        lemma_variant_round_trip(s, pos, tag, last);
        assert(plain_end(s, pos + variant_bytes(tag).len()) is None);
    }
}

/// No field is read from one inside which the input ends.
pub proof fn lemma_slot_cut(s: Seq<u8>, pos: int, slot: Slot, m: int)
    requires
        cut_at(s, pos, slot_bytes(slot), m),
        slot_fits(slot),
    ensures
        slot_at(slot.kind(), s, pos) is None,
{
    match slot {
        Slot::Index(n) => {
            lemma_uint_cut(s, pos, n as u64, 0xffff, m);
        },
        Slot::Word(n) => {
            lemma_uint_cut(s, pos, n, u64::MAX, m);
        },
        Slot::Flag(b) => {
            lemma_bool_cut(s, pos, b, m);
        },
        Slot::Text(text) => {
            lemma_text_cut(s, pos, text, m);
        },
        Slot::Bytes(data) => {
            lemma_byte_list_cut(s, pos, data, m);
        },
        Slot::OptionalBytes(data) => match data {
            Some(data) => {
                lemma_byte_list_cut(s, pos, data, m);
                assert(!null_at(s, pos));
            },
            None => {
                assert(!null_at(s, pos));
                assert(container_at(s, pos, Major::Array) is None);
            },
        },
        Slot::Digest(digest) => {
            lemma_plain_cut(s, pos, digest_tag(digest), 2, m);
        },
        Slot::Code(code) => {
            lemma_plain_cut(s, pos, code_tag(code), 8, m);
        },
        Slot::Bundle(list) => {
            lemma_bundle_cut(s, pos, list, m);
        },
        Slot::Indices(set) => {
            lemma_indices_cut(s, pos, set, m);
        },
        Slot::Registers(map) => {
            lemma_registers_cut(s, pos, map, m);
        },
    }
}

// Records

/// No record is read from fields inside which the input ends.
pub proof fn lemma_slots_cut(
    kinds: Seq<Kind>,
    s: Seq<u8>,
    pos: int,
    slots: Seq<Slot>,
    i: int,
    n: int,
    acc: Seq<Option<Slot>>,
    m: int,
)
    requires
        record_fits(kinds, slots),
        0 <= i <= n <= slots.len(),
        cut_at(s, pos, slot_items(slots.subrange(i, n)), m),
    ensures
        slots_from(kinds, s, pos, i, Some((n - i) as u64), acc) is None,
    decreases n - i,
{
    let rest = slots.subrange(i, n);
    if i < n {
        let first = slot_bytes(slots[i]);
        lemma_slot_items_front(rest);
        assert(rest[0] == slots[i]);
        assert(rest.drop_first() =~= slots.subrange(i + 1, n));
        lemma_cut_split(s, pos, first, slot_items(slots.subrange(i + 1, n)), m);
        assert(ends_at(s, pos, Some((n - i) as u64)) is None);
        if m < first.len() {
            lemma_slot_cut(s, pos, slots[i], m);
        } else {
            lemma_slot_round_trip(s, pos, slots[i]);
            lemma_slots_cut(
                kinds,
                s,
                pos + first.len(),
                slots,
                i + 1,
                n,
                acc.update(i, Some(slots[i])),
                m - first.len(),
            );
            assert(fewer(Some((n - i) as u64)) == Some((n - i - 1) as u64));
        }
    } else {
        assert(rest =~= Seq::<Slot>::empty());
    }
}

/// No record is read from one inside which the input ends.
pub proof fn lemma_record_cut(kinds: Seq<Kind>, s: Seq<u8>, pos: int, slots: Seq<Slot>, m: int)
    requires
        record_fits(kinds, slots),
        cut_at(s, pos, record_bytes(slots), m),
    ensures
        record_at(kinds, s, pos) is None,
{
    let n = used(slots) as int;
    lemma_used_tail(slots);
    let opening = head(Major::Array, n as u64);
    assert(slots.take(n) =~= slots.subrange(0, n));
    lemma_cut_split(s, pos, opening, slot_items(slots.subrange(0, n)), m);
    if m < opening.len() {
        lemma_container_cut(s, pos, Major::Array, n as u64, m);
    } else {
        lemma_container_round_trip(s, pos, Major::Array, n as u64);
        lemma_slots_cut(
            kinds,
            s,
            pos + opening.len(),
            slots,
            0,
            n,
            crate::schema::blank(kinds),
            m - opening.len(),
        );
    }
}

// Requests, responses and attestation documents

/// No request is read from an encoding that ends before its last byte.
pub proof fn lemma_request_cut_short(request: Request, k: int)
    requires
        0 <= k < request_bytes(request@).len(),
    ensures
        request_at(request_bytes(request@).take(k), 0) is None,
{
    let s = request_bytes(request@).take(k);
    let tag = request_tag(request@);
    let slots = request_slots(request@);
    lemma_request_fits(request);
    lemma_cut_whole(request_bytes(request@), k);
    lemma_cut_split(s, 0, variant_bytes(tag), record_bytes(slots), k);
    let mid = variant_bytes(tag).len() as int;
    if k < mid {
        lemma_variant_cut(s, 0, tag, 6, k);
    } else {
        lemma_variant_round_trip(s, 0, tag, 6);
        match request_kinds(tag) {
            Some(kinds) => {
                assert(record_fits(kinds, slots));
                lemma_record_cut(kinds, s, mid, slots, k - mid);
            },
            None => {
                assert(slots =~= Seq::<Slot>::empty());
                lemma_empty_record();
                assert(plain_end(s, mid) is None);
            },
        }
    }
}

/// An answer that ends before its last byte is an internal error.
pub proof fn lemma_response_cut_short(response: Response, k: int)
    requires
        response matches Response::DescribeNSM { module_id, .. } ==> text_fits(module_id@),
        0 <= k < response_bytes(response@).len(),
    ensures
        response_at(response_bytes(response@).take(k), 0) is None,
        response_in(response_bytes(response@).take(k)) == ResponseView::Error(
            ErrorCode::InternalError,
        ),
{
    let s = response_bytes(response@).take(k);
    let tag = response_tag(response@);
    let slots = response_slots(response@);
    lemma_response_fits(response);
    lemma_cut_whole(response_bytes(response@), k);
    lemma_cut_split(s, 0, variant_bytes(tag), record_bytes(slots), k);
    let mid = variant_bytes(tag).len() as int;
    if k < mid {
        lemma_variant_cut(s, 0, tag, 7, k);
    } else {
        lemma_variant_round_trip(s, 0, tag, 7);
        match response_kinds(tag) {
            Some(kinds) => {
                assert(record_fits(kinds, slots));
                lemma_record_cut(kinds, s, mid, slots, k - mid);
            },
            None => {
                assert(slots =~= Seq::<Slot>::empty());
                lemma_empty_record();
                assert(plain_end(s, mid) is None);
            },
        }
    }
}

/// An answer with anything behind it is an internal error.
pub proof fn lemma_response_followed(response: Response, more: Seq<u8>)
    requires
        response matches Response::DescribeNSM { module_id, .. } ==> text_fits(module_id@),
        more.len() > 0,
    ensures
        response_in(response_bytes(response@) + more) == ResponseView::Error(
            ErrorCode::InternalError,
        ),
{
    let written = response_bytes(response@);
    let s = written + more;
    lemma_response_fits(response);
    assert(s.subrange(0, written.len() as int) =~= written);
    lemma_response_found(s, 0, response@);
}

/// No attestation document is read from an encoding that ends before its
/// last byte.
pub proof fn lemma_document_cut_short(doc: AttestationDoc, k: int)
    requires
        text_fits(doc.module_id@),
        0 <= k < document_bytes(doc@).len(),
    ensures
        document_at(document_bytes(doc@).take(k), 0) is None,
{
    let slots = document_slots(doc@);
    lemma_document_fits(doc);
    lemma_cut_whole(document_bytes(doc@), k);
    assert(record_fits(document_kinds(), slots));
    lemma_record_cut(document_kinds(), document_bytes(doc@).take(k), 0, slots, k);
}

} // verus!
