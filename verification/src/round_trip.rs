//! What is written is read back: for every value of the schema, reading
//! its encoding gives the value again, wherever the encoding stands and
//! whatever follows it.

use crate::cbor::{
    argument_at, bool_at, bool_bytes, container_at, head, major_at, text_at, text_bytes, uint_at,
    Major, INDEFINITE,
};
use crate::api::{AttestationDoc, AttestationDocView, Request, RequestView, Response, ResponseView};
use crate::cbor::{null_at, NULL};
use crate::codec::{
    document_at, document_bytes, document_kinds, document_of, document_slots, request_at,
    request_bytes, request_kinds, request_of, request_slots, request_tag, response_at,
    response_bytes, response_kinds, response_of, response_slots, response_tag,
};
use crate::driver::response_in;
use crate::lists::{registers, rows};
use crate::lists::{
    bundle_at, bundle_bytes, byte_items, byte_list_at, byte_list_bytes, bytes_from, entries_below,
    entries_from, ends_at, fewer, indices_at, indices_below, indices_bytes, indices_from,
    registers_at, registers_bytes, row_items, rows_from,
};
use crate::schema::{
    blank, code_tag, digest_tag, plain_at, plain_bytes, plain_end, record_at, record_bytes, slot_at,
    slot_bytes, slot_items, slots_from, used, variant_at, variant_bytes, Kind, Slot, EMPTY_ARRAY,
    PAIR,
};
use vstd::prelude::*;
use vstd::seq_lib::seq_to_set_is_finite;
use vstd::set_lib::lemma_set_subset_finite;
use vstd::std_specs::btree::spec_btree_keys_iter;
use vstd::std_specs::iter::IteratorSpec;
use vstd::utf8::{decode_utf8, encode_utf8, valid_utf8};

verus! {

/// Whether the bytes `x` stand in `s` from `pos` on.
pub open spec fn occurs_at(s: Seq<u8>, pos: int, x: Seq<u8>) -> bool {
    0 <= pos && pos + x.len() <= s.len() && s.subrange(pos, pos + x.len()) == x
}

/// Where two byte strings stand one behind the other, each of them stands
/// in its place.
pub proof fn lemma_occurs_split(s: Seq<u8>, pos: int, a: Seq<u8>, b: Seq<u8>)
    requires
        occurs_at(s, pos, a + b),
    ensures
        occurs_at(s, pos, a),
        occurs_at(s, pos + a.len(), b),
{
    let whole = s.subrange(pos, pos + (a + b).len());
    assert(s.subrange(pos, pos + a.len()) =~= whole.subrange(0, a.len() as int));
    assert(s.subrange(pos + a.len(), pos + a.len() + b.len()) =~= whole.subrange(
        a.len() as int,
        (a + b).len() as int,
    ));
    assert((a + b).subrange(0, a.len() as int) =~= a);
    assert((a + b).subrange(a.len() as int, (a + b).len() as int) =~= b);
}

/// Every byte string stands at its own start.
pub proof fn lemma_occurs_whole(x: Seq<u8>)
    ensures
        occurs_at(x, 0, x),
{
    assert(x.subrange(0, x.len() as int) =~= x);
}

/// A byte of a string that stands in `s` is the byte of `s` in its place.
pub proof fn lemma_occurs_index(s: Seq<u8>, pos: int, x: Seq<u8>, i: int)
    requires
        occurs_at(s, pos, x),
        0 <= i < x.len(),
    ensures
        s[pos + i] == x[i],
{
    assert(s.subrange(pos, pos + x.len())[i] == s[pos + i]);
}

/// The four bytes of a number below 2^32 give the number back.
proof fn lemma_four_bytes(n: u64)
    requires
        n < 0x1_0000_0000,
    ensures
        n / 0x100_0000 < 0x100,
        (n / 0x100_0000) * 0x100_0000 + (n / 0x1_0000 % 0x100) * 0x1_0000 + (n / 0x100 % 0x100)
            * 0x100 + n % 0x100 == n,
{
    assert(n / 0x100_0000 < 0x100) by (bit_vector)
        requires
            n < 0x1_0000_0000,
    ;
    assert((n / 0x100_0000) * 0x100_0000 + (n / 0x1_0000 % 0x100) * 0x1_0000 + (n / 0x100
        % 0x100) * 0x100 + n % 0x100 == n) by (bit_vector)
        requires
            n < 0x1_0000_0000,
    ;
}

/// The eight bytes of a number give the number back.
proof fn lemma_eight_bytes(n: u64)
    ensures
        n / 0x100_0000_0000_0000 < 0x100,
        (n / 0x100_0000_0000_0000) * 0x100_0000_0000_0000 + (n / 0x1_0000_0000_0000 % 0x100)
            * 0x1_0000_0000_0000 + (n / 0x100_0000_0000 % 0x100) * 0x100_0000_0000 + (n
            / 0x1_0000_0000 % 0x100) * 0x1_0000_0000 + (n / 0x100_0000 % 0x100) * 0x100_0000 + (n
            / 0x1_0000 % 0x100) * 0x1_0000 + (n / 0x100 % 0x100) * 0x100 + n % 0x100 == n,
{
    assert(n / 0x100_0000_0000_0000 < 0x100) by (bit_vector);
    assert((n / 0x100_0000_0000_0000) * 0x100_0000_0000_0000 + (n / 0x1_0000_0000_0000 % 0x100)
        * 0x1_0000_0000_0000 + (n / 0x100_0000_0000 % 0x100) * 0x100_0000_0000 + (n
        / 0x1_0000_0000 % 0x100) * 0x1_0000_0000 + (n / 0x100_0000 % 0x100) * 0x100_0000 + (n
        / 0x1_0000 % 0x100) * 0x1_0000 + (n / 0x100 % 0x100) * 0x100 + n % 0x100 == n)
        by (bit_vector);
}

/// The first byte of a head holds its major type and, below it, the
/// additional information `info`.
pub proof fn lemma_first_byte(major: Major, info: int)
    requires
        0 <= info < 28,
    ensures
        0 <= major.bits() + info < 0x100,
        (major.bits() + info) % 32 == info,
        (major.bits() + info) - (major.bits() + info) % 32 == major.bits(),
{
}

/// A head that was written is read back with its major type and argument.
pub proof fn lemma_head_round_trip(s: Seq<u8>, pos: int, major: Major, n: u64)
    requires
        occurs_at(s, pos, head(major, n)),
    ensures
        head(major, n).len() >= 1,
        major_at(s, pos, major),
        s[pos] % 32 != INDEFINITE,
        argument_at(s, pos) == Some((n, pos + head(major, n).len())),
{
    let h = head(major, n);
    lemma_occurs_index(s, pos, h, 0);
    if n < 24 {
        lemma_first_byte(major, n as int);
    } else if n < 0x100 {
        lemma_first_byte(major, 24);
        lemma_occurs_index(s, pos, h, 1);
    } else if n < 0x1_0000 {
        lemma_first_byte(major, 25);
        lemma_occurs_index(s, pos, h, 1);
        lemma_occurs_index(s, pos, h, 2);
    } else if n < 0x1_0000_0000 {
        lemma_first_byte(major, 26);
        lemma_four_bytes(n);
        lemma_occurs_index(s, pos, h, 1);
        lemma_occurs_index(s, pos, h, 2);
        lemma_occurs_index(s, pos, h, 3);
        lemma_occurs_index(s, pos, h, 4);
    } else {
        lemma_first_byte(major, 27);
        lemma_eight_bytes(n);
        lemma_occurs_index(s, pos, h, 1);
        lemma_occurs_index(s, pos, h, 2);
        lemma_occurs_index(s, pos, h, 3);
        lemma_occurs_index(s, pos, h, 4);
        lemma_occurs_index(s, pos, h, 5);
        lemma_occurs_index(s, pos, h, 6);
        lemma_occurs_index(s, pos, h, 7);
        lemma_occurs_index(s, pos, h, 8);
    }
}

/// An unsigned integer that was written is read back, under every limit
/// that it keeps.
pub proof fn lemma_uint_round_trip(s: Seq<u8>, pos: int, n: u64, max: u64)
    requires
        occurs_at(s, pos, head(Major::Unsigned, n)),
        n <= max,
    ensures
        uint_at(s, pos, max) == Some((n, pos + head(Major::Unsigned, n).len())),
{
    lemma_head_round_trip(s, pos, Major::Unsigned, n);
}

/// The head of an array or a map that was written is read back as one of
/// definite length.
pub proof fn lemma_container_round_trip(s: Seq<u8>, pos: int, major: Major, n: u64)
    requires
        occurs_at(s, pos, head(major, n)),
    ensures
        container_at(s, pos, major) == Some((Some(n), pos + head(major, n).len())),
{
    lemma_head_round_trip(s, pos, major, n);
}

/// A truth value that was written is read back.
pub proof fn lemma_bool_round_trip(s: Seq<u8>, pos: int, b: bool)
    requires
        occurs_at(s, pos, bool_bytes(b)),
    ensures
        bool_at(s, pos) == Some((b, pos + bool_bytes(b).len())),
{
    lemma_occurs_index(s, pos, bool_bytes(b), 0);
}

/// A text that was written is read back.
pub proof fn lemma_text_round_trip(s: Seq<u8>, pos: int, text: Seq<char>)
    requires
        occurs_at(s, pos, text_bytes(text)),
        encode_utf8(text).len() <= u64::MAX,
    ensures
        text_at(s, pos) == Some((text, pos + text_bytes(text).len())),
{
    broadcast use {vstd::utf8::encode_utf8_valid_utf8, vstd::utf8::encode_utf8_decode_utf8};

    let raw = encode_utf8(text);
    let h = head(Major::Text, raw.len() as u64);
    lemma_occurs_split(s, pos, h, raw);
    lemma_head_round_trip(s, pos, Major::Text, raw.len() as u64);
    let start = pos + h.len();
    assert(s.subrange(start, start + raw.len()) == raw);
    assert(valid_utf8(raw));
    assert(decode_utf8(raw) == text);
}

// Byte strings

/// The elements of a byte string begin with its first byte.
pub proof fn lemma_byte_items_front(data: Seq<u8>)
    requires
        data.len() > 0,
    ensures
        byte_items(data) == head(Major::Unsigned, data[0] as u64) + byte_items(
            data.drop_first(),
        ),
    decreases data.len(),
{
    let first = head(Major::Unsigned, data[0] as u64);
    if data.len() == 1 {
        assert(data.drop_last() =~= Seq::<u8>::empty());
        assert(data.drop_first() =~= Seq::<u8>::empty());
        assert(byte_items(data) =~= first + byte_items(data.drop_first()));
    } else {
        let last = head(Major::Unsigned, data.last() as u64);
        lemma_byte_items_front(data.drop_last());
        assert(data.drop_last().drop_first() =~= data.drop_first().drop_last());
        assert(data.drop_first().last() == data.last());
        assert(byte_items(data) =~= first + (byte_items(data.drop_first().drop_last()) + last));
    }
}

/// The elements of a byte string that were written are read back behind
/// what was read before.
proof fn lemma_bytes_from(s: Seq<u8>, pos: int, data: Seq<u8>, acc: Seq<u8>)
    requires
        occurs_at(s, pos, byte_items(data)),
        data.len() <= u64::MAX,
    ensures
        bytes_from(s, pos, Some(data.len() as u64), acc) == Some(
            (acc + data, pos + byte_items(data).len()),
        ),
    decreases data.len(),
{
    if data.len() == 0 {
        assert(acc + data =~= acc);
    } else {
        let rest = data.drop_first();
        let first = head(Major::Unsigned, data[0] as u64);
        lemma_byte_items_front(data);
        lemma_occurs_split(s, pos, first, byte_items(rest));
        lemma_uint_round_trip(s, pos, data[0] as u64, 0xff);
        lemma_bytes_from(s, pos + first.len(), rest, acc.push(data[0]));
        assert(acc.push(data[0]) + rest =~= acc + data);
        assert(fewer(Some(data.len() as u64)) == Some(rest.len() as u64));
        assert(ends_at(s, pos, Some(data.len() as u64)) is None);
    }
}

/// A byte string that was written is read back.
pub proof fn lemma_byte_list_round_trip(s: Seq<u8>, pos: int, data: Seq<u8>)
    requires
        occurs_at(s, pos, byte_list_bytes(data)),
        data.len() <= u64::MAX,
    ensures
        byte_list_at(s, pos) == Some((data, pos + byte_list_bytes(data).len())),
        byte_list_bytes(data).len() >= 1,
        major_at(s, pos, Major::Array),
{
    let opening = head(Major::Array, data.len() as u64);
    lemma_occurs_split(s, pos, opening, byte_items(data));
    lemma_head_round_trip(s, pos, Major::Array, data.len() as u64);
    lemma_bytes_from(s, pos + opening.len(), data, Seq::empty());
    assert(Seq::<u8>::empty() + data =~= data);
}

// Lists of byte strings

/// Whether every byte string of a list has a length that can be written.
pub open spec fn rows_fit(list: Seq<Seq<u8>>) -> bool {
    list.len() <= u64::MAX && forall|i: int| 0 <= i < list.len() ==> (#[trigger] list[i]).len()
        <= u64::MAX
}

/// The elements of a list of byte strings begin with its first.
pub proof fn lemma_row_items_front(list: Seq<Seq<u8>>)
    requires
        list.len() > 0,
    ensures
        row_items(list) == byte_list_bytes(list[0]) + row_items(list.drop_first()),
    decreases list.len(),
{
    let first = byte_list_bytes(list[0]);
    if list.len() == 1 {
        assert(list.drop_last() =~= Seq::<Seq<u8>>::empty());
        assert(list.drop_first() =~= Seq::<Seq<u8>>::empty());
        assert(row_items(list) =~= first + row_items(list.drop_first()));
    } else {
        let last = byte_list_bytes(list.last());
        lemma_row_items_front(list.drop_last());
        assert(list.drop_last().drop_first() =~= list.drop_first().drop_last());
        assert(list.drop_first().last() == list.last());
        assert(row_items(list) =~= first + (row_items(list.drop_first().drop_last()) + last));
    }
}

/// The byte strings of a list that were written are read back behind what
/// was read before.
proof fn lemma_rows_from(s: Seq<u8>, pos: int, list: Seq<Seq<u8>>, acc: Seq<Seq<u8>>)
    requires
        occurs_at(s, pos, row_items(list)),
        rows_fit(list),
    ensures
        rows_from(s, pos, Some(list.len() as u64), acc) == Some(
            (acc + list, pos + row_items(list).len()),
        ),
    decreases list.len(),
{
    if list.len() == 0 {
        assert(acc + list =~= acc);
    } else {
        let rest = list.drop_first();
        let first = byte_list_bytes(list[0]);
        lemma_row_items_front(list);
        lemma_occurs_split(s, pos, first, row_items(rest));
        lemma_byte_list_round_trip(s, pos, list[0]);
        assert(rows_fit(rest)) by {
            assert forall|i: int| 0 <= i < rest.len() implies (#[trigger] rest[i]).len()
                <= u64::MAX by {
                assert(rest[i] == list[i + 1]);
            }
        }
        lemma_rows_from(s, pos + first.len(), rest, acc.push(list[0]));
        assert(acc.push(list[0]) + rest =~= acc + list);
        assert(fewer(Some(list.len() as u64)) == Some(rest.len() as u64));
        assert(ends_at(s, pos, Some(list.len() as u64)) is None);
    }
}

/// A list of byte strings that was written is read back.
pub proof fn lemma_bundle_round_trip(s: Seq<u8>, pos: int, list: Seq<Seq<u8>>)
    requires
        occurs_at(s, pos, bundle_bytes(list)),
        rows_fit(list),
    ensures
        bundle_at(s, pos) == Some((list, pos + bundle_bytes(list).len())),
{
    let opening = head(Major::Array, list.len() as u64);
    lemma_occurs_split(s, pos, opening, row_items(list));
    lemma_head_round_trip(s, pos, Major::Array, list.len() as u64);
    lemma_rows_from(s, pos + opening.len(), list, Seq::empty());
    assert(Seq::<Seq<u8>>::empty() + list =~= list);
}

// The register map

/// Whether a register map is one that can be written: it has finitely many
/// entries, and their number and the length of each of its byte strings
/// can be written.
pub open spec fn registers_fit(map: Map<usize, Seq<u8>>) -> bool {
    &&& map.dom().finite()
    &&& map.len() <= u64::MAX
    &&& forall|k: usize| map.contains_key(k) ==> (#[trigger] map[k]).len() <= u64::MAX
}

/// The entries of `map` whose keys are at least `lo` and below `hi`, in
/// ascending order of their keys.
pub open spec fn entries_between(map: Map<usize, Seq<u8>>, lo: int, hi: int) -> Seq<u8>
    decreases hi - lo,
{
    if hi <= lo {
        Seq::empty()
    } else if map.contains_key((hi - 1) as usize) {
        entries_between(map, lo, hi - 1) + head(Major::Unsigned, (hi - 1) as u64)
            + byte_list_bytes(map[(hi - 1) as usize])
    } else {
        entries_between(map, lo, hi - 1)
    }
}

/// The number of keys of `map` that are at least `lo` and below `hi`.
pub open spec fn count_between(map: Map<usize, Seq<u8>>, lo: int, hi: int) -> nat
    decreases hi - lo,
{
    if hi <= lo {
        0
    } else if map.contains_key((hi - 1) as usize) {
        count_between(map, lo, hi - 1) + 1
    } else {
        count_between(map, lo, hi - 1)
    }
}

/// The keys of `map` below `hi`.
pub open spec fn keys_below(map: Map<usize, Seq<u8>>, hi: int) -> Set<usize> {
    Set::new(|k: usize| map.contains_key(k) && k < hi)
}

/// The entries from zero on are the entries below a bound.
pub proof fn lemma_entries_from_zero(map: Map<usize, Seq<u8>>, hi: int)
    requires
        0 <= hi <= usize::MAX + 1,
    ensures
        entries_between(map, 0, hi) == entries_below(map, hi),
    decreases hi,
{
    if hi > 0 {
        lemma_entries_from_zero(map, hi - 1);
    }
}

/// The entries of a range begin with the entry of its least key, where
/// there is one.
pub proof fn lemma_entries_front(map: Map<usize, Seq<u8>>, lo: int, hi: int)
    requires
        0 <= lo < hi <= usize::MAX + 1,
    ensures
        entries_between(map, lo, hi) == (if map.contains_key(lo as usize) {
            head(Major::Unsigned, lo as u64) + byte_list_bytes(map[lo as usize])
        } else {
            Seq::empty()
        }) + entries_between(map, lo + 1, hi),
        count_between(map, lo, hi) == (if map.contains_key(lo as usize) {
            1nat
        } else {
            0nat
        }) + count_between(map, lo + 1, hi),
    decreases hi - lo,
{
    let first = if map.contains_key(lo as usize) {
        head(Major::Unsigned, lo as u64) + byte_list_bytes(map[lo as usize])
    } else {
        Seq::empty()
    };
    if hi == lo + 1 {
        assert(entries_between(map, lo, lo) =~= Seq::<u8>::empty());
        assert(entries_between(map, lo + 1, hi) =~= Seq::<u8>::empty());
        assert(entries_between(map, lo, hi) =~= first + entries_between(map, lo + 1, hi));
        assert(count_between(map, lo, lo) == 0);
        assert(count_between(map, lo + 1, hi) == 0);
    } else {
        lemma_entries_front(map, lo, hi - 1);
        if map.contains_key((hi - 1) as usize) {
            let last = head(Major::Unsigned, (hi - 1) as u64) + byte_list_bytes(
                map[(hi - 1) as usize],
            );
            assert(entries_between(map, lo, hi) =~= entries_between(map, lo, hi - 1) + last);
            assert(entries_between(map, lo + 1, hi) =~= entries_between(map, lo + 1, hi - 1)
                + last);
            assert(entries_between(map, lo, hi) =~= first + entries_between(map, lo + 1, hi));
            assert(count_between(map, lo, hi) == count_between(map, lo, hi - 1) + 1);
            assert(count_between(map, lo + 1, hi) == count_between(map, lo + 1, hi - 1) + 1);
        } else {
            assert(entries_between(map, lo, hi) == entries_between(map, lo, hi - 1));
            assert(entries_between(map, lo + 1, hi) == entries_between(map, lo + 1, hi - 1));
            assert(count_between(map, lo, hi) == count_between(map, lo, hi - 1));
            assert(count_between(map, lo + 1, hi) == count_between(map, lo + 1, hi - 1));
        }
    }
}

/// The keys below a bound are as many as are counted.
pub proof fn lemma_count_keys(map: Map<usize, Seq<u8>>, hi: int)
    requires
        0 <= hi <= usize::MAX + 1,
        map.dom().finite(),
    ensures
        keys_below(map, hi).finite(),
        count_between(map, 0, hi) == keys_below(map, hi).len(),
    decreases hi,
{
    lemma_set_subset_finite(map.dom(), keys_below(map, hi));
    if hi == 0 {
        assert(keys_below(map, hi) =~= Set::<usize>::empty());
    } else {
        lemma_count_keys(map, hi - 1);
        let k = (hi - 1) as usize;
        if map.contains_key(k) {
            assert(keys_below(map, hi) =~= keys_below(map, hi - 1).insert(k));
        } else {
            assert(keys_below(map, hi) =~= keys_below(map, hi - 1));
        }
    }
}

/// The entries of a register map that were written are read back into the
/// entries read before.
proof fn lemma_entries_from(
    s: Seq<u8>,
    pos: int,
    map: Map<usize, Seq<u8>>,
    lo: int,
    acc: Map<usize, Seq<u8>>,
)
    requires
        0 <= lo <= usize::MAX + 1,
        registers_fit(map),
        occurs_at(s, pos, entries_between(map, lo, usize::MAX + 1)),
        count_between(map, lo, usize::MAX + 1) <= u64::MAX,
        acc.dom() == keys_below(map, lo),
        forall|k: usize| acc.contains_key(k) ==> acc[k] == map[k],
    ensures
        entries_from(s, pos, Some(count_between(map, lo, usize::MAX + 1) as u64), acc) == Some(
            (map, pos + entries_between(map, lo, usize::MAX + 1).len()),
        ),
    decreases usize::MAX + 1 - lo,
{
    let top = usize::MAX + 1;
    if lo == top {
        assert(acc =~= map);
    } else {
        lemma_entries_front(map, lo, top);
        let k = lo as usize;
        if map.contains_key(k) {
            let key = head(Major::Unsigned, lo as u64);
            let row = byte_list_bytes(map[k]);
            let rest = entries_between(map, lo + 1, top);
            lemma_occurs_split(s, pos, key + row, rest);
            lemma_occurs_split(s, pos, key, row);
            lemma_uint_round_trip(s, pos, lo as u64, usize::MAX as u64);
            lemma_byte_list_round_trip(s, pos + key.len(), map[k]);
            let more = acc.insert(k, map[k]);
            assert(more.dom() =~= keys_below(map, lo + 1));
            lemma_entries_from(s, pos + key.len() + row.len(), map, lo + 1, more);
            let count = count_between(map, lo, top) as u64;
            assert(fewer(Some(count)) == Some(count_between(map, lo + 1, top) as u64));
            assert(ends_at(s, pos, Some(count)) is None);
            assert((key + row).len() == key.len() + row.len());
        } else {
            assert(acc.dom() =~= keys_below(map, lo + 1));
            assert(entries_between(map, lo, top) =~= entries_between(map, lo + 1, top));
            lemma_entries_from(s, pos, map, lo + 1, acc);
        }
    }
}

/// A register map that was written is read back.
pub proof fn lemma_registers_round_trip(s: Seq<u8>, pos: int, map: Map<usize, Seq<u8>>)
    requires
        occurs_at(s, pos, registers_bytes(map)),
        registers_fit(map),
    ensures
        registers_at(s, pos) == Some((map, pos + registers_bytes(map).len())),
{
    let top = usize::MAX + 1;
    let opening = head(Major::Table, map.len() as u64);
    lemma_entries_from_zero(map, top);
    lemma_count_keys(map, top);
    assert(keys_below(map, top) =~= map.dom());
    lemma_occurs_split(s, pos, opening, entries_below(map, top));
    lemma_head_round_trip(s, pos, Major::Table, map.len() as u64);
    let acc = Map::<usize, Seq<u8>>::empty();
    assert(acc.dom() =~= keys_below(map, 0));
    lemma_entries_from(s, pos + opening.len(), map, 0, acc);
}

// Sets of register indices

/// The members of `set` that are at least `lo` and below `hi`, in
/// ascending order.
pub open spec fn indices_between(set: Set<u16>, lo: int, hi: int) -> Seq<u8>
    decreases hi - lo,
{
    if hi <= lo {
        Seq::empty()
    } else if set.contains((hi - 1) as u16) {
        indices_between(set, lo, hi - 1) + head(Major::Unsigned, (hi - 1) as u64)
    } else {
        indices_between(set, lo, hi - 1)
    }
}

/// The number of members of `set` that are at least `lo` and below `hi`.
pub open spec fn members_between(set: Set<u16>, lo: int, hi: int) -> nat
    decreases hi - lo,
{
    if hi <= lo {
        0
    } else if set.contains((hi - 1) as u16) {
        members_between(set, lo, hi - 1) + 1
    } else {
        members_between(set, lo, hi - 1)
    }
}

/// The members of `set` below `hi`.
pub open spec fn members_below(set: Set<u16>, hi: int) -> Set<u16> {
    Set::new(|k: u16| set.contains(k) && k < hi)
}

/// The members from zero on are the members below a bound.
pub proof fn lemma_indices_from_zero(set: Set<u16>, hi: int)
    requires
        0 <= hi <= 0x1_0000,
    ensures
        indices_between(set, 0, hi) == indices_below(set, hi),
    decreases hi,
{
    if hi > 0 {
        lemma_indices_from_zero(set, hi - 1);
    }
}

/// The members of a range begin with its least, where that is a member,
/// and are no more than the range is wide.
pub proof fn lemma_indices_front(set: Set<u16>, lo: int, hi: int)
    requires
        0 <= lo < hi <= 0x1_0000,
    ensures
        indices_between(set, lo, hi) == (if set.contains(lo as u16) {
            head(Major::Unsigned, lo as u64)
        } else {
            Seq::empty()
        }) + indices_between(set, lo + 1, hi),
        members_between(set, lo, hi) == (if set.contains(lo as u16) {
            1nat
        } else {
            0nat
        }) + members_between(set, lo + 1, hi),
        members_between(set, lo, hi) <= hi - lo,
    decreases hi - lo,
{
    let first = if set.contains(lo as u16) {
        head(Major::Unsigned, lo as u64)
    } else {
        Seq::empty()
    };
    if hi == lo + 1 {
        assert(indices_between(set, lo, lo) =~= Seq::<u8>::empty());
        assert(indices_between(set, lo + 1, hi) =~= Seq::<u8>::empty());
        assert(indices_between(set, lo, hi) =~= first + indices_between(set, lo + 1, hi));
        assert(members_between(set, lo, lo) == 0);
        assert(members_between(set, lo + 1, hi) == 0);
    } else {
        lemma_indices_front(set, lo, hi - 1);
        if set.contains((hi - 1) as u16) {
            let last = head(Major::Unsigned, (hi - 1) as u64);
            assert(indices_between(set, lo, hi) =~= indices_between(set, lo, hi - 1) + last);
            assert(indices_between(set, lo + 1, hi) =~= indices_between(set, lo + 1, hi - 1)
                + last);
            assert(indices_between(set, lo, hi) =~= first + indices_between(set, lo + 1, hi));
            assert(members_between(set, lo, hi) == members_between(set, lo, hi - 1) + 1);
            assert(members_between(set, lo + 1, hi) == members_between(set, lo + 1, hi - 1)
                + 1);
        } else {
            assert(indices_between(set, lo, hi) == indices_between(set, lo, hi - 1));
            assert(indices_between(set, lo + 1, hi) == indices_between(set, lo + 1, hi - 1));
            assert(members_between(set, lo, hi) == members_between(set, lo, hi - 1));
            assert(members_between(set, lo + 1, hi) == members_between(set, lo + 1, hi - 1));
        }
    }
}

/// The members below a bound are as many as are counted.
pub proof fn lemma_count_members(set: Set<u16>, hi: int)
    requires
        0 <= hi <= 0x1_0000,
        set.finite(),
    ensures
        members_below(set, hi).finite(),
        members_between(set, 0, hi) == members_below(set, hi).len(),
    decreases hi,
{
    lemma_set_subset_finite(set, members_below(set, hi));
    if hi == 0 {
        assert(members_below(set, hi) =~= Set::<u16>::empty());
    } else {
        lemma_count_members(set, hi - 1);
        let k = (hi - 1) as u16;
        if set.contains(k) {
            assert(members_below(set, hi) =~= members_below(set, hi - 1).insert(k));
        } else {
            assert(members_below(set, hi) =~= members_below(set, hi - 1));
        }
    }
}

/// The members of a set that were written are read back into the members
/// read before.
proof fn lemma_indices_from(s: Seq<u8>, pos: int, set: Set<u16>, lo: int, acc: Set<u16>)
    requires
        0 <= lo <= 0x1_0000,
        occurs_at(s, pos, indices_between(set, lo, 0x1_0000)),
        acc == members_below(set, lo),
    ensures
        indices_from(s, pos, Some(members_between(set, lo, 0x1_0000) as u64), acc) == Some(
            (set, pos + indices_between(set, lo, 0x1_0000).len()),
        ),
    decreases 0x1_0000 - lo,
{
    let top = 0x1_0000;
    if lo == top {
        assert(acc =~= set);
    } else {
        lemma_indices_front(set, lo, top);
        let k = lo as u16;
        if set.contains(k) {
            let key = head(Major::Unsigned, lo as u64);
            let rest = indices_between(set, lo + 1, top);
            lemma_occurs_split(s, pos, key, rest);
            lemma_uint_round_trip(s, pos, lo as u64, 0xffff);
            let more = acc.insert(k);
            assert(more =~= members_below(set, lo + 1));
            lemma_indices_from(s, pos + key.len(), set, lo + 1, more);
            let count = members_between(set, lo, top) as u64;
            assert(fewer(Some(count)) == Some(members_between(set, lo + 1, top) as u64)) by {
                if lo + 1 < top {
                    lemma_indices_front(set, lo + 1, top);
                }
            }
            assert(ends_at(s, pos, Some(count)) is None);
        } else {
            assert(acc =~= members_below(set, lo + 1));
            assert(indices_between(set, lo, top) =~= indices_between(set, lo + 1, top));
            lemma_indices_from(s, pos, set, lo + 1, acc);
        }
    }
}

/// A set of register indices that was written is read back.
pub proof fn lemma_indices_round_trip(s: Seq<u8>, pos: int, set: Set<u16>)
    requires
        occurs_at(s, pos, indices_bytes(set)),
        set.finite(),
    ensures
        indices_at(s, pos) == Some((set, pos + indices_bytes(set).len())),
{
    let top = 0x1_0000;
    let opening = head(Major::Array, set.len() as u64);
    lemma_indices_from_zero(set, top);
    lemma_count_members(set, top);
    lemma_indices_front(set, 0, top);
    assert(members_below(set, top) =~= set);
    lemma_occurs_split(s, pos, opening, indices_below(set, top));
    lemma_head_round_trip(s, pos, Major::Array, set.len() as u64);
    let acc = Set::<u16>::empty();
    assert(acc =~= members_below(set, 0));
    lemma_indices_from(s, pos + opening.len(), set, 0, acc);
}

// Variants and fields

/// The opening of an enumeration's value that was written is read back.
pub proof fn lemma_variant_round_trip(s: Seq<u8>, pos: int, tag: u64, last: u64)
    requires
        occurs_at(s, pos, variant_bytes(tag)),
        tag <= last,
    ensures
        variant_at(s, pos, last) == Some((tag, pos + variant_bytes(tag).len())),
{
    assert(seq![PAIR] =~= head(Major::Array, 2));
    lemma_occurs_split(s, pos, head(Major::Array, 2), head(Major::Unsigned, tag));
    lemma_container_round_trip(s, pos, Major::Array, 2);
    lemma_uint_round_trip(s, pos + 1, tag, last);
}

/// A variant of an enumeration without fields that was written is read
/// back.
pub proof fn lemma_plain_round_trip(s: Seq<u8>, pos: int, tag: u64, last: u64)
    requires
        occurs_at(s, pos, plain_bytes(tag)),
        tag <= last,
    ensures
        plain_at(s, pos, last) == Some((tag, pos + plain_bytes(tag).len())),
{
    lemma_occurs_split(s, pos, variant_bytes(tag), seq![EMPTY_ARRAY]);
    lemma_variant_round_trip(s, pos, tag, last);
    lemma_occurs_index(s, pos + variant_bytes(tag).len(), seq![EMPTY_ARRAY], 0);
}

/// Whether a field is one that can be written: every length in it can be
/// written, and a set or a map in it is finite.
pub open spec fn slot_fits(slot: Slot) -> bool {
    match slot {
        Slot::Text(text) => encode_utf8(text).len() <= u64::MAX,
        Slot::Bytes(data) => data.len() <= u64::MAX,
        Slot::OptionalBytes(data) => match data {
            Some(data) => data.len() <= u64::MAX,
            None => true,
        },
        Slot::Bundle(list) => rows_fit(list),
        Slot::Indices(set) => set.finite(),
        Slot::Registers(map) => registers_fit(map),
        _ => true,
    }
}

/// A field that was written is read back as a field of its type.
pub proof fn lemma_slot_round_trip(s: Seq<u8>, pos: int, slot: Slot)
    requires
        occurs_at(s, pos, slot_bytes(slot)),
        slot_fits(slot),
    ensures
        slot_at(slot.kind(), s, pos) == Some((slot, pos + slot_bytes(slot).len())),
        slot_bytes(slot).len() >= 1,
{
    match slot {
        Slot::Index(n) => {
            lemma_uint_round_trip(s, pos, n as u64, 0xffff);
            lemma_head_round_trip(s, pos, Major::Unsigned, n as u64);
        },
        Slot::Word(n) => {
            lemma_uint_round_trip(s, pos, n, u64::MAX);
            lemma_head_round_trip(s, pos, Major::Unsigned, n);
        },
        Slot::Flag(b) => {
            lemma_bool_round_trip(s, pos, b);
        },
        Slot::Text(text) => {
            lemma_text_round_trip(s, pos, text);
            lemma_occurs_split(
                s,
                pos,
                head(Major::Text, encode_utf8(text).len() as u64),
                encode_utf8(text),
            );
            lemma_head_round_trip(s, pos, Major::Text, encode_utf8(text).len() as u64);
        },
        Slot::Bytes(data) => {
            lemma_byte_list_round_trip(s, pos, data);
        },
        Slot::OptionalBytes(data) => match data {
            Some(data) => {
                lemma_byte_list_round_trip(s, pos, data);
                assert(!null_at(s, pos));
            },
            None => {
                lemma_occurs_index(s, pos, seq![NULL], 0);
            },
        },
        Slot::Digest(digest) => {
            lemma_plain_round_trip(s, pos, digest_tag(digest), 2);
        },
        Slot::Code(code) => {
            lemma_plain_round_trip(s, pos, code_tag(code), 8);
        },
        Slot::Bundle(list) => {
            lemma_bundle_round_trip(s, pos, list);
            lemma_occurs_split(s, pos, head(Major::Array, list.len() as u64), row_items(list));
            lemma_head_round_trip(s, pos, Major::Array, list.len() as u64);
        },
        Slot::Indices(set) => {
            lemma_indices_round_trip(s, pos, set);
            lemma_occurs_split(
                s,
                pos,
                head(Major::Array, set.len() as u64),
                indices_below(set, 0x1_0000),
            );
            lemma_head_round_trip(s, pos, Major::Array, set.len() as u64);
        },
        Slot::Registers(map) => {
            lemma_registers_round_trip(s, pos, map);
            lemma_occurs_split(
                s,
                pos,
                head(Major::Table, map.len() as u64),
                entries_below(map, usize::MAX + 1),
            );
            lemma_head_round_trip(s, pos, Major::Table, map.len() as u64);
        },
    }
}

// Records

/// Whether the fields `slots` are fields of the types `kinds`, each of
/// them one that can be written.
pub open spec fn record_fits(kinds: Seq<Kind>, slots: Seq<Slot>) -> bool {
    &&& slots.len() == kinds.len()
    &&& slots.len() <= u64::MAX
    &&& forall|j: int|
        0 <= j < slots.len() ==> (#[trigger] slots[j]).kind() == kinds[j] && slot_fits(slots[j])
}

/// The fields of a record that holds every one of `slots`.
pub open spec fn present(slots: Seq<Slot>) -> Seq<Option<Slot>> {
    Seq::new(slots.len(), |j: int| Some(slots[j]))
}

/// The fields that are not written are optional fields without a value.
pub proof fn lemma_used_tail(slots: Seq<Slot>)
    ensures
        used(slots) <= slots.len(),
        forall|j: int| used(slots) <= j < slots.len() ==> (#[trigger] slots[j]).is_absent(),
    decreases slots.len(),
{
    if slots.len() > 0 && slots.last().is_absent() {
        lemma_used_tail(slots.drop_last());
        assert forall|j: int| used(slots) <= j < slots.len() implies (#[trigger] slots[j]).is_absent() by {
            if j < slots.len() - 1 {
                assert(slots.drop_last()[j] == slots[j]);
            }
        }
    }
}

/// The encodings of fields begin with the first field's.
pub proof fn lemma_slot_items_front(slots: Seq<Slot>)
    requires
        slots.len() > 0,
    ensures
        slot_items(slots) == slot_bytes(slots[0]) + slot_items(slots.drop_first()),
    decreases slots.len(),
{
    let first = slot_bytes(slots[0]);
    if slots.len() == 1 {
        assert(slots.drop_last() =~= Seq::<Slot>::empty());
        assert(slots.drop_first() =~= Seq::<Slot>::empty());
        assert(slot_items(slots) =~= first + slot_items(slots.drop_first()));
    } else {
        let last = slot_bytes(slots.last());
        lemma_slot_items_front(slots.drop_last());
        assert(slots.drop_last().drop_first() =~= slots.drop_first().drop_last());
        assert(slots.drop_first().last() == slots.last());
        assert(slot_items(slots) =~= first + (slot_items(slots.drop_first().drop_last())
            + last));
    }
}

/// The fields read into a record of which the first `n` were written.
pub open spec fn filled(kinds: Seq<Kind>, slots: Seq<Slot>, n: int) -> Seq<Option<Slot>> {
    Seq::new(
        slots.len(),
        |j: int|
            if j < n {
                Some(slots[j])
            } else {
                blank(kinds)[j]
            },
    )
}

/// The fields of a record that were written are read back into their
/// places.
proof fn lemma_slots_from(
    kinds: Seq<Kind>,
    s: Seq<u8>,
    pos: int,
    slots: Seq<Slot>,
    i: int,
    n: int,
)
    requires
        record_fits(kinds, slots),
        0 <= i <= n <= slots.len(),
        occurs_at(s, pos, slot_items(slots.subrange(i, n))),
    ensures
        slots_from(kinds, s, pos, i, Some((n - i) as u64), filled(kinds, slots, i)) == Some(
            (filled(kinds, slots, n), pos + slot_items(slots.subrange(i, n)).len()),
        ),
    decreases n - i,
{
    let rest = slots.subrange(i, n);
    if i < n {
        let first = slot_bytes(slots[i]);
        lemma_slot_items_front(rest);
        assert(rest[0] == slots[i]);
        assert(rest.drop_first() =~= slots.subrange(i + 1, n));
        lemma_occurs_split(s, pos, first, slot_items(slots.subrange(i + 1, n)));
        lemma_slot_round_trip(s, pos, slots[i]);
        assert(filled(kinds, slots, i).update(i, Some(slots[i])) =~= filled(
            kinds,
            slots,
            i + 1,
        ));
        lemma_slots_from(kinds, s, pos + first.len(), slots, i + 1, n);
        assert(fewer(Some((n - i) as u64)) == Some((n - i - 1) as u64));
        assert(ends_at(s, pos, Some((n - i) as u64)) is None);
    } else {
        assert(rest =~= Seq::<Slot>::empty());
    }
}

/// A record that was written is read back with every field in its place.
pub proof fn lemma_record_round_trip(kinds: Seq<Kind>, s: Seq<u8>, pos: int, slots: Seq<Slot>)
    requires
        record_fits(kinds, slots),
        occurs_at(s, pos, record_bytes(slots)),
    ensures
        record_at(kinds, s, pos) == Some((present(slots), pos + record_bytes(slots).len())),
{
    let n = used(slots) as int;
    lemma_used_tail(slots);
    let opening = head(Major::Array, n as u64);
    assert(slots.take(n) =~= slots.subrange(0, n));
    lemma_occurs_split(s, pos, opening, slot_items(slots.subrange(0, n)));
    lemma_container_round_trip(s, pos, Major::Array, n as u64);
    lemma_slots_from(kinds, s, pos + opening.len(), slots, 0, n);
    assert(filled(kinds, slots, 0) =~= blank(kinds));
    assert(filled(kinds, slots, n) =~= present(slots)) by {
        assert forall|j: int| 0 <= j < slots.len() implies filled(kinds, slots, n)[j]
            == present(slots)[j] by {
            if j >= n {
                assert(slots[j].is_absent());
                assert(slots[j].kind() == kinds[j]);
            }
        }
    }
}

// Requests, responses and attestation documents

/// Whether each of the fields `slots` is one that can be written.
pub open spec fn slots_fit(slots: Seq<Slot>) -> bool {
    slots.len() <= u64::MAX && forall|j: int|
        0 <= j < slots.len() ==> slot_fits(#[trigger] slots[j])
}

/// Whether a text has a UTF-8 form of a length that a text in memory can
/// have.
pub open spec fn text_fits(text: Seq<char>) -> bool {
    encode_utf8(text).len() <= usize::MAX
}

/// A record without fields is an empty array.
pub proof fn lemma_empty_record()
    ensures
        record_bytes(Seq::<Slot>::empty()) == seq![EMPTY_ARRAY],
{
    let none = Seq::<Slot>::empty();
    assert(used(none) == 0);
    assert(none.take(0) =~= none);
    assert(record_bytes(none) =~= seq![EMPTY_ARRAY]);
}

/// The encoding of a request holds the request, wherever it stands and
/// whatever follows it.
pub proof fn lemma_request_found(s: Seq<u8>, pos: int, request: RequestView)
    requires
        occurs_at(s, pos, request_bytes(request)),
        slots_fit(request_slots(request)),
    ensures
        request_at(s, pos) == Some((request, pos + request_bytes(request).len())),
{
    let tag = request_tag(request);
    let slots = request_slots(request);
    lemma_occurs_split(s, pos, variant_bytes(tag), record_bytes(slots));
    lemma_variant_round_trip(s, pos, tag, 6);
    let mid = pos + variant_bytes(tag).len();
    match request_kinds(tag) {
        Some(kinds) => {
            assert(record_fits(kinds, slots));
            lemma_record_round_trip(kinds, s, mid, slots);
            assert(request_of(tag, present(slots)) == Some(request));
        },
        None => {
            assert(slots =~= Seq::<Slot>::empty());
            lemma_empty_record();
            lemma_occurs_index(s, mid, seq![EMPTY_ARRAY], 0);
            assert(plain_end(s, mid) == Some(mid + 1));
        },
    }
}

/// Every request in memory is one that can be written.
pub proof fn lemma_request_fits(request: Request)
    ensures
        slots_fit(request_slots(request@)),
{
    let slots = request_slots(request@);
    match request {
        Request::ExtendPCR { index, data } => {
            assert(data.len() == data@.len());
        },
        Request::Attestation { user_data, nonce, public_key } => {
            if let Some(data) = user_data {
                assert(data.len() == data@.len());
            }
            if let Some(data) = nonce {
                assert(data.len() == data@.len());
            }
            if let Some(data) = public_key {
                assert(data.len() == data@.len());
            }
        },
        _ => {},
    }
}

/// Reading the encoding of a request gives the request, and with it the
/// same encoding again.
pub proof fn lemma_request_round_trip(request: Request)
    ensures
        request_at(request_bytes(request@), 0) == Some(
            (request@, request_bytes(request@).len() as int),
        ),
{
    lemma_request_fits(request);
    lemma_occurs_whole(request_bytes(request@));
    lemma_request_found(request_bytes(request@), 0, request@);
}

/// The encoding of a response holds the response, wherever it stands and
/// whatever follows it.
pub proof fn lemma_response_found(s: Seq<u8>, pos: int, response: ResponseView)
    requires
        occurs_at(s, pos, response_bytes(response)),
        slots_fit(response_slots(response)),
    ensures
        response_at(s, pos) == Some((response, pos + response_bytes(response).len())),
{
    let tag = response_tag(response);
    let slots = response_slots(response);
    lemma_occurs_split(s, pos, variant_bytes(tag), record_bytes(slots));
    lemma_variant_round_trip(s, pos, tag, 7);
    let mid = pos + variant_bytes(tag).len();
    match response_kinds(tag) {
        Some(kinds) => {
            assert(record_fits(kinds, slots));
            lemma_record_round_trip(kinds, s, mid, slots);
            assert(response_of(tag, present(slots)) == Some(response));
        },
        None => {
            assert(slots =~= Seq::<Slot>::empty());
            lemma_empty_record();
            lemma_occurs_index(s, mid, seq![EMPTY_ARRAY], 0);
            assert(plain_end(s, mid) == Some(mid + 1));
        },
    }
}

/// Every response in memory is one that can be written.
pub proof fn lemma_response_fits(response: Response)
    requires
        response matches Response::DescribeNSM { module_id, .. } ==> text_fits(module_id@),
    ensures
        slots_fit(response_slots(response@)),
{
    broadcast use vstd::std_specs::btree::group_btree_axioms;

    match response {
        Response::DescribePCR { lock, data } => {
            assert(data.len() == data@.len());
        },
        Response::ExtendPCR { data } => {
            assert(data.len() == data@.len());
        },
        Response::Attestation { document } => {
            assert(document.len() == document@.len());
        },
        Response::GetRandom { random } => {
            assert(random.len() == random@.len());
        },
        Response::DescribeNSM { locked_pcrs, .. } => {
            let walk = spec_btree_keys_iter(&locked_pcrs).remaining();
            assert(walk.unref().to_set() == locked_pcrs@);
            seq_to_set_is_finite(walk.unref());
        },
        _ => {},
    }
}

/// Reading the encoding of a response gives the response, and with it the
/// same encoding again.
pub proof fn lemma_response_round_trip(response: Response)
    requires
        response matches Response::DescribeNSM { module_id, .. } ==> text_fits(module_id@),
    ensures
        response_at(response_bytes(response@), 0) == Some(
            (response@, response_bytes(response@).len() as int),
        ),
{
    lemma_response_fits(response);
    lemma_occurs_whole(response_bytes(response@));
    lemma_response_found(response_bytes(response@), 0, response@);
}

/// The encoding of an attestation document holds the document, wherever
/// it stands and whatever follows it.
pub proof fn lemma_document_found(s: Seq<u8>, pos: int, doc: AttestationDocView)
    requires
        occurs_at(s, pos, document_bytes(doc)),
        slots_fit(document_slots(doc)),
    ensures
        document_at(s, pos) == Some((doc, pos + document_bytes(doc).len())),
{
    let slots = document_slots(doc);
    assert(record_fits(document_kinds(), slots));
    lemma_record_round_trip(document_kinds(), s, pos, slots);
    assert(document_of(present(slots)) == Some(doc));
}

/// Every attestation document in memory is one that can be written.
pub proof fn lemma_document_fits(doc: AttestationDoc)
    requires
        text_fits(doc.module_id@),
    ensures
        slots_fit(document_slots(doc@)),
{
    broadcast use vstd::std_specs::btree::group_btree_axioms;

    let map = registers(doc.pcrs@);
    assert(map.dom() =~= doc.pcrs@.dom());
    assert(doc.pcrs.len() == doc.pcrs@.len());
    assert forall|k: usize| map.contains_key(k) implies (#[trigger] map[k]).len()
        <= u64::MAX by {
        assert(doc.pcrs@[k].len() == doc.pcrs@[k]@.len());
    }
    assert(registers_fit(map));
    let list = rows(doc.cabundle@);
    assert(doc.cabundle.len() == doc.cabundle@.len());
    assert forall|i: int| 0 <= i < list.len() implies (#[trigger] list[i]).len()
        <= u64::MAX by {
        assert(doc.cabundle@[i].len() == doc.cabundle@[i]@.len());
    }
    assert(rows_fit(list));
    assert(doc.certificate.len() == doc.certificate@.len());
    if let Some(data) = doc.public_key {
        assert(data.len() == data@.len());
    }
    if let Some(data) = doc.user_data {
        assert(data.len() == data@.len());
    }
    if let Some(data) = doc.nonce {
        assert(data.len() == data@.len());
    }
}

/// Reading the encoding of an attestation document gives the document,
/// and with it the same encoding again.
pub proof fn lemma_document_round_trip(doc: AttestationDoc)
    requires
        text_fits(doc.module_id@),
    ensures
        document_at(document_bytes(doc@), 0) == Some(
            (doc@, document_bytes(doc@).len() as int),
        ),
        document_at(document_bytes(doc@), 0) matches Some((found, _)) && document_bytes(found)
            == document_bytes(doc@),
{
    lemma_document_fits(doc);
    lemma_occurs_whole(document_bytes(doc@));
    lemma_document_found(document_bytes(doc@), 0, doc@);
}

/// An answer that the device wrote in full, and nothing behind it, is the
/// answer that the caller gets.
pub proof fn lemma_response_handed_on(response: Response)
    requires
        response matches Response::DescribeNSM { module_id, .. } ==> text_fits(module_id@),
    ensures
        response_in(response_bytes(response@)) == response@,
{
    lemma_response_round_trip(response);
}

} // verus!
