//! The collections of the schema on the wire: byte strings as arrays of
//! small integers, lists of byte strings, sets of register indices and the
//! register map.

use crate::cbor::{
    break_at, byte_is, container_at, head, read_container, read_uint, uint_at, write_head,
    write_uint, Major, BREAK,
};
use std::collections::BTreeMap;
use std::collections::BTreeSet;
use vstd::prelude::*;
use vstd::std_specs::btree::{increasing_seq, spec_btree_keys_iter, spec_btree_map_iter};
use vstd::std_specs::cmp::OrdSpec;
use vstd::std_specs::iter::IteratorSpec;

verus! {

broadcast use {vstd::std_specs::btree::group_btree_axioms, vstd::laws_cmp::group_laws_cmp};

/// The number of elements still to come once one more has been read: one
/// fewer of a known count, and still unknown for a collection of
/// indefinite length.
pub open spec fn fewer(left: Option<u64>) -> Option<u64> {
    match left {
        Some(n) => Some(
            if n > 0 {
                (n - 1) as u64
            } else {
                0
            },
        ),
        None => None,
    }
}

/// The executable form of [`fewer`].
pub fn one_fewer(left: Option<u64>) -> (r: Option<u64>)
    ensures
        r == fewer(left),
{
    match left {
        Some(n) => Some(
            if n > 0 {
                n - 1
            } else {
                0
            },
        ),
        None => None,
    }
}

/// Whether a collection with `left` elements to come ends at `pos`, and
/// where the input goes on behind it.
pub open spec fn ends_at(s: Seq<u8>, pos: int, left: Option<u64>) -> Option<int> {
    if left == Some(0u64) {
        Some(pos)
    } else if left is None && break_at(s, pos) {
        Some(pos + 1)
    } else {
        None
    }
}

/// The executable form of [`ends_at`].
pub fn read_end(bytes: &[u8], pos: usize, left: Option<u64>) -> (r: Option<usize>)
    ensures
        match r {
            Some(end) => ends_at(bytes@, pos as int, left) == Some(end as int) && pos <= end && (
            end == pos || end <= bytes.len()),
            None => ends_at(bytes@, pos as int, left) is None && left != Some(0u64),
        },
{
    match left {
        Some(n) => if n == 0 {
            Some(pos)
        } else {
            None
        },
        None => if byte_is(bytes, pos, BREAK) {
            Some(pos + 1)
        } else {
            None
        },
    }
}

// Byte strings

/// The elements of a byte string, each as an unsigned integer.
pub open spec fn byte_items(data: Seq<u8>) -> Seq<u8>
    decreases data.len(),
{
    if data.len() == 0 {
        Seq::empty()
    } else {
        byte_items(data.drop_last()) + head(Major::Unsigned, data.last() as u64)
    }
}

/// The encoding of a byte string: an array of its bytes.
pub open spec fn byte_list_bytes(data: Seq<u8>) -> Seq<u8> {
    head(Major::Array, data.len() as u64) + byte_items(data)
}

/// The bytes read from `pos` on, behind the `acc` read before, until the
/// array ends.
pub open spec fn bytes_from(s: Seq<u8>, pos: int, left: Option<u64>, acc: Seq<u8>) -> Option<
    (Seq<u8>, int),
>
    decreases s.len() - pos,
{
    match ends_at(s, pos, left) {
        Some(end) => Some((acc, end)),
        None => match uint_at(s, pos, 0xff) {
            Some((n, next)) => if pos < next {
                bytes_from(s, next, fewer(left), acc.push(n as u8))
            } else {
                None
            },
            None => None,
        },
    }
}

/// The byte string whose array starts at `pos`.
pub open spec fn byte_list_at(s: Seq<u8>, pos: int) -> Option<(Seq<u8>, int)> {
    match container_at(s, pos, Major::Array) {
        Some((count, start)) => bytes_from(s, start, count, Seq::empty()),
        None => None,
    }
}

/// Appends a byte string.
pub fn write_byte_list(buf: &mut Vec<u8>, data: &[u8])
    ensures
        final(buf)@ == old(buf)@ + byte_list_bytes(data@),
{
    write_head(buf, Major::Array, data.len() as u64);
    let ghost before = buf@;
    let mut i: usize = 0;
    while i < data.len()
        invariant
            i <= data.len(),
            buf@ == before + byte_items(data@.take(i as int)),
        decreases data.len() - i,
    {
        write_uint(buf, data[i] as u64);
        i += 1;
        proof {
            let now = data@.take(i as int);
            assert(now.drop_last() =~= data@.take(i - 1));
            assert(buf@ =~= before + byte_items(now));
        }
    }
    proof {
        assert(data@.take(data.len() as int) =~= data@);
        assert(buf@ =~= old(buf)@ + byte_list_bytes(data@));
    }
}

/// Reads a byte string.
pub fn read_byte_list(bytes: &[u8], pos: usize) -> (r: Option<(Vec<u8>, usize)>)
    ensures
        match r {
            Some((data, end)) => byte_list_at(bytes@, pos as int) == Some((data@, end as int))
                && pos < end <= bytes.len(),
            None => byte_list_at(bytes@, pos as int) is None,
        },
{
    let (count, start) = match read_container(bytes, pos, Major::Array) {
        Some(found) => found,
        None => {
            return None;
        },
    };
    let mut data: Vec<u8> = Vec::new();
    let mut at: usize = start;
    let mut left: Option<u64> = count;
    loop
        invariant
            pos < at <= bytes.len(),
            byte_list_at(bytes@, pos as int) == bytes_from(bytes@, at as int, left, data@),
        decreases bytes.len() - at,
    {
        match read_end(bytes, at, left) {
            Some(end) => {
                return Some((data, end));
            },
            None => {},
        }
        match read_uint(bytes, at, 0xff) {
            Some((n, next)) => {
                data.push(n as u8);
                at = next;
                left = one_fewer(left);
            },
            None => {
                return None;
            },
        }
    }
}

// Lists of byte strings

/// The byte strings that a list of vectors holds.
pub open spec fn rows(list: Seq<Vec<u8>>) -> Seq<Seq<u8>> {
    Seq::new(list.len(), |i: int| list[i]@)
}

/// The elements of a list of byte strings, one behind the other.
pub open spec fn row_items(list: Seq<Seq<u8>>) -> Seq<u8>
    decreases list.len(),
{
    if list.len() == 0 {
        Seq::empty()
    } else {
        row_items(list.drop_last()) + byte_list_bytes(list.last())
    }
}

/// The encoding of a list of byte strings.
pub open spec fn bundle_bytes(list: Seq<Seq<u8>>) -> Seq<u8> {
    head(Major::Array, list.len() as u64) + row_items(list)
}

/// The byte strings read from `pos` on, behind the `acc` read before.
pub open spec fn rows_from(s: Seq<u8>, pos: int, left: Option<u64>, acc: Seq<Seq<u8>>) -> Option<
    (Seq<Seq<u8>>, int),
>
    decreases s.len() - pos,
{
    match ends_at(s, pos, left) {
        Some(end) => Some((acc, end)),
        None => match byte_list_at(s, pos) {
            Some((row, next)) => if pos < next <= s.len() {
                rows_from(s, next, fewer(left), acc.push(row))
            } else {
                None
            },
            None => None,
        },
    }
}

/// The list of byte strings whose array starts at `pos`.
pub open spec fn bundle_at(s: Seq<u8>, pos: int) -> Option<(Seq<Seq<u8>>, int)> {
    match container_at(s, pos, Major::Array) {
        Some((count, start)) => rows_from(s, start, count, Seq::empty()),
        None => None,
    }
}

/// Appends a list of byte strings.
pub fn write_bundle(buf: &mut Vec<u8>, list: &Vec<Vec<u8>>)
    ensures
        final(buf)@ == old(buf)@ + bundle_bytes(rows(list@)),
{
    write_head(buf, Major::Array, list.len() as u64);
    let ghost before = buf@;
    let mut i: usize = 0;
    while i < list.len()
        invariant
            i <= list.len(),
            buf@ == before + row_items(rows(list@).take(i as int)),
        decreases list.len() - i,
    {
        write_byte_list(buf, list[i].as_slice());
        i += 1;
        proof {
            let now = rows(list@).take(i as int);
            assert(now.drop_last() =~= rows(list@).take(i - 1));
            assert(buf@ =~= before + row_items(now));
        }
    }
    proof {
        assert(rows(list@).take(list.len() as int) =~= rows(list@));
        assert(buf@ =~= old(buf)@ + bundle_bytes(rows(list@)));
    }
}

/// Reads a list of byte strings.
pub fn read_bundle(bytes: &[u8], pos: usize) -> (r: Option<(Vec<Vec<u8>>, usize)>)
    ensures
        match r {
            Some((list, end)) => bundle_at(bytes@, pos as int) == Some(
                (rows(list@), end as int),
            ) && pos < end <= bytes.len(),
            None => bundle_at(bytes@, pos as int) is None,
        },
{
    let (count, start) = match read_container(bytes, pos, Major::Array) {
        Some(found) => found,
        None => {
            return None;
        },
    };
    let mut list: Vec<Vec<u8>> = Vec::new();
    let mut at: usize = start;
    let mut left: Option<u64> = count;
    proof {
        assert(rows(list@) =~= Seq::empty());
    }
    loop
        invariant
            pos < at <= bytes.len(),
            bundle_at(bytes@, pos as int) == rows_from(bytes@, at as int, left, rows(list@)),
        decreases bytes.len() - at,
    {
        match read_end(bytes, at, left) {
            Some(end) => {
                return Some((list, end));
            },
            None => {},
        }
        match read_byte_list(bytes, at) {
            Some((row, next)) => {
                proof {
                    assert(rows(list@.push(row)) =~= rows(list@).push(row@));
                }
                list.push(row);
                at = next;
                left = one_fewer(left);
            },
            None => {
                return None;
            },
        }
    }
}

// Sets of register indices

/// The members of `set` below `bound`, in ascending order, each as an
/// unsigned integer.
pub open spec fn indices_below(set: Set<u16>, bound: int) -> Seq<u8>
    decreases bound,
{
    if bound <= 0 {
        Seq::empty()
    } else if set.contains((bound - 1) as u16) {
        indices_below(set, bound - 1) + head(Major::Unsigned, (bound - 1) as u64)
    } else {
        indices_below(set, bound - 1)
    }
}

/// The encoding of a set of register indices: an array of its members in
/// ascending order.
pub open spec fn indices_bytes(set: Set<u16>) -> Seq<u8> {
    head(Major::Array, set.len() as u64) + indices_below(set, 0x1_0000)
}

/// The indices read from `pos` on, added to the `acc` read before.
pub open spec fn indices_from(s: Seq<u8>, pos: int, left: Option<u64>, acc: Set<u16>) -> Option<
    (Set<u16>, int),
>
    decreases s.len() - pos,
{
    match ends_at(s, pos, left) {
        Some(end) => Some((acc, end)),
        None => match uint_at(s, pos, 0xffff) {
            Some((n, next)) => if pos < next {
                indices_from(s, next, fewer(left), acc.insert(n as u16))
            } else {
                None
            },
            None => None,
        },
    }
}

/// The set of register indices whose array starts at `pos`.
pub open spec fn indices_at(s: Seq<u8>, pos: int) -> Option<(Set<u16>, int)> {
    match container_at(s, pos, Major::Array) {
        Some((count, start)) => indices_from(s, start, count, Set::empty()),
        None => None,
    }
}

/// Members that are absent from a range add nothing to the encoding.
pub proof fn lemma_indices_gap(set: Set<u16>, lo: int, hi: int)
    requires
        0 <= lo <= hi <= 0x1_0000,
        forall|k: u16| lo <= k < hi ==> !set.contains(k),
    ensures
        indices_below(set, hi) == indices_below(set, lo),
    decreases hi - lo,
{
    if lo < hi {
        assert(!set.contains((hi - 1) as u16));
        lemma_indices_gap(set, lo, hi - 1);
    }
}

/// A set is walked in the order of its members.
proof fn lemma_indices_in_order(walk: Seq<&u16>)
    requires
        increasing_seq(walk),
    ensures
        forall|i: int, j: int| 0 <= i < j < walk.len() ==> *walk[i] < *walk[j],
{
    broadcast use vstd::laws_cmp::lemma_ref_obeys_cmp_spec;

    assert(vstd::laws_cmp::obeys_cmp::<u16>());
    assert(vstd::laws_cmp::obeys_cmp::<&u16>());
    vstd::std_specs::btree::axiom_increasing_seq_meaning::<&u16>(walk);
    assert forall|i: int, j: int| 0 <= i < j < walk.len() implies *walk[i] < *walk[j] by {
        assert(OrdSpec::cmp_spec(&walk[i], &walk[j]) is Less);
    }
}

/// Appends a set of register indices.
pub fn write_indices(buf: &mut Vec<u8>, set: &BTreeSet<u16>)
    ensures
        final(buf)@ == old(buf)@ + indices_bytes(set@),
{
    write_head(buf, Major::Array, set.len() as u64);
    let ghost before = buf@;
    let ghost mut bound: int = 0;
    let ghost walk = spec_btree_keys_iter(set).remaining();
    proof {
        lemma_indices_in_order(walk);
    }
    for k in it: set.iter()
        invariant
            it.seq() == walk,
            walk.unref().to_set() == set@,
            forall|i: int, j: int| 0 <= i < j < walk.len() ==> *walk[i] < *walk[j],
            0 <= bound <= 0x1_0000,
            it.index() == 0 ==> bound == 0,
            it.index() > 0 ==> bound == *walk[it.index() - 1] + 1,
            buf@ == before + indices_below(set@, bound),
    {
        proof {
            let i = it.index();
            assert forall|x: u16| bound <= x < *k implies !set@.contains(x) by {
                if set@.contains(x) {
                    assert(walk.unref().contains(x));
                    let j = choose|j: int| 0 <= j < walk.unref().len() && walk.unref()[j] == x;
                    assert(*walk[j] == x);
                    if j < i {
                        assert(j == i - 1 || *walk[j] < *walk[i - 1]);
                    } else if j > i {
                        assert(*walk[i] < *walk[j]);
                    }
                }
            }
            lemma_indices_gap(set@, bound, *k as int);
            assert(walk.unref()[i] == *k);
            assert(walk.unref().contains(*k));
            assert(set@.contains(*k));
        }
        write_uint(buf, *k as u64);
        proof {
            bound = *k + 1;
            assert(buf@ =~= before + indices_below(set@, bound));
        }
    }
    proof {
        let n = walk.len() as int;
        assert forall|x: u16| bound <= x < 0x1_0000 implies !set@.contains(x) by {
            if set@.contains(x) {
                assert(walk.unref().contains(x));
                let j = choose|j: int| 0 <= j < walk.unref().len() && walk.unref()[j] == x;
                assert(*walk[j] == x);
                assert(j == n - 1 || *walk[j] < *walk[n - 1]);
            }
        }
        lemma_indices_gap(set@, bound, 0x1_0000);
        assert(buf@ =~= old(buf)@ + indices_bytes(set@));
    }
}

/// Reads a set of register indices.
pub fn read_indices(bytes: &[u8], pos: usize) -> (r: Option<(BTreeSet<u16>, usize)>)
    ensures
        match r {
            Some((set, end)) => indices_at(bytes@, pos as int) == Some((set@, end as int)) && pos
                < end <= bytes.len(),
            None => indices_at(bytes@, pos as int) is None,
        },
{
    let (count, start) = match read_container(bytes, pos, Major::Array) {
        Some(found) => found,
        None => {
            return None;
        },
    };
    let mut set: BTreeSet<u16> = BTreeSet::new();
    let mut at: usize = start;
    let mut left: Option<u64> = count;
    loop
        invariant
            pos < at <= bytes.len(),
            indices_at(bytes@, pos as int) == indices_from(bytes@, at as int, left, set@),
        decreases bytes.len() - at,
    {
        match read_end(bytes, at, left) {
            Some(end) => {
                return Some((set, end));
            },
            None => {},
        }
        match read_uint(bytes, at, 0xffff) {
            Some((n, next)) => {
                set.insert(n as u16);
                at = next;
                left = one_fewer(left);
            },
            None => {
                return None;
            },
        }
    }
}

// The register map

/// The byte strings that a map of vectors holds.
pub open spec fn registers(map: Map<usize, Vec<u8>>) -> Map<usize, Seq<u8>> {
    Map::new(|k: usize| map.contains_key(k), |k: usize| map[k]@)
}

/// The entries of `map` whose keys lie below `bound`, in ascending order
/// of their keys: each key as an unsigned integer, then its byte string.
pub open spec fn entries_below(map: Map<usize, Seq<u8>>, bound: int) -> Seq<u8>
    decreases bound,
{
    if bound <= 0 {
        Seq::empty()
    } else if map.contains_key((bound - 1) as usize) {
        entries_below(map, bound - 1) + head(Major::Unsigned, (bound - 1) as u64)
            + byte_list_bytes(map[(bound - 1) as usize])
    } else {
        entries_below(map, bound - 1)
    }
}

/// The encoding of a register map: a CBOR map of its entries in ascending
/// order of their keys.
pub open spec fn registers_bytes(map: Map<usize, Seq<u8>>) -> Seq<u8> {
    head(Major::Table, map.len() as u64) + entries_below(map, usize::MAX + 1)
}

/// The entries read from `pos` on, put into the `acc` read before; an
/// entry replaces an earlier one with its key.
pub open spec fn entries_from(
    s: Seq<u8>,
    pos: int,
    left: Option<u64>,
    acc: Map<usize, Seq<u8>>,
) -> Option<(Map<usize, Seq<u8>>, int)>
    decreases s.len() - pos,
{
    match ends_at(s, pos, left) {
        Some(end) => Some((acc, end)),
        None => match uint_at(s, pos, usize::MAX as u64) {
            Some((k, mid)) => match byte_list_at(s, mid) {
                Some((row, next)) => if pos < next <= s.len() {
                    entries_from(s, next, fewer(left), acc.insert(k as usize, row))
                } else {
                    None
                },
                None => None,
            },
            None => None,
        },
    }
}

/// The register map that starts at `pos`.
pub open spec fn registers_at(s: Seq<u8>, pos: int) -> Option<(Map<usize, Seq<u8>>, int)> {
    match container_at(s, pos, Major::Table) {
        Some((count, start)) => entries_from(s, start, count, Map::empty()),
        None => None,
    }
}

/// Keys that are absent from a range add nothing to the encoding.
pub proof fn lemma_entries_gap(map: Map<usize, Seq<u8>>, lo: int, hi: int)
    requires
        0 <= lo <= hi <= usize::MAX + 1,
        forall|k: usize| lo <= k < hi ==> !map.contains_key(k),
    ensures
        entries_below(map, hi) == entries_below(map, lo),
    decreases hi - lo,
{
    if lo < hi {
        assert(!map.contains_key((hi - 1) as usize));
        lemma_entries_gap(map, lo, hi - 1);
    }
}

/// A map is walked in the order of its keys.
proof fn lemma_keys_in_order(keys: Seq<usize>)
    requires
        increasing_seq(keys),
    ensures
        forall|i: int, j: int| 0 <= i < j < keys.len() ==> keys[i] < keys[j],
{
    assert forall|i: int, j: int| 0 <= i < j < keys.len() implies keys[i] < keys[j] by {
        assert(keys[i].cmp_spec(&keys[j]) is Less);
    }
}

/// Appends a register map.
pub fn write_registers(buf: &mut Vec<u8>, map: &BTreeMap<usize, Vec<u8>>)
    ensures
        final(buf)@ == old(buf)@ + registers_bytes(registers(map@)),
{
    write_head(buf, Major::Table, map.len() as u64);
    let ghost before = buf@;
    let ghost mut bound: int = 0;
    let ghost walk = spec_btree_map_iter(map).remaining();
    let ghost view = registers(map@);
    let entries = map.iter();
    proof {
        lemma_keys_in_order(walk.map_values(|kv: (&usize, &Vec<u8>)| *kv.0));
        assert forall|i: int, j: int| 0 <= i < j < walk.len() implies *walk[i].0 < *walk[j].0 by {
            let keys = walk.map_values(|kv: (&usize, &Vec<u8>)| *kv.0);
            assert(keys[i] < keys[j]);
        }
        assert(view.dom() =~= map@.dom());
    }
    for kv in it: entries
        invariant
            it.seq() == walk,
            walk == spec_btree_map_iter(map).remaining(),
            view == registers(map@),
            forall|i: int, j: int| 0 <= i < j < walk.len() ==> *walk[i].0 < *walk[j].0,
            0 <= bound <= usize::MAX + 1,
            it.index() == 0 ==> bound == 0,
            it.index() > 0 ==> bound == *walk[it.index() - 1].0 + 1,
            buf@ == before + entries_below(view, bound),
    {
        let (k, row) = kv;
        proof {
            let i = it.index();
            assert forall|x: usize| bound <= x < *k implies !view.contains_key(x) by {
                if map@.contains_key(x) {
                    assert(walk.contains((&x, &map@[x])));
                    let j = choose|j: int| 0 <= j < walk.len() && walk[j] == (&x, &map@[x]);
                    assert(*walk[j].0 == x);
                    if j < i {
                        assert(j == i - 1 || *walk[j].0 < *walk[i - 1].0);
                    } else if j > i {
                        assert(*walk[i].0 < *walk[j].0);
                    }
                }
            }
            lemma_entries_gap(view, bound, *k as int);
            assert(map@.contains_key(*walk[i].0) && map@[*walk[i].0] == *walk[i].1);
            assert(view.contains_key(*k) && view[*k] == row@);
        }
        write_uint(buf, *k as u64);
        write_byte_list(buf, row.as_slice());
        proof {
            bound = *k + 1;
            assert(buf@ =~= before + entries_below(view, bound));
        }
    }
    proof {
        let n = walk.len() as int;
        assert forall|x: usize| bound <= x < usize::MAX + 1 implies !view.contains_key(x) by {
            if map@.contains_key(x) {
                assert(walk.contains((&x, &map@[x])));
                let j = choose|j: int| 0 <= j < walk.len() && walk[j] == (&x, &map@[x]);
                assert(*walk[j].0 == x);
                assert(j == n - 1 || *walk[j].0 < *walk[n - 1].0);
            }
        }
        lemma_entries_gap(view, bound, usize::MAX + 1);
        assert(buf@ =~= old(buf)@ + registers_bytes(view));
    }
}

/// Reads a register map.
pub fn read_registers(bytes: &[u8], pos: usize) -> (r: Option<(BTreeMap<usize, Vec<u8>>, usize)>)
    ensures
        match r {
            Some((map, end)) => registers_at(bytes@, pos as int) == Some(
                (registers(map@), end as int),
            ) && pos < end <= bytes.len(),
            None => registers_at(bytes@, pos as int) is None,
        },
{
    let (count, start) = match read_container(bytes, pos, Major::Table) {
        Some(found) => found,
        None => {
            return None;
        },
    };
    let mut map: BTreeMap<usize, Vec<u8>> = BTreeMap::new();
    let mut at: usize = start;
    let mut left: Option<u64> = count;
    proof {
        assert(registers(map@) =~= Map::empty());
    }
    loop
        invariant
            pos < at <= bytes.len(),
            registers_at(bytes@, pos as int) == entries_from(
                bytes@,
                at as int,
                left,
                registers(map@),
            ),
        decreases bytes.len() - at,
    {
        match read_end(bytes, at, left) {
            Some(end) => {
                return Some((map, end));
            },
            None => {},
        }
        let (k, mid) = match read_uint(bytes, at, usize::MAX as u64) {
            Some(found) => found,
            None => {
                return None;
            },
        };
        match read_byte_list(bytes, mid) {
            Some((row, next)) => {
                proof {
                    assert(registers(map@.insert(k as usize, row)) =~= registers(map@).insert(
                        k as usize,
                        row@,
                    ));
                }
                map.insert(k as usize, row);
                at = next;
                left = one_fewer(left);
            },
            None => {
                return None;
            },
        }
    }
}

} // verus!
