//! CBOR item heads: the initial byte of a data item and the argument that
//! follows it, written in the shortest form and read in any form.

use vstd::prelude::*;
use vstd::slice::slice_subrange;
use vstd::utf8::{decode_utf8, encode_utf8, valid_utf8};

verus! {

/// The first byte of a CBOR `null`.
pub const NULL: u8 = 0xf6;

/// The first byte of a CBOR `false`.
pub const FALSE: u8 = 0xf4;

/// The first byte of a CBOR `true`.
pub const TRUE: u8 = 0xf5;

/// The byte that ends an item of indefinite length.
pub const BREAK: u8 = 0xff;

/// The additional information that marks an item of indefinite length.
pub const INDEFINITE: u8 = 31;

/// The major type of a data item, carried in the top three bits of its
/// first byte.
#[derive(Clone, Copy, Debug, PartialEq, Eq, Structural)]
pub enum Major {
    Unsigned,
    Negative,
    Bytes,
    Text,
    Array,
    Table,
    Tag,
    Simple,
}

impl Major {
    /// The first byte of an item of this major type whose additional
    /// information is zero.
    pub open spec fn bits(self) -> int {
        match self {
            Major::Unsigned => 0x00,
            Major::Negative => 0x20,
            Major::Bytes => 0x40,
            Major::Text => 0x60,
            Major::Array => 0x80,
            Major::Table => 0xa0,
            Major::Tag => 0xc0,
            Major::Simple => 0xe0,
        }
    }

    /// The executable form of [`Major::bits`].
    pub fn first_byte(self) -> (b: u8)
        ensures
            b == self.bits(),
    {
        match self {
            Major::Unsigned => 0x00,
            Major::Negative => 0x20,
            Major::Bytes => 0x40,
            Major::Text => 0x60,
            Major::Array => 0x80,
            Major::Table => 0xa0,
            Major::Tag => 0xc0,
            Major::Simple => 0xe0,
        }
    }
}

/// The shortest head of major type `major` with argument `n`.
pub open spec fn head(major: Major, n: u64) -> Seq<u8> {
    let m = major.bits();
    if n < 24 {
        seq![(m + n) as u8]
    } else if n < 0x100 {
        seq![(m + 24) as u8, n as u8]
    } else if n < 0x1_0000 {
        seq![(m + 25) as u8, (n / 0x100) as u8, (n % 0x100) as u8]
    } else if n < 0x1_0000_0000 {
        seq![
            (m + 26) as u8,
            (n / 0x100_0000) as u8,
            (n / 0x1_0000 % 0x100) as u8,
            (n / 0x100 % 0x100) as u8,
            (n % 0x100) as u8,
        ]
    } else {
        seq![
            (m + 27) as u8,
            (n / 0x100_0000_0000_0000) as u8,
            (n / 0x1_0000_0000_0000 % 0x100) as u8,
            (n / 0x100_0000_0000 % 0x100) as u8,
            (n / 0x1_0000_0000 % 0x100) as u8,
            (n / 0x100_0000 % 0x100) as u8,
            (n / 0x1_0000 % 0x100) as u8,
            (n / 0x100 % 0x100) as u8,
            (n % 0x100) as u8,
        ]
    }
}

/// The argument of the head that starts at `pos`, and the position behind
/// that head. There is none where the input ends inside the head or where
/// the additional information is 28 or more.
pub open spec fn argument_at(s: Seq<u8>, pos: int) -> Option<(u64, int)> {
    if pos < 0 || pos >= s.len() {
        None
    } else {
        let info = s[pos] % 32;
        if info < 24 {
            Some((info as u64, pos + 1))
        } else if info == 24 {
            if pos + 1 < s.len() {
                Some((s[pos + 1] as u64, pos + 2))
            } else {
                None
            }
        } else if info == 25 {
            if pos + 2 < s.len() {
                Some(((s[pos + 1] * 0x100 + s[pos + 2]) as u64, pos + 3))
            } else {
                None
            }
        } else if info == 26 {
            if pos + 4 < s.len() {
                Some(
                    (
                        (s[pos + 1] * 0x100_0000 + s[pos + 2] * 0x1_0000 + s[pos + 3] * 0x100
                            + s[pos + 4]) as u64,
                        pos + 5,
                    ),
                )
            } else {
                None
            }
        } else if info == 27 {
            if pos + 8 < s.len() {
                Some(
                    (
                        (s[pos + 1] * 0x100_0000_0000_0000 + s[pos + 2] * 0x1_0000_0000_0000
                            + s[pos + 3] * 0x100_0000_0000 + s[pos + 4] * 0x1_0000_0000 + s[pos
                            + 5] * 0x100_0000 + s[pos + 6] * 0x1_0000 + s[pos + 7] * 0x100
                            + s[pos + 8]) as u64,
                        pos + 9,
                    ),
                )
            } else {
                None
            }
        } else {
            None
        }
    }
}

/// Whether the byte at `pos` opens an item of major type `major`.
pub open spec fn major_at(s: Seq<u8>, pos: int, major: Major) -> bool {
    0 <= pos < s.len() && s[pos] - s[pos] % 32 == major.bits()
}

/// Appends the shortest head of major type `major` with argument `n`.
pub fn write_head(buf: &mut Vec<u8>, major: Major, n: u64)
    ensures
        final(buf)@ == old(buf)@ + head(major, n),
{
    let m: u8 = major.first_byte();
    if n < 24 {
        buf.push(m + n as u8);
    } else if n < 0x100 {
        buf.push(m + 24);
        buf.push(n as u8);
    } else if n < 0x1_0000 {
        buf.push(m + 25);
        buf.push((n / 0x100) as u8);
        buf.push((n % 0x100) as u8);
    } else if n < 0x1_0000_0000 {
        buf.push(m + 26);
        buf.push((n / 0x100_0000) as u8);
        buf.push((n / 0x1_0000 % 0x100) as u8);
        buf.push((n / 0x100 % 0x100) as u8);
        buf.push((n % 0x100) as u8);
    } else {
        buf.push(m + 27);
        buf.push((n / 0x100_0000_0000_0000) as u8);
        buf.push((n / 0x1_0000_0000_0000 % 0x100) as u8);
        buf.push((n / 0x100_0000_0000 % 0x100) as u8);
        buf.push((n / 0x1_0000_0000 % 0x100) as u8);
        buf.push((n / 0x100_0000 % 0x100) as u8);
        buf.push((n / 0x1_0000 % 0x100) as u8);
        buf.push((n / 0x100 % 0x100) as u8);
        buf.push((n % 0x100) as u8);
    }
    assert(buf@ =~= old(buf)@ + head(major, n));
}

/// Reads the argument of the head that starts at `pos`.
pub fn read_argument(bytes: &[u8], pos: usize) -> (r: Option<(u64, usize)>)
    ensures
        match r {
            Some((n, end)) => argument_at(bytes@, pos as int) == Some((n, end as int)),
            None => argument_at(bytes@, pos as int) is None,
        },
{
    let len: usize = bytes.len();
    if pos >= len {
        return None;
    }
    let room: usize = len - pos;
    let info: u8 = bytes[pos] % 32;
    if info < 24 {
        Some((info as u64, pos + 1))
    } else if info == 24 {
        if room > 1 {
            Some((bytes[pos + 1] as u64, pos + 2))
        } else {
            None
        }
    } else if info == 25 {
        if room > 2 {
            let n: u64 = bytes[pos + 1] as u64 * 0x100 + bytes[pos + 2] as u64;
            Some((n, pos + 3))
        } else {
            None
        }
    } else if info == 26 {
        if room > 4 {
            let n: u64 = bytes[pos + 1] as u64 * 0x100_0000 + bytes[pos + 2] as u64 * 0x1_0000
                + bytes[pos + 3] as u64 * 0x100 + bytes[pos + 4] as u64;
            Some((n, pos + 5))
        } else {
            None
        }
    } else if info == 27 {
        if room > 8 {
            let n: u64 = bytes[pos + 1] as u64 * 0x100_0000_0000_0000 + bytes[pos + 2] as u64
                * 0x1_0000_0000_0000 + bytes[pos + 3] as u64 * 0x100_0000_0000 + bytes[pos
                + 4] as u64 * 0x1_0000_0000 + bytes[pos + 5] as u64 * 0x100_0000 + bytes[pos
                + 6] as u64 * 0x1_0000 + bytes[pos + 7] as u64 * 0x100 + bytes[pos + 8] as u64;
            Some((n, pos + 9))
        } else {
            None
        }
    } else {
        None
    }
}

/// Whether the byte at `pos` opens an item of major type `major`.
pub fn has_major(bytes: &[u8], pos: usize, major: Major) -> (b: bool)
    ensures
        b == major_at(bytes@, pos as int, major),
{
    if pos < bytes.len() {
        let first: u8 = bytes[pos];
        first - first % 32 == major.first_byte()
    } else {
        false
    }
}

/// The unsigned integer that starts at `pos`, in any of its widths, where
/// it is no larger than `max`; and the position behind it.
pub open spec fn uint_at(s: Seq<u8>, pos: int, max: u64) -> Option<(u64, int)> {
    if major_at(s, pos, Major::Unsigned) {
        match argument_at(s, pos) {
            Some((n, end)) => if n <= max {
                Some((n, end))
            } else {
                None
            },
            None => None,
        }
    } else {
        None
    }
}

/// Reads an unsigned integer no larger than `max`.
pub fn read_uint(bytes: &[u8], pos: usize, max: u64) -> (r: Option<(u64, usize)>)
    ensures
        match r {
            Some((n, end)) => uint_at(bytes@, pos as int, max) == Some((n, end as int)) && pos
                < end <= bytes.len() && n <= max,
            None => uint_at(bytes@, pos as int, max) is None,
        },
{
    if !has_major(bytes, pos, Major::Unsigned) {
        return None;
    }
    match read_argument(bytes, pos) {
        Some((n, end)) => if n <= max {
            Some((n, end))
        } else {
            None
        },
        None => None,
    }
}

/// Appends an unsigned integer in its shortest form.
pub fn write_uint(buf: &mut Vec<u8>, n: u64)
    ensures
        final(buf)@ == old(buf)@ + head(Major::Unsigned, n),
{
    write_head(buf, Major::Unsigned, n);
}

/// The head of the array or map that starts at `pos`: the number of its
/// elements, or none for one of indefinite length, and the position behind
/// the head.
pub open spec fn container_at(s: Seq<u8>, pos: int, major: Major) -> Option<(Option<u64>, int)> {
    if major_at(s, pos, major) {
        if s[pos] % 32 == INDEFINITE {
            Some((None, pos + 1))
        } else {
            match argument_at(s, pos) {
                Some((n, end)) => Some((Some(n), end)),
                None => None,
            }
        }
    } else {
        None
    }
}

/// Reads the head of an array or a map.
pub fn read_container(bytes: &[u8], pos: usize, major: Major) -> (r: Option<(Option<u64>, usize)>)
    ensures
        match r {
            Some((count, end)) => container_at(bytes@, pos as int, major) == Some(
                (count, end as int),
            ) && pos < end <= bytes.len(),
            None => container_at(bytes@, pos as int, major) is None,
        },
{
    if !has_major(bytes, pos, major) {
        return None;
    }
    if bytes[pos] % 32 == INDEFINITE {
        return Some((None, pos + 1));
    }
    match read_argument(bytes, pos) {
        Some((n, end)) => Some((Some(n), end)),
        None => None,
    }
}

/// The truth value that starts at `pos`.
pub open spec fn bool_at(s: Seq<u8>, pos: int) -> Option<(bool, int)> {
    if 0 <= pos < s.len() && s[pos] == FALSE {
        Some((false, pos + 1))
    } else if 0 <= pos < s.len() && s[pos] == TRUE {
        Some((true, pos + 1))
    } else {
        None
    }
}

/// The encoding of a truth value.
pub open spec fn bool_bytes(b: bool) -> Seq<u8> {
    if b {
        seq![TRUE]
    } else {
        seq![FALSE]
    }
}

/// Reads a truth value.
pub fn read_bool(bytes: &[u8], pos: usize) -> (r: Option<(bool, usize)>)
    ensures
        match r {
            Some((b, end)) => bool_at(bytes@, pos as int) == Some((b, end as int)) && pos < end
                <= bytes.len(),
            None => bool_at(bytes@, pos as int) is None,
        },
{
    if pos < bytes.len() && bytes[pos] == FALSE {
        Some((false, pos + 1))
    } else if pos < bytes.len() && bytes[pos] == TRUE {
        Some((true, pos + 1))
    } else {
        None
    }
}

/// Appends a truth value.
pub fn write_bool(buf: &mut Vec<u8>, b: bool)
    ensures
        final(buf)@ == old(buf)@ + bool_bytes(b),
{
    if b {
        buf.push(TRUE);
    } else {
        buf.push(FALSE);
    }
    assert(buf@ =~= old(buf)@ + bool_bytes(b));
}

/// Whether the byte at `pos` is a CBOR `null`.
pub open spec fn null_at(s: Seq<u8>, pos: int) -> bool {
    0 <= pos < s.len() && s[pos] == NULL
}

/// Whether the byte at `pos` ends an item of indefinite length.
pub open spec fn break_at(s: Seq<u8>, pos: int) -> bool {
    0 <= pos < s.len() && s[pos] == BREAK
}

/// Whether the byte at `pos` is `byte`.
pub fn byte_is(bytes: &[u8], pos: usize, byte: u8) -> (b: bool)
    ensures
        b == (pos < bytes.len() && bytes@[pos as int] == byte),
{
    pos < bytes.len() && bytes[pos] == byte
}

/// The encoding of a text: a head with the length of its UTF-8 form, then
/// that form.
pub open spec fn text_bytes(text: Seq<char>) -> Seq<u8> {
    head(Major::Text, encode_utf8(text).len() as u64) + encode_utf8(text)
}

/// The text of definite length that starts at `pos`, where its bytes are
/// valid UTF-8.
pub open spec fn text_at(s: Seq<u8>, pos: int) -> Option<(Seq<char>, int)> {
    if major_at(s, pos, Major::Text) {
        match argument_at(s, pos) {
            Some((n, start)) => if start + n <= s.len() && valid_utf8(
                s.subrange(start, start + n),
            ) {
                Some((decode_utf8(s.subrange(start, start + n)), start + n))
            } else {
                None
            },
            None => None,
        }
    } else {
        None
    }
}

/// `std::str::from_utf8`, followed by an owned copy of the text it found.
/// The contract says that the call succeeds on exactly the valid UTF-8
/// byte strings and that the text is the one those bytes encode.
#[verifier::external_body]
pub(crate) fn text_from_utf8(bytes: &[u8]) -> (r: Option<String>)
    ensures
        r is Some <==> valid_utf8(bytes@),
        r matches Some(text) ==> text@ == decode_utf8(bytes@),
{
    match std::str::from_utf8(bytes) {
        Ok(text) => Some(String::from(text)),
        Err(_) => None,
    }
}

/// Reads a text of definite length.
pub fn read_text(bytes: &[u8], pos: usize) -> (r: Option<(String, usize)>)
    ensures
        match r {
            Some((text, end)) => text_at(bytes@, pos as int) == Some((text@, end as int)) && pos
                < end <= bytes.len(),
            None => text_at(bytes@, pos as int) is None,
        },
{
    if !has_major(bytes, pos, Major::Text) {
        return None;
    }
    match read_argument(bytes, pos) {
        Some((n, start)) => {
            let room: usize = bytes.len() - start;
            if n > room as u64 {
                return None;
            }
            let end: usize = start + n as usize;
            match text_from_utf8(slice_subrange(bytes, start, end)) {
                Some(text) => Some((text, end)),
                None => None,
            }
        },
        None => None,
    }
}

/// Appends a text.
pub fn write_text(buf: &mut Vec<u8>, text: &str)
    ensures
        final(buf)@ == old(buf)@ + text_bytes(text@),
{
    let raw = text.as_bytes();
    write_head(buf, Major::Text, raw.len() as u64);
    let ghost before = buf@;
    let mut i: usize = 0;
    while i < raw.len()
        invariant
            i <= raw.len(),
            buf@ == before + raw@.take(i as int),
        decreases raw.len() - i,
    {
        buf.push(raw[i]);
        i += 1;
        assert(buf@ =~= before + raw@.take(i as int));
    }
    assert(raw@.take(raw.len() as int) =~= raw@);
    assert(buf@ =~= old(buf)@ + text_bytes(text@));
}

/// Where the data item that starts at `pos` ends, as the skipping routine
/// of the CBOR library finds it; none where that routine reports an error.
pub uninterp spec fn item_end(s: Seq<u8>, pos: int) -> Option<int>;

/// `minicbor::Decoder::skip` on a decoder placed at `pos`. The contract
/// names the position at which the routine stops and adds what its source
/// shows of every run: it reads at least one byte and never reads past the
/// end of the input.
#[verifier::external_body]
pub(crate) fn skip_item(bytes: &[u8], pos: usize) -> (r: Option<usize>)
    ensures
        match r {
            Some(end) => item_end(bytes@, pos as int) == Some(end as int),
            None => item_end(bytes@, pos as int) is None,
        },
        r matches Some(end) ==> pos < end <= bytes.len(),
{
    let mut decoder = minicbor::Decoder::new(bytes);
    decoder.set_position(pos);
    match decoder.skip() {
        Ok(()) => Some(decoder.position()),
        Err(_) => None,
    }
}

} // verus!
