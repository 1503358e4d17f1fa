//! Byte-level building blocks shared by every wire format of the system:
//! big-endian integers, length-prefixed UTF-8 strings and the
//! variable-length "remaining length" field.
//!
//! Each format is given twice: as a specification over `Seq<u8>` and as
//! executable code proved to compute it. Parsers consume a prefix and hand
//! back the rest, so that formats compose by concatenation.

use vstd::prelude::*;
use vstd::string::*;
use vstd::utf8::*;

verus! {

/// Largest value the remaining-length field can carry (four 7-bit groups).
pub const MAX_REMAINING_LENGTH: u32 = 268_435_455;

/// Largest number of bytes a length-prefixed string can hold.
pub const MAX_STRING_BYTES: usize = 65_535;

// ---------------------------------------------------------------------
// Integers
// ---------------------------------------------------------------------
pub open spec fn u16_be(v: u16) -> Seq<u8> {
    seq![(v / 256) as u8, (v % 256) as u8]
}

pub open spec fn u16_of_be(hi: u8, lo: u8) -> u16 {
    (hi as int * 256 + lo as int) as u16
}

/// The eight bytes of `v`, most significant first.
pub open spec fn u64_be(v: u64) -> Seq<u8> {
    seq![
        (v / 0x100_0000_0000_0000) as u8,
        (v / 0x1_0000_0000_0000 % 256) as u8,
        (v / 0x100_0000_0000 % 256) as u8,
        (v / 0x1_0000_0000 % 256) as u8,
        (v / 0x100_0000 % 256) as u8,
        (v / 0x1_0000 % 256) as u8,
        (v / 0x100 % 256) as u8,
        (v % 256) as u8,
    ]
}

/// The number whose big-endian bytes are the first eight of `s`.
pub open spec fn u64_of_be(s: Seq<u8>) -> u64 {
    (s[0] as int * 0x100_0000_0000_0000 + s[1] as int * 0x1_0000_0000_0000 + s[2] as int
        * 0x100_0000_0000 + s[3] as int * 0x1_0000_0000 + s[4] as int * 0x100_0000 + s[5] as int
        * 0x1_0000 + s[6] as int * 0x100 + s[7] as int) as u64
}

pub open spec fn parse_u8(s: Seq<u8>) -> Option<(u8, Seq<u8>)> {
    if s.len() < 1 {
        None
    } else {
        Some((s[0], s.skip(1)))
    }
}

pub open spec fn parse_u16(s: Seq<u8>) -> Option<(u16, Seq<u8>)> {
    if s.len() < 2 {
        None
    } else {
        Some((u16_of_be(s[0], s[1]), s.skip(2)))
    }
}

pub open spec fn parse_u64(s: Seq<u8>) -> Option<(u64, Seq<u8>)> {
    if s.len() < 8 {
        None
    } else {
        Some((u64_of_be(s), s.skip(8)))
    }
}

pub proof fn lemma_parse_u8(v: u8, rest: Seq<u8>)
    ensures
        parse_u8(seq![v] + rest) == Some((v, rest)),
{
    assert((seq![v] + rest).skip(1) =~= rest);
}

pub proof fn lemma_parse_u16(v: u16, rest: Seq<u8>)
    ensures
        parse_u16(u16_be(v) + rest) == Some((v, rest)),
{
    assert((u16_be(v) + rest).skip(2) =~= rest);
}

/// What `parse_u16` accepts is exactly a big-endian number and a rest.
pub proof fn lemma_parse_u16_inverse(b: Seq<u8>)
    ensures
        parse_u16(b) matches Some((v, rest)) ==> b == u16_be(v) + rest,
{
    if b.len() >= 2 {
        let v = u16_of_be(b[0], b[1]);
        assert(b =~= u16_be(v) + b.skip(2));
    }
}

pub proof fn lemma_u64_be_value(v: u64)
    ensures
        u64_of_be(u64_be(v)) == v,
{
    let c0: u64 = v / 0x100_0000_0000_0000;
    let c1: u64 = v / 0x1_0000_0000_0000 % 256;
    let c2: u64 = v / 0x100_0000_0000 % 256;
    let c3: u64 = v / 0x1_0000_0000 % 256;
    let c4: u64 = v / 0x100_0000 % 256;
    let c5: u64 = v / 0x1_0000 % 256;
    let c6: u64 = v / 0x100 % 256;
    let c7: u64 = v % 256;
    assert(c0 < 256 && c0 * 0x100_0000_0000_0000 + c1 * 0x1_0000_0000_0000 + c2 * 0x100_0000_0000
        + c3 * 0x1_0000_0000 + c4 * 0x100_0000 + c5 * 0x1_0000 + c6 * 0x100 + c7 == v)
        by (bit_vector)
        requires
            c0 == v / 0x100_0000_0000_0000,
            c1 == v / 0x1_0000_0000_0000 % 256,
            c2 == v / 0x100_0000_0000 % 256,
            c3 == v / 0x1_0000_0000 % 256,
            c4 == v / 0x100_0000 % 256,
            c5 == v / 0x1_0000 % 256,
            c6 == v / 0x100 % 256,
            c7 == v % 256,
    ;
    let s = u64_be(v);
    assert(s[0] == c0 && s[1] == c1 && s[2] == c2 && s[3] == c3);
    assert(s[4] == c4 && s[5] == c5 && s[6] == c6 && s[7] == c7);
}

pub proof fn lemma_parse_u64(v: u64, rest: Seq<u8>)
    ensures
        parse_u64(u64_be(v) + rest) == Some((v, rest)),
{
    lemma_u64_be_value(v);
    let s = u64_be(v) + rest;
    assert(s.skip(8) =~= rest);
    assert forall|i: int| 0 <= i < 8 implies s[i] == u64_be(v)[i] by {}
}

// ---------------------------------------------------------------------
// Strings
// ---------------------------------------------------------------------
/// A string can be written when its UTF-8 form fits the 16-bit length prefix.
pub open spec fn string_fits(s: Seq<char>) -> bool {
    encode_utf8(s).len() <= MAX_STRING_BYTES
}

/// Big-endian 16-bit byte count, then the UTF-8 bytes.
pub open spec fn encode_string(s: Seq<char>) -> Seq<u8> {
    u16_be(encode_utf8(s).len() as u16) + encode_utf8(s)
}

pub open spec fn parse_string(b: Seq<u8>) -> Option<(Seq<char>, Seq<u8>)> {
    match parse_u16(b) {
        None => None,
        Some((n, rest)) => if rest.len() < n {
            None
        } else if !valid_utf8(rest.take(n as int)) {
            None
        } else {
            Some((decode_utf8(rest.take(n as int)), rest.skip(n as int)))
        },
    }
}

pub proof fn lemma_parse_string(s: Seq<char>, rest: Seq<u8>)
    requires
        string_fits(s),
    ensures
        parse_string(encode_string(s) + rest) == Some((s, rest)),
{
    let body = encode_utf8(s);
    let n = body.len() as u16;
    assert(encode_string(s) + rest =~= u16_be(n) + (body + rest));
    lemma_parse_u16(n, body + rest);
    assert((body + rest).take(n as int) =~= body);
    assert((body + rest).skip(n as int) =~= rest);
    encode_utf8_valid_utf8(s);
    encode_utf8_decode_utf8(s);
}

/// What `parse_string` accepts is exactly an encoded string and a rest.
pub proof fn lemma_parse_string_inverse(b: Seq<u8>)
    ensures
        parse_string(b) matches Some((s, rest)) ==> string_fits(s) && b == encode_string(s) + rest,
{
    if let Some((s, rest)) = parse_string(b) {
        lemma_parse_u16_inverse(b);
        let n = u16_of_be(b[0], b[1]);
        let tail = b.skip(2);
        let body = tail.take(n as int);
        decode_utf8_encode_utf8(body);
        assert(tail =~= body + rest);
        assert(b =~= u16_be(n) + body + rest);
    }
}

// ---------------------------------------------------------------------
// Length-prefixed binary data
// ---------------------------------------------------------------------
/// Big-endian 16-bit byte count, then the bytes themselves.
pub open spec fn encode_binary(data: Seq<u8>) -> Seq<u8> {
    u16_be(data.len() as u16) + data
}

pub open spec fn parse_binary(b: Seq<u8>) -> Option<(Seq<u8>, Seq<u8>)> {
    match parse_u16(b) {
        None => None,
        Some((n, rest)) => if rest.len() < n {
            None
        } else {
            Some((rest.take(n as int), rest.skip(n as int)))
        },
    }
}

pub proof fn lemma_parse_binary(data: Seq<u8>, rest: Seq<u8>)
    requires
        data.len() <= MAX_STRING_BYTES,
    ensures
        parse_binary(encode_binary(data) + rest) == Some((data, rest)),
{
    let n = data.len() as u16;
    assert(encode_binary(data) + rest =~= u16_be(n) + (data + rest));
    lemma_parse_u16(n, data + rest);
    assert((data + rest).take(n as int) =~= data);
    assert((data + rest).skip(n as int) =~= rest);
}

/// What `parse_binary` accepts is exactly an encoded field and a rest.
pub proof fn lemma_parse_binary_inverse(b: Seq<u8>)
    ensures
        parse_binary(b) matches Some((data, rest)) ==> data.len() <= MAX_STRING_BYTES && b
            == encode_binary(data) + rest,
{
    if let Some((data, rest)) = parse_binary(b) {
        lemma_parse_u16_inverse(b);
        let n = u16_of_be(b[0], b[1]);
        let tail = b.skip(2);
        assert(tail =~= data + rest);
        assert(b =~= u16_be(n) + data + rest);
    }
}

// ---------------------------------------------------------------------
// Remaining length
// ---------------------------------------------------------------------
/// The variable-length form of `n`: seven bits per byte, least significant
/// group first, the high bit of a byte telling that another follows.
pub open spec fn encode_remaining_length(n: nat) -> Seq<u8> {
    if n < 128 {
        seq![n as u8]
    } else if n < 16_384 {
        seq![(n % 128 + 128) as u8, (n / 128) as u8]
    } else if n < 2_097_152 {
        seq![(n % 128 + 128) as u8, (n / 128 % 128 + 128) as u8, (n / 16_384) as u8]
    } else {
        seq![
            (n % 128 + 128) as u8,
            (n / 128 % 128 + 128) as u8,
            (n / 16_384 % 128 + 128) as u8,
            (n / 2_097_152) as u8,
        ]
    }
}

/// Reads a remaining length of one to four bytes. A fourth byte that still
/// announces a continuation is refused.
pub open spec fn parse_remaining_length(b: Seq<u8>) -> Option<(nat, Seq<u8>)> {
    if b.len() < 1 {
        None
    } else if b[0] < 128 {
        Some((b[0] as nat, b.skip(1)))
    } else if b.len() < 2 {
        None
    } else if b[1] < 128 {
        Some(((b[0] - 128 + 128 * b[1]) as nat, b.skip(2)))
    } else if b.len() < 3 {
        None
    } else if b[2] < 128 {
        Some(((b[0] - 128 + 128 * (b[1] - 128) + 16_384 * b[2]) as nat, b.skip(3)))
    } else if b.len() < 4 {
        None
    } else if b[3] < 128 {
        Some(
            (
                (b[0] - 128 + 128 * (b[1] - 128) + 16_384 * (b[2] - 128) + 2_097_152 * b[3]) as nat,
                b.skip(4),
            ),
        )
    } else {
        None
    }
}

pub proof fn lemma_parse_remaining_length(n: nat, rest: Seq<u8>)
    requires
        n <= MAX_REMAINING_LENGTH,
    ensures
        parse_remaining_length(encode_remaining_length(n) + rest) == Some((n, rest)),
{
    let e = encode_remaining_length(n);
    let b = e + rest;
    assert(b.skip(e.len() as int) =~= rest);
    assert forall|i: int| 0 <= i < e.len() implies b[i] == e[i] by {}
    if n < 128 {
        assert(b[0] == e[0]);
    } else if n < 16_384 {
        assert(b[0] == e[0] && b[1] == e[1]);
    } else if n < 2_097_152 {
        assert(b[0] == e[0] && b[1] == e[1] && b[2] == e[2]);
    } else {
        assert(b[0] == e[0] && b[1] == e[1] && b[2] == e[2] && b[3] == e[3]);
    }
}

/// A parsed remaining length always fits the field's range and leaves a
/// strictly shorter rest.
pub proof fn lemma_parse_remaining_length_bounds(b: Seq<u8>)
    ensures
        parse_remaining_length(b) matches Some((n, rest)) ==> n <= MAX_REMAINING_LENGTH
            && rest.len() < b.len(),
{
}

// ---------------------------------------------------------------------
// Writers
// ---------------------------------------------------------------------
pub(crate) fn push_u16(out: &mut Vec<u8>, v: u16)
    ensures
        final(out)@ == old(out)@ + u16_be(v),
{
    out.push((v / 256) as u8);
    out.push((v % 256) as u8);
    assert(out@ =~= old(out)@ + u16_be(v));
}

pub(crate) fn push_u64(out: &mut Vec<u8>, v: u64)
    ensures
        final(out)@ == old(out)@ + u64_be(v),
{
    out.push((v / 0x100_0000_0000_0000) as u8);
    out.push((v / 0x1_0000_0000_0000 % 256) as u8);
    out.push((v / 0x100_0000_0000 % 256) as u8);
    out.push((v / 0x1_0000_0000 % 256) as u8);
    out.push((v / 0x100_0000 % 256) as u8);
    out.push((v / 0x1_0000 % 256) as u8);
    out.push((v / 0x100 % 256) as u8);
    out.push((v % 256) as u8);
    assert(out@ =~= old(out)@ + u64_be(v));
}

pub(crate) fn push_bytes(out: &mut Vec<u8>, bytes: &[u8])
    ensures
        final(out)@ == old(out)@ + bytes@,
{
    let mut i: usize = 0;
    while i < bytes.len()
        invariant
            i <= bytes@.len(),
            out@ == old(out)@ + bytes@.take(i as int),
        decreases bytes@.len() - i,
    {
        out.push(bytes[i]);
        i = i + 1;
        assert(out@ =~= old(out)@ + bytes@.take(i as int));
    }
    assert(bytes@.take(i as int) =~= bytes@);
}

pub(crate) fn push_string(out: &mut Vec<u8>, s: &str)
    requires
        string_fits(s@),
    ensures
        final(out)@ == old(out)@ + encode_string(s@),
{
    let bytes = s.as_bytes();
    let n: usize = bytes.len();
    push_u16(out, n as u16);
    push_bytes(out, bytes);
    assert(out@ =~= old(out)@ + encode_string(s@));
}

pub(crate) fn push_binary(out: &mut Vec<u8>, data: &[u8])
    requires
        data@.len() <= MAX_STRING_BYTES,
    ensures
        final(out)@ == old(out)@ + encode_binary(data@),
{
    let n: usize = data.len();
    push_u16(out, n as u16);
    push_bytes(out, data);
    assert(out@ =~= old(out)@ + encode_binary(data@));
}

pub(crate) fn push_remaining_length(out: &mut Vec<u8>, n: u32)
    requires
        n <= MAX_REMAINING_LENGTH,
    ensures
        final(out)@ == old(out)@ + encode_remaining_length(n as nat),
{
    if n < 128 {
        out.push(n as u8);
    } else if n < 16_384 {
        out.push((n % 128 + 128) as u8);
        out.push((n / 128) as u8);
    } else if n < 2_097_152 {
        out.push((n % 128 + 128) as u8);
        out.push((n / 128 % 128 + 128) as u8);
        out.push((n / 16_384) as u8);
    } else {
        out.push((n % 128 + 128) as u8);
        out.push((n / 128 % 128 + 128) as u8);
        out.push((n / 16_384 % 128 + 128) as u8);
        out.push((n / 2_097_152) as u8);
    }
    assert(out@ =~= old(out)@ + encode_remaining_length(n as nat));
}

// ---------------------------------------------------------------------
// Readers
// ---------------------------------------------------------------------
/// Calls `String::from_utf8` of the standard library. Its contract is taken
/// on trust, not proved: the call succeeds exactly when `bytes` are valid
/// UTF-8, and then gives the text that they spell.
#[verifier::external_body]
fn string_from_utf8(bytes: Vec<u8>) -> (res: Option<String>)
    ensures
        res is Some <==> valid_utf8(bytes@),
        res matches Some(s) ==> s@ == decode_utf8(bytes@),
{
    match String::from_utf8(bytes) {
        Ok(s) => Some(s),
        Err(_) => None,
    }
}

pub(crate) fn copy_range(bytes: &[u8], from: usize, to: usize) -> (out: Vec<u8>)
    requires
        from <= to <= bytes@.len(),
    ensures
        out@ == bytes@.subrange(from as int, to as int),
{
    let mut out: Vec<u8> = Vec::new();
    let mut i: usize = from;
    while i < to
        invariant
            from <= i <= to <= bytes@.len(),
            out@ == bytes@.subrange(from as int, i as int),
        decreases to - i,
    {
        out.push(bytes[i]);
        i = i + 1;
        assert(out@ =~= bytes@.subrange(from as int, i as int));
    }
    out
}

pub(crate) fn read_u8(bytes: &[u8], pos: usize) -> (r: Option<(u8, usize)>)
    requires
        pos <= bytes@.len(),
    ensures
        match parse_u8(bytes@.skip(pos as int)) {
            Some((v, rest)) => r == Some((v, (pos + 1) as usize)) && pos + 1 <= bytes@.len()
                && rest == bytes@.skip(pos + 1),
            None => r is None,
        },
{
    if bytes.len() - pos < 1 {
        None
    } else {
        assert(bytes@.skip(pos as int).skip(1) =~= bytes@.skip(pos + 1));
        Some((bytes[pos], pos + 1))
    }
}

pub(crate) fn read_u16(bytes: &[u8], pos: usize) -> (r: Option<(u16, usize)>)
    requires
        pos <= bytes@.len(),
    ensures
        match parse_u16(bytes@.skip(pos as int)) {
            Some((v, rest)) => r == Some((v, (pos + 2) as usize)) && pos + 2 <= bytes@.len()
                && rest == bytes@.skip(pos + 2),
            None => r is None,
        },
{
    if bytes.len() - pos < 2 {
        None
    } else {
        assert(bytes@.skip(pos as int).skip(2) =~= bytes@.skip(pos + 2));
        let hi: u16 = bytes[pos] as u16;
        let lo: u16 = bytes[pos + 1] as u16;
        Some((hi * 256 + lo, pos + 2))
    }
}

pub(crate) fn read_u64(bytes: &[u8], pos: usize) -> (r: Option<(u64, usize)>)
    requires
        pos <= bytes@.len(),
    ensures
        match parse_u64(bytes@.skip(pos as int)) {
            Some((v, rest)) => r == Some((v, (pos + 8) as usize)) && pos + 8 <= bytes@.len()
                && rest == bytes@.skip(pos + 8),
            None => r is None,
        },
{
    if bytes.len() - pos < 8 {
        None
    } else {
        assert(bytes@.skip(pos as int).skip(8) =~= bytes@.skip(pos + 8));
        let b0: u64 = bytes[pos] as u64;
        let b1: u64 = bytes[pos + 1] as u64;
        let b2: u64 = bytes[pos + 2] as u64;
        let b3: u64 = bytes[pos + 3] as u64;
        let b4: u64 = bytes[pos + 4] as u64;
        let b5: u64 = bytes[pos + 5] as u64;
        let b6: u64 = bytes[pos + 6] as u64;
        let b7: u64 = bytes[pos + 7] as u64;
        let v: u64 = b0 * 0x100_0000_0000_0000 + b1 * 0x1_0000_0000_0000 + b2 * 0x100_0000_0000
            + b3 * 0x1_0000_0000 + b4 * 0x100_0000 + b5 * 0x1_0000 + b6 * 0x100 + b7;
        Some((v, pos + 8))
    }
}

/// The number whose eight big-endian bytes start at `pos`.
pub(crate) fn read_be_u64(bytes: &[u8], pos: usize) -> (v: u64)
    requires
        pos + 8 <= bytes@.len(),
    ensures
        v == u64_of_be(bytes@.subrange(pos as int, pos + 8)),
{
    let ghost window = bytes@.subrange(pos as int, pos + 8);
    assert(forall|i: int| 0 <= i < 8 ==> window[i] == bytes@.skip(pos as int)[i]);
    match read_u64(bytes, pos) {
        Some((v, _)) => v,
        None => 0,
    }
}

pub(crate) fn read_string(bytes: &[u8], pos: usize) -> (r: Option<(String, usize)>)
    requires
        pos <= bytes@.len(),
    ensures
        match parse_string(bytes@.skip(pos as int)) {
            Some((s, rest)) => r matches Some((text, next)) && text@ == s && pos <= next
                <= bytes@.len() && rest == bytes@.skip(next as int),
            None => r is None,
        },
{
    match read_u16(bytes, pos) {
        None => None,
        Some((n, start)) => {
            let n: usize = n as usize;
            if bytes.len() - start < n {
                None
            } else {
                let ghost rest = bytes@.skip(start as int);
                let raw = copy_range(bytes, start, start + n);
                assert(raw@ =~= rest.take(n as int));
                assert(rest.skip(n as int) =~= bytes@.skip(start + n));
                match string_from_utf8(raw) {
                    None => None,
                    Some(text) => Some((text, start + n)),
                }
            }
        },
    }
}

pub(crate) fn read_binary(bytes: &[u8], pos: usize) -> (r: Option<(Vec<u8>, usize)>)
    requires
        pos <= bytes@.len(),
    ensures
        match parse_binary(bytes@.skip(pos as int)) {
            Some((data, rest)) => r matches Some((found, next)) && found@ == data && pos <= next
                <= bytes@.len() && rest == bytes@.skip(next as int),
            None => r is None,
        },
{
    match read_u16(bytes, pos) {
        None => None,
        Some((n, start)) => {
            let n: usize = n as usize;
            if bytes.len() - start < n {
                None
            } else {
                let ghost rest = bytes@.skip(start as int);
                let raw = copy_range(bytes, start, start + n);
                assert(raw@ =~= rest.take(n as int));
                assert(rest.skip(n as int) =~= bytes@.skip(start + n));
                Some((raw, start + n))
            }
        },
    }
}

pub(crate) fn read_remaining_length(bytes: &[u8], pos: usize) -> (r: Option<(u32, usize)>)
    requires
        pos <= bytes@.len(),
    ensures
        match parse_remaining_length(bytes@.skip(pos as int)) {
            Some((n, rest)) => r matches Some((value, next)) && value == n && pos < next
                <= bytes@.len() && next <= pos + 4 && rest == bytes@.skip(next as int),
            None => r is None,
        },
{
    let ghost s = bytes@.skip(pos as int);
    let avail: usize = bytes.len() - pos;
    if avail < 1 {
        return None;
    }
    let b0: u32 = bytes[pos] as u32;
    if b0 < 128 {
        assert(s.skip(1) =~= bytes@.skip(pos + 1));
        return Some((b0, pos + 1));
    }
    if avail < 2 {
        return None;
    }
    let b1: u32 = bytes[pos + 1] as u32;
    if b1 < 128 {
        assert(s.skip(2) =~= bytes@.skip(pos + 2));
        return Some((b0 - 128 + 128 * b1, pos + 2));
    }
    if avail < 3 {
        return None;
    }
    let b2: u32 = bytes[pos + 2] as u32;
    if b2 < 128 {
        assert(s.skip(3) =~= bytes@.skip(pos + 3));
        return Some((b0 - 128 + 128 * (b1 - 128) + 16_384 * b2, pos + 3));
    }
    if avail < 4 {
        return None;
    }
    let b3: u32 = bytes[pos + 3] as u32;
    if b3 < 128 {
        assert(s.skip(4) =~= bytes@.skip(pos + 4));
        return Some(
            (b0 - 128 + 128 * (b1 - 128) + 16_384 * (b2 - 128) + 2_097_152 * b3, pos + 4),
        );
    }
    None
}

} // verus!
