//! Byte-level pieces of the wire formats: fixed-width integers, length-prefixed
//! byte strings and UTF-8 strings.
use vstd::prelude::*;
use vstd::utf8::*;
use vstd::string::*;

verus! {

broadcast use vstd::utf8::group_utf8_lib;

/// The four little-endian bytes of `v`.
pub open spec fn le_u32_bytes(v: u32) -> Seq<u8> {
    seq![v as u8, (v >> 8u32) as u8, (v >> 16u32) as u8, (v >> 24u32) as u8]
}

/// The `u32` whose little-endian bytes start `b`.
pub open spec fn from_le_u32(b: Seq<u8>) -> u32 {
    (b[0] as u32) | ((b[1] as u32) << 8u32) | ((b[2] as u32) << 16u32) | ((b[3] as u32) << 24u32)
}

/// The four big-endian bytes of `v`.
pub open spec fn be_u32_bytes(v: u32) -> Seq<u8> {
    seq![(v >> 24u32) as u8, (v >> 16u32) as u8, (v >> 8u32) as u8, v as u8]
}

/// The `u32` whose big-endian bytes start `b`.
pub open spec fn from_be_u32(b: Seq<u8>) -> u32 {
    ((b[0] as u32) << 24u32) | ((b[1] as u32) << 16u32) | ((b[2] as u32) << 8u32) | (b[3] as u32)
}

/// The eight little-endian bytes of `v`.
pub open spec fn le_u64_bytes(v: u64) -> Seq<u8> {
    seq![
        v as u8,
        (v >> 8u64) as u8,
        (v >> 16u64) as u8,
        (v >> 24u64) as u8,
        (v >> 32u64) as u8,
        (v >> 40u64) as u8,
        (v >> 48u64) as u8,
        (v >> 56u64) as u8,
    ]
}

/// The `u64` whose little-endian bytes start `b`.
pub open spec fn from_le_u64(b: Seq<u8>) -> u64 {
    (b[0] as u64) | ((b[1] as u64) << 8u64) | ((b[2] as u64) << 16u64) | ((b[3] as u64) << 24u64)
        | ((b[4] as u64) << 32u64) | ((b[5] as u64) << 40u64) | ((b[6] as u64) << 48u64) | ((b[7]
        as u64) << 56u64)
}

/// A byte string on the wire: `u32_le(len) || bytes`.
pub open spec fn enc_bytes(b: Seq<u8>) -> Seq<u8> {
    le_u32_bytes(b.len() as u32) + b
}

/// A string on the wire: `u32_le(len) || utf8`.
pub open spec fn enc_str(s: Seq<char>) -> Seq<u8> {
    enc_bytes(encode_utf8(s))
}

/// A `u32` read from the front of `b`, with the bytes it took.
pub open spec fn parse_u32(b: Seq<u8>) -> Option<(u32, nat)> {
    if b.len() >= 4 {
        Some((from_le_u32(b), 4))
    } else {
        None
    }
}

/// A `u64` read from the front of `b`, with the bytes it took.
pub open spec fn parse_u64(b: Seq<u8>) -> Option<(u64, nat)> {
    if b.len() >= 8 {
        Some((from_le_u64(b), 8))
    } else {
        None
    }
}

/// A length-prefixed byte string read from the front of `b`.
pub open spec fn parse_bytes(b: Seq<u8>) -> Option<(Seq<u8>, nat)> {
    if b.len() < 4 {
        None
    } else {
        let n = from_le_u32(b) as nat;
        if b.len() < 4 + n {
            None
        } else {
            Some((b.subrange(4, 4 + n as int), 4 + n))
        }
    }
}

/// A length-prefixed UTF-8 string read from the front of `b`.
pub open spec fn parse_str(b: Seq<u8>) -> Option<(Seq<char>, nat)> {
    match parse_bytes(b) {
        None => None,
        Some((raw, k)) => if valid_utf8(raw) {
            Some((decode_utf8(raw), k))
        } else {
            None
        },
    }
}

pub proof fn lemma_le_u32(v: u32, rest: Seq<u8>)
    ensures
        le_u32_bytes(v).len() == 4,
        parse_u32(le_u32_bytes(v) + rest) == Some((v, 4nat)),
{
    let b = le_u32_bytes(v) + rest;
    assert(b[0] == v as u8 && b[1] == (v >> 8u32) as u8 && b[2] == (v >> 16u32) as u8 && b[3] == (
    v >> 24u32) as u8);
    assert(((v as u8) as u32) | ((((v >> 8u32) as u8) as u32) << 8u32) | ((((v >> 16u32) as u8)
        as u32) << 16u32) | ((((v >> 24u32) as u8) as u32) << 24u32) == v) by (bit_vector);
}

pub proof fn lemma_be_u32(v: u32, rest: Seq<u8>)
    ensures
        be_u32_bytes(v).len() == 4,
        from_be_u32(be_u32_bytes(v) + rest) == v,
{
    let b = be_u32_bytes(v) + rest;
    assert(b[0] == (v >> 24u32) as u8 && b[1] == (v >> 16u32) as u8 && b[2] == (v >> 8u32) as u8
        && b[3] == v as u8);
    assert(((((v >> 24u32) as u8) as u32) << 24u32) | ((((v >> 16u32) as u8) as u32) << 16u32) | ((
    ((v >> 8u32) as u8) as u32) << 8u32) | ((v as u8) as u32) == v) by (bit_vector);
}

pub proof fn lemma_le_u64(v: u64, rest: Seq<u8>)
    ensures
        le_u64_bytes(v).len() == 8,
        parse_u64(le_u64_bytes(v) + rest) == Some((v, 8nat)),
{
    let b = le_u64_bytes(v) + rest;
    assert(b[0] == v as u8 && b[1] == (v >> 8u64) as u8 && b[2] == (v >> 16u64) as u8 && b[3] == (
    v >> 24u64) as u8 && b[4] == (v >> 32u64) as u8 && b[5] == (v >> 40u64) as u8 && b[6] == (v
        >> 48u64) as u8 && b[7] == (v >> 56u64) as u8);
    assert(((v as u8) as u64) | ((((v >> 8u64) as u8) as u64) << 8u64) | ((((v >> 16u64) as u8)
        as u64) << 16u64) | ((((v >> 24u64) as u8) as u64) << 24u64) | ((((v >> 32u64) as u8)
        as u64) << 32u64) | ((((v >> 40u64) as u8) as u64) << 40u64) | ((((v >> 48u64) as u8)
        as u64) << 48u64) | ((((v >> 56u64) as u8) as u64) << 56u64) == v) by (bit_vector);
}

pub proof fn lemma_bytes(b: Seq<u8>, rest: Seq<u8>)
    requires
        b.len() <= u32::MAX,
    ensures
        parse_bytes(enc_bytes(b) + rest) == Some((b, enc_bytes(b).len())),
        enc_bytes(b).len() == 4 + b.len(),
{
    let all = enc_bytes(b) + rest;
    lemma_le_u32(b.len() as u32, b + rest);
    assert(all == le_u32_bytes(b.len() as u32) + (b + rest));
    assert(all.subrange(4, 4 + b.len() as int) == b);
}

pub proof fn lemma_str(s: Seq<char>, rest: Seq<u8>)
    requires
        encode_utf8(s).len() <= u32::MAX,
    ensures
        parse_str(enc_str(s) + rest) == Some((s, enc_str(s).len())),
{
    lemma_bytes(encode_utf8(s), rest);
}

/// Appends `u32_le(v)`.
pub fn put_u32(out: &mut Vec<u8>, v: u32)
    ensures
        final(out)@ == old(out)@ + le_u32_bytes(v),
{
    out.push(v as u8);
    out.push((v >> 8u32) as u8);
    out.push((v >> 16u32) as u8);
    out.push((v >> 24u32) as u8);
}

/// Appends `u64_le(v)`.
pub fn put_u64(out: &mut Vec<u8>, v: u64)
    ensures
        final(out)@ == old(out)@ + le_u64_bytes(v),
{
    out.push(v as u8);
    out.push((v >> 8u64) as u8);
    out.push((v >> 16u64) as u8);
    out.push((v >> 24u64) as u8);
    out.push((v >> 32u64) as u8);
    out.push((v >> 40u64) as u8);
    out.push((v >> 48u64) as u8);
    out.push((v >> 56u64) as u8);
}

/// Appends all of `src`.
pub fn put_slice(out: &mut Vec<u8>, src: &[u8])
    ensures
        final(out)@ == old(out)@ + src@,
{
    let mut i: usize = 0;
    while i < src.len()
        invariant
            i <= src@.len(),
            out@ == old(out)@ + src@.take(i as int),
        decreases src@.len() - i,
    {
        out.push(src[i]);
        i = i + 1;
        assert(src@.take(i as int) == src@.take(i - 1) + seq![src@[i - 1]]);
    }
    assert(src@.take(src@.len() as int) == src@);
}

/// Appends `u32_le(len) || bytes`.
pub fn put_bytes(out: &mut Vec<u8>, src: &[u8])
    requires
        src@.len() <= u32::MAX,
    ensures
        final(out)@ == old(out)@ + enc_bytes(src@),
{
    put_u32(out, src.len() as u32);
    put_slice(out, src);
    assert(out@ == old(out)@ + enc_bytes(src@));
}

/// Appends `u32_le(len) || utf8`.
pub fn put_str(out: &mut Vec<u8>, s: &str)
    requires
        encode_utf8(s@).len() <= u32::MAX,
    ensures
        final(out)@ == old(out)@ + enc_str(s@),
{
    put_bytes(out, s.as_bytes());
}

/// Reads a `u32_le` at `pos`.
pub fn get_u32(b: &[u8], pos: usize) -> (r: Option<(u32, usize)>)
    requires
        pos <= b@.len(),
    ensures
        match parse_u32(b@.skip(pos as int)) {
            None => r is None,
            Some((v, k)) => r == Some((v, (pos + k) as usize)),
        },
{
    if b.len() - pos < 4 {
        return None;
    }
    let v = (b[pos] as u32) | ((b[pos + 1] as u32) << 8u32) | ((b[pos + 2] as u32) << 16u32) | ((
    b[pos + 3] as u32) << 24u32);
    let ghost t = b@.skip(pos as int);
    assert(t[0] == b@[pos as int] && t[1] == b@[pos + 1] && t[2] == b@[pos + 2] && t[3] == b@[pos
        + 3]);
    Some((v, pos + 4))
}

/// Reads a `u64_le` at `pos`.
pub fn get_u64(b: &[u8], pos: usize) -> (r: Option<(u64, usize)>)
    requires
        pos <= b@.len(),
    ensures
        match parse_u64(b@.skip(pos as int)) {
            None => r is None,
            Some((v, k)) => r == Some((v, (pos + k) as usize)),
        },
{
    if b.len() - pos < 8 {
        return None;
    }
    let v = (b[pos] as u64) | ((b[pos + 1] as u64) << 8u64) | ((b[pos + 2] as u64) << 16u64) | ((
    b[pos + 3] as u64) << 24u64) | ((b[pos + 4] as u64) << 32u64) | ((b[pos + 5] as u64) << 40u64)
        | ((b[pos + 6] as u64) << 48u64) | ((b[pos + 7] as u64) << 56u64);
    let ghost t = b@.skip(pos as int);
    assert(t[0] == b@[pos as int] && t[1] == b@[pos + 1] && t[2] == b@[pos + 2] && t[3] == b@[pos
        + 3] && t[4] == b@[pos + 4] && t[5] == b@[pos + 5] && t[6] == b@[pos + 6] && t[7] == b@[pos
        + 7]);
    Some((v, pos + 8))
}

/// A copy of `b[from..to]`.
pub fn copy_range(b: &[u8], from: usize, to: usize) -> (r: Vec<u8>)
    requires
        from <= to <= b@.len(),
    ensures
        r@ == b@.subrange(from as int, to as int),
{
    let mut out: Vec<u8> = Vec::new();
    let mut i: usize = from;
    while i < to
        invariant
            from <= i <= to,
            to <= b@.len(),
            out@ == b@.subrange(from as int, i as int),
        decreases to - i,
    {
        out.push(b[i]);
        i = i + 1;
    }
    out
}

/// Reads a length-prefixed byte string at `pos`.
pub fn get_bytes(b: &[u8], pos: usize) -> (r: Option<(Vec<u8>, usize)>)
    requires
        pos <= b@.len(),
    ensures
        match parse_bytes(b@.skip(pos as int)) {
            None => r is None,
            Some((v, k)) => r matches Some((x, p)) && x@ == v && p == pos + k,
        },
{
    match get_u32(b, pos) {
        None => None,
        Some((n, p)) => {
            if b.len() - p < n as usize {
                return None;
            }
            let end = p + n as usize;
            let x = copy_range(b, p, end);
            assert(x@ == b@.skip(pos as int).subrange(4, 4 + n as int));
            Some((x, end))
        },
    }
}

/// Relies on std's `str::from_utf8`: it accepts exactly the valid UTF-8 byte
/// strings, and the string it returns has those bytes.
#[verifier::external_body]
fn utf8_to_string(b: &[u8]) -> (r: Option<String>)
    ensures
        r is Some <==> valid_utf8(b@),
        r is Some ==> r->0@ == decode_utf8(b@),
{
    std::str::from_utf8(b).ok().map(|s| s.to_string())
}

/// Reads a length-prefixed UTF-8 string at `pos`.
pub fn get_str(b: &[u8], pos: usize) -> (r: Option<(String, usize)>)
    requires
        pos <= b@.len(),
    ensures
        match parse_str(b@.skip(pos as int)) {
            None => r is None,
            Some((v, k)) => r matches Some((x, p)) && x@ == v && p == pos + k,
        },
{
    match get_bytes(b, pos) {
        None => None,
        Some((raw, p)) => match utf8_to_string(raw.as_slice()) {
            None => None,
            Some(s) => Some((s, p)),
        },
    }
}

} // verus!
