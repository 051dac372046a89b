//! Frames on the byte stream (`u32_be(len) || payload`) and the type byte that
//! tells a control frame from a data frame.
use vstd::prelude::*;

use crate::codec::{be_u32_bytes, copy_range, from_be_u32, lemma_be_u32, put_slice};
use crate::conf::{MAX_FRAME_SIZE, NONCE_SIZE_IN_BYTES};
use crate::message::RuckError;

verus! {

/// Type byte of a frame that carries an encrypted control message.
pub const CONTROL_BYTE: u8 = 0;

/// Type byte of a frame that carries an encrypted data chunk.
pub const DATA_BYTE: u8 = 1;

/// What a frame carries.
#[derive(Debug, Clone, Copy, PartialEq, Eq, Structural)]
pub enum WireKind {
    Control,
    Data,
}

pub open spec fn kind_byte(k: WireKind) -> u8 {
    match k {
        WireKind::Control => CONTROL_BYTE,
        WireKind::Data => DATA_BYTE,
    }
}

/// A frame: the payload's length as a big-endian `u32`, then the payload.
pub open spec fn frame_bytes(payload: Seq<u8>) -> Seq<u8> {
    be_u32_bytes(payload.len() as u32) + payload
}

/// What a receive buffer holds at its front.
pub enum FrameParse {
    /// Not enough bytes yet for the header or for the payload it announces.
    Incomplete,
    /// The header announces more than the largest frame.
    TooLarge,
    /// A whole frame: its payload and the bytes it took.
    Complete(Seq<u8>, nat),
}

pub open spec fn parse_frame(b: Seq<u8>) -> FrameParse {
    if b.len() < 4 {
        FrameParse::Incomplete
    } else {
        let n = from_be_u32(b) as nat;
        if n > MAX_FRAME_SIZE {
            FrameParse::TooLarge
        } else if b.len() < 4 + n {
            FrameParse::Incomplete
        } else {
            FrameParse::Complete(b.subrange(4, 4 + n as int), 4 + n)
        }
    }
}

/// A frame read back from the front of a buffer is the payload that was framed,
/// whatever follows it.
pub proof fn lemma_frame_round_trip(payload: Seq<u8>, rest: Seq<u8>)
    requires
        payload.len() <= MAX_FRAME_SIZE,
    ensures
        parse_frame(frame_bytes(payload) + rest) == FrameParse::Complete(payload, 4 + payload.len()),
{
    let b = frame_bytes(payload) + rest;
    lemma_be_u32(payload.len() as u32, payload + rest);
    assert(b == be_u32_bytes(payload.len() as u32) + (payload + rest));
    assert(b.subrange(4, 4 + payload.len() as int) == payload);
}

/// Frames `payload`; an error when it is larger than the largest frame.
pub fn encode_frame(payload: &[u8]) -> (r: Result<Vec<u8>, RuckError>)
    ensures
        r is Ok <==> payload@.len() <= MAX_FRAME_SIZE,
        r is Ok ==> r->Ok_0@ == frame_bytes(payload@),
        r is Err ==> r->Err_0 == RuckError::ProtocolError,
{
    if payload.len() > MAX_FRAME_SIZE {
        return Err(RuckError::ProtocolError);
    }
    let n = payload.len() as u32;
    let mut out: Vec<u8> = Vec::new();
    out.push((n >> 24u32) as u8);
    out.push((n >> 16u32) as u8);
    out.push((n >> 8u32) as u8);
    out.push(n as u8);
    put_slice(&mut out, payload);
    assert(out@ == frame_bytes(payload@));
    Ok(out)
}

/// The payload length that a 4-byte frame header announces; an error when it
/// is larger than the largest frame.
pub fn frame_length(header: &[u8]) -> (r: Result<usize, RuckError>)
    requires
        header@.len() == 4,
    ensures
        r is Ok <==> from_be_u32(header@) <= MAX_FRAME_SIZE,
        r is Ok ==> r->Ok_0 == from_be_u32(header@),
        r is Err ==> r->Err_0 == RuckError::ProtocolError,
{
    let n = ((header[0] as u32) << 24u32) | ((header[1] as u32) << 16u32) | ((header[2] as u32)
        << 8u32) | (header[3] as u32);
    if n as usize > MAX_FRAME_SIZE {
        Err(RuckError::ProtocolError)
    } else {
        Ok(n as usize)
    }
}

/// Takes the frame at the front of `buf`: its payload and the bytes it took,
/// `None` while more bytes are needed, an error on an oversized header.
pub fn decode_frame(buf: &[u8]) -> (r: Result<Option<(Vec<u8>, usize)>, RuckError>)
    ensures
        match parse_frame(buf@) {
            FrameParse::Incomplete => r == Ok::<Option<(Vec<u8>, usize)>, RuckError>(None),
            FrameParse::TooLarge => r == Err::<Option<(Vec<u8>, usize)>, RuckError>(
                RuckError::ProtocolError,
            ),
            FrameParse::Complete(p, k) => r matches Ok(Some((x, used))) && x@ == p && used == k,
        },
{
    if buf.len() < 4 {
        return Ok(None);
    }
    let n = match frame_length(copy_range(buf, 0, 4).as_slice()) {
        Ok(n) => n,
        Err(e) => return Err(e),
    };
    assert(buf@.subrange(0, 4)[0] == buf@[0] && buf@.subrange(0, 4)[1] == buf@[1]
        && buf@.subrange(0, 4)[2] == buf@[2] && buf@.subrange(0, 4)[3] == buf@[3]);
    if buf.len() - 4 < n {
        return Ok(None);
    }
    Ok(Some((copy_range(buf, 4, 4 + n), 4 + n)))
}

/// The payload of a frame: the type byte, then the body.
pub fn wire_payload(kind: WireKind, body: &[u8]) -> (r: Vec<u8>)
    ensures
        r@ == seq![kind_byte(kind)] + body@,
{
    let mut out: Vec<u8> = Vec::new();
    out.push(
        match kind {
            WireKind::Control => CONTROL_BYTE,
            WireKind::Data => DATA_BYTE,
        },
    );
    put_slice(&mut out, body);
    out
}

/// Splits a frame payload into its type and its body; an error on an empty
/// payload or an unknown type byte.
pub fn split_wire(payload: &[u8]) -> (r: Result<(WireKind, Vec<u8>), RuckError>)
    ensures
        r is Ok <==> payload@.len() >= 1 && (payload@[0] == CONTROL_BYTE || payload@[0]
            == DATA_BYTE),
        r matches Ok((k, body)) ==> payload@ == seq![kind_byte(k)] + body@,
        r is Err ==> r->Err_0 == RuckError::ProtocolError,
{
    if payload.len() < 1 {
        return Err(RuckError::ProtocolError);
    }
    let kind = if payload[0] == CONTROL_BYTE {
        WireKind::Control
    } else if payload[0] == DATA_BYTE {
        WireKind::Data
    } else {
        return Err(RuckError::ProtocolError);
    };
    let body = copy_range(payload, 1, payload.len());
    assert(payload@ == seq![payload@[0]] + body@);
    Ok((kind, body))
}

/// A control ciphertext split into its nonce and the sealed body.
#[derive(Debug, Clone, PartialEq, Eq)]
pub struct EncryptedPayload {
    pub nonce: Vec<u8>,
    pub body: Vec<u8>,
}

impl EncryptedPayload {
    /// Splits the wire form `nonce || body`; an error when it is shorter than a
    /// nonce.
    pub fn from_wire(wire: &[u8]) -> (r: Result<EncryptedPayload, RuckError>)
        ensures
            r is Ok <==> wire@.len() >= NONCE_SIZE_IN_BYTES,
            r is Ok ==> r->Ok_0.nonce@.len() == NONCE_SIZE_IN_BYTES,
            r is Ok ==> r->Ok_0.nonce@ + r->Ok_0.body@ == wire@,
            r is Err ==> r->Err_0 == RuckError::CryptoFailed,
    {
        if wire.len() < NONCE_SIZE_IN_BYTES {
            return Err(RuckError::CryptoFailed);
        }
        let nonce = copy_range(wire, 0, NONCE_SIZE_IN_BYTES);
        let body = copy_range(wire, NONCE_SIZE_IN_BYTES, wire.len());
        assert(nonce@ + body@ == wire@);
        Ok(EncryptedPayload { nonce, body })
    }

    /// The wire form `nonce || body`.
    pub fn to_wire(&self) -> (r: Vec<u8>)
        ensures
            r@ == self.nonce@ + self.body@,
    {
        let mut out: Vec<u8> = Vec::new();
        put_slice(&mut out, self.nonce.as_slice());
        put_slice(&mut out, self.body.as_slice());
        out
    }
}

} // verus!
