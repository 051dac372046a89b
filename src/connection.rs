//! A session after the handshake: control messages sealed under random nonces,
//! data chunks sealed under the stream nonces of one file, all in frames.
use vstd::prelude::*;

use crate::conf::{KEY_SIZE, MAX_FRAME_SIZE, NONCE_SIZE_IN_BYTES, TAG_SIZE};
use crate::crypto::{control_open, gcm_seal, Crypt};
use crate::frame::{
    encode_frame, frame_bytes, kind_byte, lemma_frame_round_trip, parse_frame, split_wire,
    wire_payload, FrameParse, WireKind, CONTROL_BYTE,
};
use crate::message::{
    encodable, encode_message, lemma_message_round_trip, parse_message, Message, MessageView,
    RuckError,
};

verus! {

/// Largest serialized control message that still fits in one frame.
pub const MAX_CONTROL_MESSAGE: usize = 16777187;

/// What a frame payload opens to on a control channel under `key`.
pub open spec fn open_control(key: Seq<u8>, payload: Seq<u8>) -> Result<MessageView, RuckError> {
    if payload.len() < 1 || payload[0] != CONTROL_BYTE {
        Err(RuckError::ProtocolError)
    } else {
        match control_open(key, payload.skip(1)) {
            None => Err(RuckError::CryptoFailed),
            Some(pt) => match parse_message(pt) {
                None => Err(RuckError::ProtocolError),
                Some(m) => Ok(m),
            },
        }
    }
}

/// `frame` is one whole frame whose payload is a control frame that opens under
/// `key` to the bytes of `m`.
pub open spec fn sealed_control_frame(key: Seq<u8>, m: MessageView, frame: Seq<u8>) -> bool {
    match parse_frame(frame) {
        FrameParse::Complete(p, used) => used == frame.len() && p.len() >= 1 && p[0]
            == CONTROL_BYTE && control_open(key, p.skip(1)) == Some(encode_message(m)),
        _ => false,
    }
}

/// The payload of a whole frame.
pub open spec fn frame_payload(frame: Seq<u8>) -> Seq<u8> {
    match parse_frame(frame) {
        FrameParse::Complete(p, _) => p,
        _ => Seq::empty(),
    }
}

/// A control message sealed and framed under a key opens under the same key to
/// the message itself.
pub proof fn lemma_control_round_trip(key: Seq<u8>, m: MessageView, frame: Seq<u8>)
    requires
        encodable(m),
        sealed_control_frame(key, m, frame),
    ensures
        open_control(key, frame_payload(frame)) == Ok::<MessageView, RuckError>(m),
{
    lemma_message_round_trip(m);
}

/// The crypto state of one session.
pub struct Connection {
    crypt: Crypt,
}

impl Connection {
    pub closed spec fn key(&self) -> Seq<u8> {
        self.crypt.key()
    }

    pub closed spec fn wf(&self) -> bool {
        self.crypt.wf()
    }

    pub fn new(key: &Vec<u8>) -> (r: Connection)
        requires
            key@.len() == KEY_SIZE,
        ensures
            r.wf(),
            r.key() == key@,
    {
        Connection { crypt: Crypt::new(key) }
    }

    /// The session key, for the stream cipher of a file.
    pub fn key_bytes(&self) -> (r: Vec<u8>)
        requires
            self.wf(),
        ensures
            r@ == self.key(),
            r@.len() == KEY_SIZE,
    {
        self.crypt.key_bytes()
    }

    /// The frame that carries `msg`: serialized, sealed under a fresh nonce,
    /// marked as control. An error when the message cannot be serialized or
    /// does not fit in a frame.
    pub fn seal_msg(&self, msg: &Message) -> (r: Result<Vec<u8>, RuckError>)
        requires
            self.wf(),
        ensures
            r is Ok <==> encodable(msg@) && encode_message(msg@).len() <= MAX_CONTROL_MESSAGE,
            r is Ok ==> sealed_control_frame(self.key(), msg@, r->Ok_0@),
            r is Ok ==> {
                let p = frame_payload(r->Ok_0@);
                &&& r->Ok_0@ == frame_bytes(p)
                &&& p.len() == 1 + NONCE_SIZE_IN_BYTES + encode_message(msg@).len() + TAG_SIZE
                &&& p[0] == CONTROL_BYTE
                &&& p.skip(1 + NONCE_SIZE_IN_BYTES) == gcm_seal(
                    self.key(),
                    p.subrange(1, 1 + NONCE_SIZE_IN_BYTES),
                    encode_message(msg@),
                )
            },
            r is Err ==> r->Err_0 == RuckError::ProtocolError,
    {
        let plain = match msg.serialize() {
            Ok(p) => p,
            Err(e) => return Err(e),
        };
        if plain.len() > MAX_CONTROL_MESSAGE {
            return Err(RuckError::ProtocolError);
        }
        let sealed = match self.crypt.encrypt(&plain) {
            Ok(c) => c,
            Err(_) => return Err(RuckError::CryptoFailed),
        };
        let payload = wire_payload(WireKind::Control, sealed.as_slice());
        assert(payload@.skip(1) == sealed@);
        assert(payload@.skip(1 + NONCE_SIZE_IN_BYTES) == sealed@.skip(NONCE_SIZE_IN_BYTES as int));
        assert(payload@.subrange(1, 1 + NONCE_SIZE_IN_BYTES) == sealed@.take(NONCE_SIZE_IN_BYTES as int));
        let frame = encode_frame(payload.as_slice());
        proof {
            lemma_frame_round_trip(payload@, Seq::empty());
            assert(frame_bytes(payload@) + Seq::<u8>::empty() == frame_bytes(payload@));
        }
        frame
    }

    /// The control message in a frame payload: a protocol error when the frame
    /// is not a control frame or does not hold a message, a crypto failure when
    /// it does not decrypt.
    pub fn open_msg(&self, payload: &[u8]) -> (r: Result<Message, RuckError>)
        requires
            self.wf(),
        ensures
            match open_control(self.key(), payload@) {
                Ok(m) => r matches Ok(x) && x@ == m,
                Err(e) => r == Err::<Message, RuckError>(e),
            },
    {
        let (kind, body) = match split_wire(payload) {
            Ok(x) => x,
            Err(e) => return Err(e),
        };
        match kind {
            WireKind::Data => {
                return Err(RuckError::ProtocolError);
            },
            WireKind::Control => {},
        }
        assert(payload@.skip(1) == body@);
        let plain = match self.crypt.decrypt(&body) {
            Ok(p) => p,
            Err(_) => return Err(RuckError::CryptoFailed),
        };
        Message::deserialize(plain.as_slice())
    }
}

/// The frame that carries a sealed data chunk; an error when it does not fit.
pub fn data_frame(ciphertext: &[u8]) -> (r: Result<Vec<u8>, RuckError>)
    ensures
        r is Ok <==> ciphertext@.len() + 1 <= MAX_FRAME_SIZE,
        r is Ok ==> r->Ok_0@ == frame_bytes(seq![kind_byte(WireKind::Data)] + ciphertext@),
        r is Err ==> r->Err_0 == RuckError::ProtocolError,
{
    let payload = wire_payload(WireKind::Data, ciphertext);
    encode_frame(payload.as_slice())
}

} // verus!
