//! The password-authenticated key exchange: the identifier that the relay pairs
//! on, the 65 bytes that each client sends first, and the session key.
use vstd::prelude::*;
use vstd::utf8::*;

use crate::codec::{copy_range, put_slice};
use crate::conf::{HANDSHAKE_MSG_SIZE, HANDSHAKE_PREFIX_SIZE, ID_SIZE, KEY_SIZE};
use crate::message::RuckError;
use blake2::{Blake2s256, Digest};

verus! {

/// The Blake2s-256 digest of `data`.
pub uninterp spec fn blake2s_256(data: Seq<u8>) -> Seq<u8>;

/// Relies on blake2's `Blake2s256` digest: 32 bytes that depend on the input
/// alone.
#[verifier::external_body]
fn blake2s_digest(data: &[u8]) -> (r: Vec<u8>)
    ensures
        r@ == blake2s_256(data@),
        r@.len() == ID_SIZE,
{
    let mut hasher = Blake2s256::new();
    hasher.update(data);
    hasher.finalize().to_vec()
}

/// The identifier of a password: the Blake2s-256 digest of its UTF-8 bytes.
pub open spec fn password_id(pw: Seq<char>) -> Seq<u8> {
    blake2s_256(encode_utf8(pw))
}

/// Two peers that hold the same password present the same identifier,
/// whatever SPAKE2 elements they send with it.
pub proof fn lemma_same_password_same_id(pw1: String, pw2: String, h1: Handshake, h2: Handshake)
    requires
        pw1@ == pw2@,
        h1.id@ == password_id(pw1@),
        h2.id@ == password_id(pw2@),
    ensures
        h1.id@ == h2.id@,
        h1.id@ == blake2s_256(encode_utf8(pw1@)),
{
}

/// The first bytes that a client sends: its identifier and its SPAKE2 element.
#[derive(Debug, Clone, PartialEq, Eq)]
pub struct Handshake {
    pub id: Vec<u8>,
    pub outbound_msg: Vec<u8>,
}

impl Handshake {
    pub open spec fn wf(&self) -> bool {
        self.id@.len() == ID_SIZE && self.outbound_msg@.len() == HANDSHAKE_MSG_SIZE
    }

    /// The identifier of `password`.
    pub fn pass_to_bytes(password: &String) -> (r: Vec<u8>)
        ensures
            r@ == password_id(password@),
            r@.len() == ID_SIZE,
    {
        blake2s_digest(password.as_str().as_bytes())
    }

    /// The handshake that a client holding `pw` sends: its identifier, the
    /// Blake2s-256 digest of the password, and the 33-byte SPAKE2 element
    /// that its exchange produced.
    pub fn from_password(pw: &String, outbound_msg: Vec<u8>) -> (r: Handshake)
        requires
            outbound_msg@.len() == HANDSHAKE_MSG_SIZE,
        ensures
            r.wf(),
            r.id@ == password_id(pw@),
            r.id@ == blake2s_256(encode_utf8(pw@)),
            r.outbound_msg@ == outbound_msg@,
    {
        let id = Handshake::pass_to_bytes(pw);
        Handshake { id, outbound_msg }
    }

    /// Reads a handshake from the 65 bytes that a client sent first; an error
    /// for any other length.
    pub fn from_buffer(buffer: &[u8]) -> (r: Result<Handshake, RuckError>)
        ensures
            r is Ok <==> buffer@.len() == HANDSHAKE_PREFIX_SIZE,
            r is Ok ==> r->Ok_0.wf(),
            r is Ok ==> r->Ok_0.id@ + r->Ok_0.outbound_msg@ == buffer@,
            r is Err ==> r->Err_0 == RuckError::HandshakeIoError,
    {
        if buffer.len() != HANDSHAKE_PREFIX_SIZE {
            return Err(RuckError::HandshakeIoError);
        }
        let id = copy_range(buffer, 0, ID_SIZE);
        let outbound_msg = copy_range(buffer, ID_SIZE, HANDSHAKE_PREFIX_SIZE);
        assert(id@ + outbound_msg@ == buffer@);
        Ok(Handshake { id, outbound_msg })
    }

    /// The bytes on the wire: `id || element`.
    pub fn to_bytes(&self) -> (r: Vec<u8>)
        requires
            self.wf(),
        ensures
            r@ == self.id@ + self.outbound_msg@,
            r@.len() == HANDSHAKE_PREFIX_SIZE,
    {
        let mut out: Vec<u8> = Vec::new();
        put_slice(&mut out, self.id.as_slice());
        put_slice(&mut out, self.outbound_msg.as_slice());
        out
    }

    /// Whether the peer's response can be handed to SPAKE2: exactly 33 bytes.
    pub fn check_response(response: &[u8]) -> (r: Result<(), RuckError>)
        ensures
            r is Ok <==> response@.len() == HANDSHAKE_MSG_SIZE,
            r is Err ==> r->Err_0 == RuckError::HandshakeIoError,
    {
        if response.len() != HANDSHAKE_MSG_SIZE {
            Err(RuckError::HandshakeIoError)
        } else {
            Ok(())
        }
    }

    /// The session key from what SPAKE2's finish returned: a rejection when it
    /// failed or gave a key of the wrong size.
    pub fn session_key(finished: Option<Vec<u8>>) -> (r: Result<Vec<u8>, RuckError>)
        ensures
            r is Ok <==> finished is Some && finished->0@.len() == KEY_SIZE,
            r is Ok ==> r->Ok_0@ == finished->0@,
            r is Err ==> r->Err_0 == RuckError::HandshakeRejected,
    {
        match finished {
            Some(key) => if key.len() == KEY_SIZE {
                Ok(key)
            } else {
                Err(RuckError::HandshakeRejected)
            },
            None => Err(RuckError::HandshakeRejected),
        }
    }
}

} // verus!
