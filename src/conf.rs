use vstd::prelude::*;

verus! {

/// Minimum number of characters of a password.
pub const PASSWORD_LEN: usize = 16;

/// Bytes of the identifier, a Blake2s-256 digest.
pub const ID_SIZE: usize = 32;

/// Bytes of one SPAKE2 element as it travels on the wire.
pub const HANDSHAKE_MSG_SIZE: usize = 33;

/// Bytes that each client writes to the relay before anything else.
pub const HANDSHAKE_PREFIX_SIZE: usize = 65;

/// Bytes of the session key.
pub const KEY_SIZE: usize = 32;

/// Bytes of an AES-GCM nonce.
pub const NONCE_SIZE_IN_BYTES: usize = 12;

/// Bytes of the per-file stream session id.
pub const SESSION_ID_SIZE: usize = 8;

/// Bytes of the authentication tag that AES-GCM appends.
pub const TAG_SIZE: usize = 16;

/// Size of the plaintext buffer that the sender reads per chunk.
pub const BUFFER_SIZE: usize = 65536;

/// Largest frame payload accepted on the wire (16 MiB).
pub const MAX_FRAME_SIZE: usize = 16777216;

} // verus!
