use vstd::prelude::*;

use crate::codec::{copy_range, put_slice};
use crate::conf::{KEY_SIZE, NONCE_SIZE_IN_BYTES, SESSION_ID_SIZE, TAG_SIZE};
use aes_gcm::aead::{Aead, NewAead};
use aes_gcm::{Aes256Gcm, Key, Nonce};
use rand::RngCore;

verus! {

/// Largest plaintext, in bytes, that is sealed: below the 2^36 - 16 bytes at
/// which the 32-bit block counter of AES-GCM's keystream runs out.
pub const MAX_PLAINTEXT: u64 = 0xF_FFFF_FFE0;

/// AES-256-GCM encryption of `plaintext` under `key` and `nonce`, without
/// associated data: the ciphertext followed by the 16-byte tag.
pub uninterp spec fn gcm_seal(key: Seq<u8>, nonce: Seq<u8>, plaintext: Seq<u8>) -> Seq<u8>;

/// AES-256-GCM decryption of `ciphertext` under `key` and `nonce`, without
/// associated data: `None` when the tag does not verify.
pub uninterp spec fn gcm_open(key: Seq<u8>, nonce: Seq<u8>, ciphertext: Seq<u8>) -> Option<Seq<u8>>;

/// Relies on aes_gcm's `Aes256Gcm::encrypt` (aead's `Aead::encrypt`): on a
/// plaintext short enough for the keystream it succeeds, appends a 16-byte
/// tag, and what it returns decrypts under the same key and nonce to the
/// plaintext.
#[verifier::external_body]
fn aes_seal(key: &[u8], nonce: &[u8], plaintext: &[u8]) -> (r: Option<Vec<u8>>)
    requires
        key@.len() == KEY_SIZE,
        nonce@.len() == NONCE_SIZE_IN_BYTES,
        plaintext@.len() <= MAX_PLAINTEXT,
    ensures
        r is Some,
        r is Some ==> r->0@ == gcm_seal(key@, nonce@, plaintext@),
        r is Some ==> r->0@.len() == plaintext@.len() + TAG_SIZE,
        r is Some ==> gcm_open(key@, nonce@, r->0@) == Some(plaintext@),
{
    let cipher = Aes256Gcm::new(Key::from_slice(key));
    cipher.encrypt(Nonce::from_slice(nonce), plaintext).ok()
}

/// Relies on aes_gcm's `Aes256Gcm::decrypt` (aead's `Aead::decrypt`): the
/// plaintext when the tag verifies, an error otherwise, and always an error on
/// a ciphertext shorter than the tag.
#[verifier::external_body]
fn aes_open(key: &[u8], nonce: &[u8], ciphertext: &[u8]) -> (r: Option<Vec<u8>>)
    requires
        key@.len() == KEY_SIZE,
        nonce@.len() == NONCE_SIZE_IN_BYTES,
        ciphertext@.len() <= MAX_PLAINTEXT + TAG_SIZE,
    ensures
        ciphertext@.len() < TAG_SIZE ==> r is None,
        r is Some <==> gcm_open(key@, nonce@, ciphertext@) is Some,
        r is Some ==> gcm_open(key@, nonce@, ciphertext@) == Some(r->0@),
{
    let cipher = Aes256Gcm::new(Key::from_slice(key));
    cipher.decrypt(Nonce::from_slice(nonce), ciphertext).ok()
}

/// Relies on rand's `RngCore::fill_bytes` on the thread-local generator, which
/// overwrites the whole buffer with random bytes.
#[verifier::external_body]
fn random_bytes(n: usize) -> (r: Vec<u8>)
    ensures
        r@.len() == n,
{
    let mut buf = vec![0u8; n];
    rand::thread_rng().fill_bytes(&mut buf);
    buf
}

/// A fresh random stream session id for one file.
pub fn new_session_id() -> (r: Vec<u8>)
    ensures
        r@.len() == SESSION_ID_SIZE,
{
    random_bytes(SESSION_ID_SIZE)
}

/// Why an encryption or a decryption did not happen.
#[derive(Debug, Clone, Copy, PartialEq, Eq, Structural)]
pub enum CryptoError {
    EncryptFailed,
    DecryptFailed,
    NonceExhausted,
}

/// What opening `ciphertext` gives: nothing when it is shorter than the tag or
/// longer than the largest sealed plaintext with its tag, else AES-GCM's answer.
pub open spec fn aead_open(key: Seq<u8>, nonce: Seq<u8>, ciphertext: Seq<u8>) -> Option<Seq<u8>> {
    if ciphertext.len() < TAG_SIZE || ciphertext.len() > MAX_PLAINTEXT + TAG_SIZE {
        None
    } else {
        gcm_open(key, nonce, ciphertext)
    }
}

/// What a control ciphertext on the wire (`nonce || ciphertext`) decrypts to.
pub open spec fn control_open(key: Seq<u8>, wire: Seq<u8>) -> Option<Seq<u8>> {
    if wire.len() < NONCE_SIZE_IN_BYTES {
        None
    } else {
        aead_open(key, wire.take(NONCE_SIZE_IN_BYTES as int), wire.skip(NONCE_SIZE_IN_BYTES as int))
    }
}

/// The control cipher: one session key, a fresh random nonce per message.
pub struct Crypt {
    key: Vec<u8>,
}

impl Crypt {
    /// The session key.
    pub closed spec fn key(&self) -> Seq<u8> {
        self.key@
    }

    pub closed spec fn wf(&self) -> bool {
        self.key@.len() == KEY_SIZE
    }

    pub fn new(key: &Vec<u8>) -> (r: Crypt)
        requires
            key@.len() == KEY_SIZE,
        ensures
            r.wf(),
            r.key() == key@,
    {
        Crypt { key: key.clone() }
    }

    /// A copy of the session key.
    pub fn key_bytes(&self) -> (r: Vec<u8>)
        requires
            self.wf(),
        ensures
            r@ == self.key(),
            r@.len() == KEY_SIZE,
    {
        self.key.clone()
    }

    /// Encrypts under a fresh random nonce; the wire form carries the nonce as
    /// a prefix.
    pub fn encrypt(&self, plaintext: &Vec<u8>) -> (r: Result<Vec<u8>, CryptoError>)
        requires
            self.wf(),
        ensures
            plaintext@.len() <= MAX_PLAINTEXT <==> r is Ok,
            r is Err ==> r->Err_0 == CryptoError::EncryptFailed,
            r is Ok ==> r->Ok_0@.len() == NONCE_SIZE_IN_BYTES + plaintext@.len() + TAG_SIZE,
            r is Ok ==> r->Ok_0@.skip(NONCE_SIZE_IN_BYTES as int) == gcm_seal(
                self.key(),
                r->Ok_0@.take(NONCE_SIZE_IN_BYTES as int),
                plaintext@,
            ),
            r is Ok ==> control_open(self.key(), r->Ok_0@) == Some(plaintext@),
    {
        let nonce = random_bytes(NONCE_SIZE_IN_BYTES);
        if plaintext.len() as u64 > MAX_PLAINTEXT {
            return Err(CryptoError::EncryptFailed);
        }
        match aes_seal(self.key.as_slice(), nonce.as_slice(), plaintext.as_slice()) {
            Some(body) => {
                let mut wire = nonce;
                put_slice(&mut wire, body.as_slice());
                assert(wire@.take(NONCE_SIZE_IN_BYTES as int) == nonce@);
                assert(wire@.skip(NONCE_SIZE_IN_BYTES as int) == body@);
                Ok(wire)
            },
            None => Err(CryptoError::EncryptFailed),
        }
    }

    /// Decrypts the wire form `nonce || ciphertext`.
    pub fn decrypt(&self, wire: &Vec<u8>) -> (r: Result<Vec<u8>, CryptoError>)
        requires
            self.wf(),
        ensures
            r is Ok <==> control_open(self.key(), wire@) is Some,
            r is Ok ==> control_open(self.key(), wire@) == Some(r->Ok_0@),
            r is Err ==> r->Err_0 == CryptoError::DecryptFailed,
    {
        if wire.len() < NONCE_SIZE_IN_BYTES {
            return Err(CryptoError::DecryptFailed);
        }
        let nonce = copy_range(wire.as_slice(), 0, NONCE_SIZE_IN_BYTES);
        if (wire.len() - NONCE_SIZE_IN_BYTES) as u64 > MAX_PLAINTEXT + TAG_SIZE as u64 {
            return Err(CryptoError::DecryptFailed);
        }
        let body = copy_range(wire.as_slice(), NONCE_SIZE_IN_BYTES, wire.len());
        match aes_open(self.key.as_slice(), nonce.as_slice(), body.as_slice()) {
            Some(pt) => Ok(pt),
            None => Err(CryptoError::DecryptFailed),
        }
    }
}

/// The four little-endian bytes of `n`.
pub open spec fn le_u32(n: nat) -> Seq<u8> {
    seq![
        (n % 256) as u8,
        ((n / 256) % 256) as u8,
        ((n / 65536) % 256) as u8,
        ((n / 16777216) % 256) as u8,
    ]
}

/// The stream nonce of chunk `counter`: `u32_le(counter) || session_id`.
pub open spec fn stream_nonce(counter: nat, session_id: Seq<u8>) -> Seq<u8> {
    le_u32(counter) + session_id
}

/// What a receiver that starts at counter `start` recovers from `cts`, one
/// chunk per counter value, or `None` when some chunk fails to decrypt or the
/// counter would run out.
pub open spec fn open_stream(key: Seq<u8>, session_id: Seq<u8>, start: nat, cts: Seq<Seq<u8>>) -> Option<Seq<Seq<u8>>>
    decreases cts.len(),
{
    if cts.len() == 0 {
        Some(Seq::empty())
    } else if start >= u32::MAX {
        None
    } else {
        match aead_open(key, stream_nonce(start, session_id), cts[0]) {
            None => None,
            Some(m) => match open_stream(key, session_id, start + 1, cts.skip(1)) {
                None => None,
                Some(rest) => Some(seq![m] + rest),
            },
        }
    }
}

/// A receiver whose counter runs in step with the sender's recovers every chunk
/// in the order it was sent: when chunk `i` was sealed under counter `i` (as
/// [`StreamCipher::encrypt_chunk`] promises), opening the sequence from counter
/// 0 yields exactly the plaintexts.
pub proof fn lemma_stream_in_order(key: Seq<u8>, session_id: Seq<u8>, ms: Seq<Seq<u8>>, cts: Seq<Seq<u8>>)
    requires
        cts.len() == ms.len(),
        ms.len() < u32::MAX,
        forall|i: int| 0 <= i < cts.len() ==> aead_open(key, stream_nonce(i as nat, session_id), #[trigger] cts[i]) == Some(ms[i]),
    ensures
        open_stream(key, session_id, 0, cts) == Some(ms),
{
    lemma_stream_from(key, session_id, 0, ms, cts);
}

proof fn lemma_stream_from(key: Seq<u8>, session_id: Seq<u8>, start: nat, ms: Seq<Seq<u8>>, cts: Seq<Seq<u8>>)
    requires
        cts.len() == ms.len(),
        start + ms.len() < u32::MAX,
        forall|i: int| 0 <= i < cts.len() ==> aead_open(key, stream_nonce(start + i as nat, session_id), #[trigger] cts[i]) == Some(ms[i]),
    ensures
        open_stream(key, session_id, start, cts) == Some(ms),
    decreases cts.len(),
{
    if cts.len() > 0 {
        let cts1 = cts.skip(1);
        let ms1 = ms.skip(1);
        assert forall|i: int| 0 <= i < cts1.len() implies aead_open(key, stream_nonce((start + 1) + i as nat, session_id), #[trigger] cts1[i]) == Some(ms1[i]) by {
            assert(cts1[i] == cts[i + 1]);
            assert((start + 1) + i as nat == start + (i + 1) as nat);
        }
        lemma_stream_from(key, session_id, start + 1, ms1, cts1);
        assert(aead_open(key, stream_nonce(start + 0 as nat, session_id), cts[0]) == Some(ms[0]));
        assert(seq![ms[0]] + ms1 == ms);
    }
}

/// The stream cipher of one file: nonces `u32_le(counter) || session_id`, the
/// counter moving by one per chunk on both sides.
pub struct StreamCipher {
    key: Vec<u8>,
    session_id: Vec<u8>,
    counter: u32,
}

impl StreamCipher {
    pub closed spec fn key(&self) -> Seq<u8> {
        self.key@
    }

    pub closed spec fn session_id(&self) -> Seq<u8> {
        self.session_id@
    }

    pub closed spec fn counter(&self) -> nat {
        self.counter as nat
    }

    pub closed spec fn wf(&self) -> bool {
        self.key@.len() == KEY_SIZE && self.session_id@.len() == SESSION_ID_SIZE
    }

    /// A cipher for one file, its counter at 0.
    pub fn new(key: &Vec<u8>, session_id: &Vec<u8>) -> (r: StreamCipher)
        requires
            key@.len() == KEY_SIZE,
            session_id@.len() == SESSION_ID_SIZE,
        ensures
            r.wf(),
            r.key() == key@,
            r.session_id() == session_id@,
            r.counter() == 0,
    {
        StreamCipher { key: key.clone(), session_id: session_id.clone(), counter: 0 }
    }

    /// The counter of the next chunk.
    pub fn counter_value(&self) -> (r: u32)
        ensures
            r as nat == self.counter(),
    {
        self.counter
    }

    fn nonce(&self) -> (r: Vec<u8>)
        requires
            self.wf(),
        ensures
            r@ == stream_nonce(self.counter(), self.session_id()),
            r@.len() == NONCE_SIZE_IN_BYTES,
    {
        let c = self.counter;
        let mut out: Vec<u8> = Vec::with_capacity(NONCE_SIZE_IN_BYTES);
        out.push((c % 256) as u8);
        out.push(((c / 256) % 256) as u8);
        out.push(((c / 65536) % 256) as u8);
        out.push(((c / 16777216) % 256) as u8);
        assert(out@ == le_u32(c as nat));
        put_slice(&mut out, self.session_id.as_slice());
        out
    }

    /// Seals the next chunk under the current counter, then moves the counter on.
    /// Refuses when the counter has no successor, so that no nonce is used twice.
    pub fn encrypt_chunk(&mut self, plaintext: &Vec<u8>) -> (r: Result<Vec<u8>, CryptoError>)
        requires
            old(self).wf(),
        ensures
            final(self).wf(),
            final(self).key() == old(self).key(),
            final(self).session_id() == old(self).session_id(),
            old(self).counter() >= u32::MAX ==> r == Err::<Vec<u8>, CryptoError>(CryptoError::NonceExhausted),
            old(self).counter() < u32::MAX && plaintext@.len() <= MAX_PLAINTEXT ==> r is Ok,
            r is Err ==> final(self).counter() == old(self).counter(),
            r is Ok ==> final(self).counter() == old(self).counter() + 1,
            r is Ok ==> r->Ok_0@ == gcm_seal(
                old(self).key(),
                stream_nonce(old(self).counter(), old(self).session_id()),
                plaintext@,
            ),
            r is Ok ==> r->Ok_0@.len() == plaintext@.len() + TAG_SIZE,
            r is Ok ==> aead_open(
                old(self).key(),
                stream_nonce(old(self).counter(), old(self).session_id()),
                r->Ok_0@,
            ) == Some(plaintext@),
            r is Err && old(self).counter() < u32::MAX ==> r->Err_0 == CryptoError::EncryptFailed,
    {
        if self.counter == u32::MAX {
            return Err(CryptoError::NonceExhausted);
        }
        if plaintext.len() as u64 > MAX_PLAINTEXT {
            return Err(CryptoError::EncryptFailed);
        }
        let nonce = self.nonce();
        match aes_seal(self.key.as_slice(), nonce.as_slice(), plaintext.as_slice()) {
            Some(ct) => {
                self.counter = self.counter + 1;
                Ok(ct)
            },
            None => Err(CryptoError::EncryptFailed),
        }
    }

    /// Opens the next chunk under the current counter, then moves the counter on.
    pub fn decrypt_chunk(&mut self, ciphertext: &Vec<u8>) -> (r: Result<Vec<u8>, CryptoError>)
        requires
            old(self).wf(),
        ensures
            final(self).wf(),
            final(self).key() == old(self).key(),
            final(self).session_id() == old(self).session_id(),
            old(self).counter() >= u32::MAX ==> r == Err::<Vec<u8>, CryptoError>(CryptoError::NonceExhausted),
            old(self).counter() < u32::MAX ==> (r is Ok <==> aead_open(
                old(self).key(),
                stream_nonce(old(self).counter(), old(self).session_id()),
                ciphertext@,
            ) is Some),
            r is Ok ==> aead_open(
                old(self).key(),
                stream_nonce(old(self).counter(), old(self).session_id()),
                ciphertext@,
            ) == Some(r->Ok_0@),
            r is Err ==> final(self).counter() == old(self).counter(),
            r is Ok ==> final(self).counter() == old(self).counter() + 1,
            r is Err && old(self).counter() < u32::MAX ==> r->Err_0 == CryptoError::DecryptFailed,
    {
        if self.counter == u32::MAX {
            return Err(CryptoError::NonceExhausted);
        }
        if ciphertext.len() as u64 > MAX_PLAINTEXT + TAG_SIZE as u64 {
            return Err(CryptoError::DecryptFailed);
        }
        let nonce = self.nonce();
        match aes_open(self.key.as_slice(), nonce.as_slice(), ciphertext.as_slice()) {
            Some(pt) => {
                self.counter = self.counter + 1;
                Ok(pt)
            },
            None => Err(CryptoError::DecryptFailed),
        }
    }
}

} // verus!
