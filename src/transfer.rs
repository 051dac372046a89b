//! The body of one file on the wire: `FileTransferStart`, then data frames
//! sealed under the file's stream nonces, then `FileTransferComplete`.
use vstd::prelude::*;

use crate::compress::{compress_chunk, decompress_chunk, gunzip, gzip_fast};
use crate::conf::{BUFFER_SIZE, KEY_SIZE, MAX_FRAME_SIZE, SESSION_ID_SIZE, TAG_SIZE};
use crate::connection::{data_frame, open_control, sealed_control_frame, Connection};
use crate::crypto::{aead_open, gcm_seal, stream_nonce, StreamCipher};
use crate::file::StdFileHandle;
use crate::frame::{frame_bytes, parse_frame, split_wire, FrameParse, DATA_BYTE};
use crate::message::{
    Compression, FileTransferStartPayload, Message, MessageView, RuckError,
};

verus! {

/// The plaintext that a receiver recovers from a sealed chunk `ct`, sent as
/// chunk `counter` of the file with stream session `session_id`.
pub open spec fn received_chunk(
    key: Seq<u8>,
    session_id: Seq<u8>,
    counter: nat,
    compression: Compression,
    ct: Seq<u8>,
) -> Option<Seq<u8>> {
    match aead_open(key, stream_nonce(counter, session_id), ct) {
        None => None,
        Some(body) => match compression {
            Compression::Raw => Some(body),
            Compression::Gzip => gunzip(body),
        },
    }
}

/// `frame` is one whole data frame whose chunk the receiver recovers, at
/// `counter`, as `plain`.
pub open spec fn sealed_chunk(
    key: Seq<u8>,
    session_id: Seq<u8>,
    counter: nat,
    compression: Compression,
    plain: Seq<u8>,
    frame: Seq<u8>,
) -> bool {
    match parse_frame(frame) {
        FrameParse::Complete(p, used) => used == frame.len() && p.len() >= 1 && p[0] == DATA_BYTE
            && received_chunk(key, session_id, counter, compression, p.skip(1)) == Some(plain),
        _ => false,
    }
}

/// What a receiver that starts at counter `start` writes for the data frame
/// payloads `payloads`, or `None` when one of them does not open.
pub open spec fn receive_chunks(
    key: Seq<u8>,
    session_id: Seq<u8>,
    compression: Compression,
    start: nat,
    payloads: Seq<Seq<u8>>,
) -> Option<Seq<Seq<u8>>>
    decreases payloads.len(),
{
    if payloads.len() == 0 {
        Some(Seq::empty())
    } else {
        let p = payloads[0];
        if p.len() < 1 || p[0] != DATA_BYTE {
            None
        } else {
            match received_chunk(key, session_id, start, compression, p.skip(1)) {
                None => None,
                Some(m) => match receive_chunks(
                    key,
                    session_id,
                    compression,
                    start + 1,
                    payloads.skip(1),
                ) {
                    None => None,
                    Some(rest) => Some(seq![m] + rest),
                },
            }
        }
    }
}

/// The payloads of a list of whole frames.
pub open spec fn payloads_of(frames: Seq<Seq<u8>>) -> Seq<Seq<u8>> {
    frames.map_values(
        |f: Seq<u8>|
            match parse_frame(f) {
                FrameParse::Complete(p, _) => p,
                _ => Seq::empty(),
            },
    )
}

/// The receiver recovers what the sender read: when the sender sealed chunk
/// `i` of a file at counter `i` (as [`FileSender::on_read`] promises), a
/// receiver that opens the frames in order from counter 0 recovers exactly the
/// chunks, in the order they were read.
pub proof fn lemma_file_delivered(
    key: Seq<u8>,
    session_id: Seq<u8>,
    compression: Compression,
    plains: Seq<Seq<u8>>,
    frames: Seq<Seq<u8>>,
)
    requires
        frames.len() == plains.len(),
        forall|i: int|
            0 <= i < frames.len() ==> sealed_chunk(
                key,
                session_id,
                i as nat,
                compression,
                #[trigger] plains[i],
                frames[i],
            ),
    ensures
        receive_chunks(key, session_id, compression, 0, payloads_of(frames)) == Some(plains),
{
    lemma_delivered_from(key, session_id, compression, 0, plains, frames);
}

proof fn lemma_delivered_from(
    key: Seq<u8>,
    session_id: Seq<u8>,
    compression: Compression,
    start: nat,
    plains: Seq<Seq<u8>>,
    frames: Seq<Seq<u8>>,
)
    requires
        frames.len() == plains.len(),
        forall|i: int|
            0 <= i < frames.len() ==> sealed_chunk(
                key,
                session_id,
                start + i as nat,
                compression,
                #[trigger] plains[i],
                frames[i],
            ),
    ensures
        receive_chunks(key, session_id, compression, start, payloads_of(frames)) == Some(plains),
    decreases frames.len(),
{
    let ps = payloads_of(frames);
    if frames.len() > 0 {
        let f1 = frames.skip(1);
        let p1 = plains.skip(1);
        assert forall|i: int| 0 <= i < f1.len() implies sealed_chunk(
            key,
            session_id,
            (start + 1) + i as nat,
            compression,
            #[trigger] p1[i],
            f1[i],
        ) by {
            assert(p1[i] == plains[i + 1] && f1[i] == frames[i + 1]);
            assert((start + 1) + i as nat == start + (i + 1) as nat);
            assert(sealed_chunk(key, session_id, start + (i + 1) as nat, compression, plains[i + 1], frames[i + 1]));
        }
        lemma_delivered_from(key, session_id, compression, start + 1, p1, f1);
        assert(payloads_of(f1) == ps.skip(1));
        assert(sealed_chunk(key, session_id, start + 0 as nat, compression, plains[0], frames[0]));
        assert(seq![plains[0]] + p1 == plains);
    }
}

/// The bytes that are sealed for a chunk: the chunk itself, or its gzip
/// stream.
pub open spec fn chunk_body(compression: Compression, plain: Seq<u8>) -> Seq<u8> {
    match compression {
        Compression::Raw => plain,
        Compression::Gzip => gzip_fast(plain),
    }
}

/// How a file with this name travels: gzip unless its extension marks it as
/// already compressed.
pub open spec fn compression_for(name: Seq<char>) -> Compression {
    if crate::compress::precompressed(name) {
        Compression::Raw
    } else {
        Compression::Gzip
    }
}

/// The sending side of one file.
pub struct FileSender {
    file_id: u8,
    compression: Compression,
    cipher: StreamCipher,
    finished: bool,
}

impl FileSender {
    pub closed spec fn file_id(&self) -> u8 {
        self.file_id
    }

    pub closed spec fn compression(&self) -> Compression {
        self.compression
    }

    pub closed spec fn key(&self) -> Seq<u8> {
        self.cipher.key()
    }

    pub closed spec fn session_id(&self) -> Seq<u8> {
        self.cipher.session_id()
    }

    /// The number of chunks sealed so far, which is the counter of the next.
    pub closed spec fn chunks_sent(&self) -> nat {
        self.cipher.counter()
    }

    pub closed spec fn finished(&self) -> bool {
        self.finished
    }

    pub closed spec fn wf(&self) -> bool {
        self.cipher.wf()
    }

    /// Begins sending `handle` under the stream session `session_id`: the
    /// sender, and the frame that announces the file.
    pub fn start(conn: &Connection, handle: &StdFileHandle, session_id: &Vec<u8>) -> (r: Result<
        (FileSender, Vec<u8>),
        RuckError,
    >)
        requires
            conn.wf(),
            session_id@.len() == SESSION_ID_SIZE,
        ensures
            r is Ok,
            r matches Ok((s, frame)) ==> {
                &&& s.wf()
                &&& s.file_id() == handle.id
                &&& s.compression() == compression_for(handle.name@)
                &&& s.key() == conn.key()
                &&& s.session_id() == session_id@
                &&& s.chunks_sent() == 0
                &&& !s.finished()
                &&& sealed_control_frame(
                    conn.key(),
                    MessageView::FileTransferStart {
                        file_id: handle.id,
                        session_id: session_id@,
                        compression: compression_for(handle.name@),
                    },
                    frame@,
                )
            },
    {
        let compression = crate::compress::should_compress(handle.name.as_str());
        let msg = Message::FileTransferStart(
            FileTransferStartPayload {
                file_id: handle.id,
                session_id: session_id.clone(),
                compression,
            },
        );
        assert(crate::message::encode_message(msg@).len() == 11);
        let frame = match conn.seal_msg(&msg) {
            Ok(f) => f,
            Err(e) => return Err(e),
        };
        let key = conn.key_bytes();
        let cipher = StreamCipher::new(&key, session_id);
        Ok((FileSender { file_id: handle.id, compression, cipher, finished: false }, frame))
    }

    #[verifier::rlimit(100)]
    fn seal_chunk(&mut self, plain: &Vec<u8>) -> (r: Result<Vec<u8>, RuckError>)
        requires
            old(self).wf(),
            !old(self).finished(),
            plain@.len() > 0,
            plain@.len() <= BUFFER_SIZE,
        ensures
            final(self).wf(),
            final(self).file_id() == old(self).file_id(),
            final(self).compression() == old(self).compression(),
            final(self).key() == old(self).key(),
            final(self).session_id() == old(self).session_id(),
            !final(self).finished(),
            old(self).compression() == Compression::Raw && old(self).chunks_sent() < u32::MAX ==> r is Ok,
            old(self).chunks_sent() < u32::MAX && chunk_body(old(self).compression(), plain@).len()
                + TAG_SIZE + 1 <= MAX_FRAME_SIZE ==> r is Ok,
            r is Ok ==> r->Ok_0@ == frame_bytes(
                seq![DATA_BYTE] + gcm_seal(
                    old(self).key(),
                    stream_nonce(old(self).chunks_sent(), old(self).session_id()),
                    chunk_body(old(self).compression(), plain@),
                ),
            ),
            old(self).chunks_sent() >= u32::MAX ==> r == Err::<Vec<u8>, RuckError>(
                RuckError::NonceExhausted,
            ),
            r is Ok ==> final(self).chunks_sent() == old(self).chunks_sent() + 1 && sealed_chunk(
                old(self).key(),
                old(self).session_id(),
                old(self).chunks_sent(),
                old(self).compression(),
                plain@,
                r->Ok_0@,
            ),
    {
        if self.cipher.counter_value() == u32::MAX {
            return Err(RuckError::NonceExhausted);
        }
        let ghost key = self.cipher.key();
        let ghost sid = self.cipher.session_id();
        let ghost counter = self.cipher.counter();
        let body = match self.compression {
            Compression::Raw => plain.clone(),
            Compression::Gzip => compress_chunk(plain.as_slice()),
        };
        assert(body@ == chunk_body(self.compression, plain@));
        let ct = match self.cipher.encrypt_chunk(&body) {
            Ok(c) => c,
            Err(_) => return Err(RuckError::CryptoFailed),
        };
        proof {
            assert(ct@ == gcm_seal(key, stream_nonce(counter, sid), body@));
            assert(aead_open(key, stream_nonce(counter, sid), ct@) == Some(body@));
            assert(received_chunk(key, sid, counter, self.compression, ct@) == Some(plain@));
        }
        let frame = data_frame(ct.as_slice());
        proof {
            if frame is Ok {
                let p = seq![DATA_BYTE] + ct@;
                crate::frame::lemma_frame_round_trip(p, Seq::empty());
                assert(crate::frame::frame_bytes(p) + Seq::<u8>::empty() == crate::frame::frame_bytes(p));
                assert(p.skip(1) == ct@);
            }
        }
        frame
    }

    /// What to send after a read of `plain` from the file. A read of no bytes
    /// is the end of the file: it is answered with `FileTransferComplete` and
    /// no data frame. Any other read is compressed if the file is, sealed at
    /// the next counter and sent as a data frame.
    pub fn on_read(&mut self, conn: &Connection, plain: &Vec<u8>) -> (r: Result<Vec<u8>, RuckError>)
        requires
            old(self).wf(),
            !old(self).finished(),
            conn.wf(),
            conn.key() == old(self).key(),
            plain@.len() <= BUFFER_SIZE,
        ensures
            final(self).wf(),
            final(self).file_id() == old(self).file_id(),
            final(self).compression() == old(self).compression(),
            final(self).key() == old(self).key(),
            final(self).session_id() == old(self).session_id(),
            plain@.len() == 0 ==> r is Ok && final(self).finished() && final(self).chunks_sent()
                == old(self).chunks_sent() && sealed_control_frame(
                conn.key(),
                MessageView::FileTransferComplete,
                r->Ok_0@,
            ),
            plain@.len() > 0 && old(self).compression() == Compression::Raw && old(self).chunks_sent()
                < u32::MAX ==> r is Ok,
            plain@.len() > 0 && old(self).chunks_sent() < u32::MAX && chunk_body(
                old(self).compression(),
                plain@,
            ).len() + TAG_SIZE + 1 <= MAX_FRAME_SIZE ==> r is Ok,
            plain@.len() > 0 && r is Ok ==> r->Ok_0@ == frame_bytes(
                seq![DATA_BYTE] + gcm_seal(
                    old(self).key(),
                    stream_nonce(old(self).chunks_sent(), old(self).session_id()),
                    chunk_body(old(self).compression(), plain@),
                ),
            ),
            plain@.len() > 0 && old(self).chunks_sent() >= u32::MAX ==> r == Err::<Vec<u8>, RuckError>(
                RuckError::NonceExhausted,
            ),
            plain@.len() > 0 && r is Ok ==> !final(self).finished() && final(self).chunks_sent()
                == old(self).chunks_sent() + 1 && sealed_chunk(
                old(self).key(),
                old(self).session_id(),
                old(self).chunks_sent(),
                old(self).compression(),
                plain@,
                r->Ok_0@,
            ),
    {
        if plain.len() == 0 {
            self.finished = true;
            let m = Message::FileTransferComplete;
            assert(crate::message::encode_message(m@).len() == 1);
            return conn.seal_msg(&m);
        }
        self.seal_chunk(plain)
    }
}

/// What the receiver asks of its caller after a frame.
#[derive(Debug, Clone, PartialEq, Eq)]
pub enum ReceiveEvent {
    /// The file at this position of the request list begins: create or
    /// truncate it.
    Started(usize),
    /// Append these bytes to the current file.
    Write(Vec<u8>),
    /// The file at this position is complete and its length matched the
    /// advertised size: flush it and check its size on disk.
    Finished(usize),
}

/// The bytes that a result asks to be written, if it asks that.
pub open spec fn written_bytes(r: Result<ReceiveEvent, RuckError>) -> Option<Seq<u8>> {
    match r {
        Ok(ReceiveEvent::Write(x)) => Some(x@),
        _ => None,
    }
}

struct ActiveFile {
    compression: Compression,
    cipher: StreamCipher,
    written: u64,
}

/// The receiving side: the requested files in request order, one at a time.
pub struct FileReceiver {
    key: Vec<u8>,
    files: Vec<StdFileHandle>,
    index: usize,
    active: Option<ActiveFile>,
}

impl FileReceiver {
    pub closed spec fn key(&self) -> Seq<u8> {
        self.key@
    }

    /// The files that are expected, in order.
    pub closed spec fn files(&self) -> Seq<StdFileHandle> {
        self.files@
    }

    /// The position of the file that is received or expected next.
    pub closed spec fn index(&self) -> nat {
        self.index as nat
    }

    /// Whether a file's body is being received.
    pub closed spec fn active(&self) -> bool {
        self.active is Some
    }

    pub closed spec fn compression(&self) -> Compression {
        self.active->0.compression
    }

    pub closed spec fn session_id(&self) -> Seq<u8> {
        self.active->0.cipher.session_id()
    }

    /// The counter of the next data chunk of the current file.
    pub closed spec fn counter(&self) -> nat {
        self.active->0.cipher.counter()
    }

    /// The bytes written so far to the current file.
    pub closed spec fn written(&self) -> nat {
        self.active->0.written as nat
    }

    pub closed spec fn wf(&self) -> bool {
        &&& self.key@.len() == KEY_SIZE
        &&& self.index <= self.files@.len()
        &&& self.active is Some ==> {
            &&& self.index < self.files@.len()
            &&& self.active->0.cipher.wf()
            &&& self.active->0.cipher.key() == self.key@
            &&& self.active->0.written <= self.files@[self.index as int].size
        }
    }

    /// A receiver that expects `files`, in this order, on `conn`.
    pub fn new(conn: &Connection, files: Vec<StdFileHandle>) -> (r: FileReceiver)
        requires
            conn.wf(),
        ensures
            r.wf(),
            r.key() == conn.key(),
            r.files() == files@,
            r.index() == 0,
            !r.active(),
    {
        FileReceiver { key: conn.key_bytes(), files, index: 0, active: None }
    }

    /// Whether every expected file has been received.
    pub fn is_done(&self) -> (r: bool)
        requires
            self.wf(),
        ensures
            r == (self.index() == self.files().len()),
    {
        self.index == self.files.len()
    }

    /// Takes one frame payload from the peer.
    ///
    /// Between files only a `FileTransferStart` for the next expected id is
    /// accepted. Within a file, a data frame is opened at the next counter,
    /// decompressed if the file is, and handed out to be written; the only
    /// control message accepted is `FileTransferComplete`, and only once the
    /// advertised number of bytes has arrived.
    pub fn on_frame(&mut self, conn: &Connection, payload: &[u8]) -> (r: Result<ReceiveEvent, RuckError>)
        requires
            old(self).wf(),
            conn.wf(),
            conn.key() == old(self).key(),
        ensures
            final(self).wf(),
            final(self).key() == old(self).key(),
            final(self).files() == old(self).files(),
            r is Err ==> final(self).index() == old(self).index(),
            // between files
            !old(self).active() && old(self).index() == old(self).files().len() ==> r
                == Err::<ReceiveEvent, RuckError>(RuckError::ProtocolError),
            !old(self).active() && old(self).index() < old(self).files().len() ==> match open_control(
                old(self).key(),
                payload@,
            ) {
                Err(e) => r == Err::<ReceiveEvent, RuckError>(e),
                Ok(MessageView::FileTransferStart { file_id, session_id, compression }) => if file_id
                    == old(self).files()[old(self).index() as int].id && session_id.len()
                    == SESSION_ID_SIZE {
                    &&& r matches Ok(ReceiveEvent::Started(i)) && i == old(self).index()
                    &&& final(self).active()
                    &&& final(self).index() == old(self).index()
                    &&& final(self).compression() == compression
                    &&& final(self).session_id() == session_id
                    &&& final(self).counter() == 0
                    &&& final(self).written() == 0
                } else {
                    r == Err::<ReceiveEvent, RuckError>(RuckError::ProtocolError)
                },
                Ok(_) => r == Err::<ReceiveEvent, RuckError>(RuckError::ProtocolError),
            },
            // within a file
            old(self).active() && !(payload@.len() >= 1 && (payload@[0] == DATA_BYTE || payload@[0]
                == crate::frame::CONTROL_BYTE)) ==> r == Err::<ReceiveEvent, RuckError>(
                RuckError::ProtocolError,
            ),
            old(self).active() && payload@.len() >= 1 && payload@[0] == DATA_BYTE ==> {
                let got = received_chunk(
                    old(self).key(),
                    old(self).session_id(),
                    old(self).counter(),
                    old(self).compression(),
                    payload@.skip(1),
                );
                let size = old(self).files()[old(self).index() as int].size;
                &&& old(self).counter() >= u32::MAX ==> r == Err::<ReceiveEvent, RuckError>(
                    RuckError::NonceExhausted,
                )
                &&& got is None ==> r is Err
                &&& r is Ok ==> written_bytes(r) is Some && got == written_bytes(r)
                &&& (old(self).counter() < u32::MAX && got is Some && old(self).written()
                    + got->0.len() <= size) ==> r is Ok
                &&& (old(self).counter() < u32::MAX && got is Some && old(self).written()
                    + got->0.len() > size) ==> r == Err::<ReceiveEvent, RuckError>(
                    RuckError::SizeMismatch,
                )
                &&& r is Ok ==> final(self).active() && final(self).index() == old(self).index()
                    && final(self).counter() == old(self).counter() + 1 && final(self).written()
                    == old(self).written() + got->0.len() && final(self).compression()
                    == old(self).compression() && final(self).session_id()
                    == old(self).session_id()
            },
            old(self).active() && payload@.len() >= 1 && payload@[0] == crate::frame::CONTROL_BYTE
                ==> match open_control(old(self).key(), payload@) {
                Err(e) => r == Err::<ReceiveEvent, RuckError>(e),
                Ok(MessageView::FileTransferComplete) => if old(self).written()
                    == old(self).files()[old(self).index() as int].size {
                    &&& r matches Ok(ReceiveEvent::Finished(i)) && i == old(self).index()
                    &&& !final(self).active()
                    &&& final(self).index() == old(self).index() + 1
                } else {
                    r == Err::<ReceiveEvent, RuckError>(RuckError::SizeMismatch)
                },
                Ok(_) => r == Err::<ReceiveEvent, RuckError>(RuckError::ProtocolError),
            },
    {
        if self.active.is_none() {
            if self.index >= self.files.len() {
                return Err(RuckError::ProtocolError);
            }
            let msg = match conn.open_msg(payload) {
                Ok(m) => m,
                Err(e) => return Err(e),
            };
            match msg {
                Message::FileTransferStart(p) => {
                    if p.file_id != self.files[self.index].id || p.session_id.len()
                        != SESSION_ID_SIZE {
                        return Err(RuckError::ProtocolError);
                    }
                    let cipher = StreamCipher::new(&self.key, &p.session_id);
                    self.active = Some(
                        ActiveFile { compression: p.compression, cipher, written: 0 },
                    );
                    Ok(ReceiveEvent::Started(self.index))
                },
                _ => Err(RuckError::ProtocolError),
            }
        } else {
            if payload.len() < 1 {
                return Err(RuckError::ProtocolError);
            }
            let size = self.files[self.index].size;
            if payload[0] == DATA_BYTE {
                let (_, ct) = match split_wire(payload) {
                    Ok(x) => x,
                    Err(e) => return Err(e),
                };
                assert(payload@.skip(1) == ct@);
                let mut act = self.active.take().unwrap();
                let ghost before_counter = act.cipher.counter();
                if act.cipher.counter_value() == u32::MAX {
                    self.active = Some(act);
                    return Err(RuckError::NonceExhausted);
                }
                let body = match act.cipher.decrypt_chunk(&ct) {
                    Ok(b) => b,
                    Err(_) => {
                        self.active = Some(act);
                        return Err(RuckError::CryptoFailed);
                    },
                };
                let plain = match act.compression {
                    Compression::Raw => body,
                    Compression::Gzip => match decompress_chunk(body.as_slice()) {
                        Ok(p) => p,
                        Err(e) => {
                            self.active = Some(act);
                            return Err(e);
                        },
                    },
                };
                if plain.len() as u64 > size - act.written {
                    self.active = Some(act);
                    return Err(RuckError::SizeMismatch);
                }
                act.written = act.written + plain.len() as u64;
                self.active = Some(act);
                Ok(ReceiveEvent::Write(plain))
            } else if payload[0] == crate::frame::CONTROL_BYTE {
                let msg = match conn.open_msg(payload) {
                    Ok(m) => m,
                    Err(e) => return Err(e),
                };
                match msg {
                    Message::FileTransferComplete => {
                        let written = self.active.as_ref().unwrap().written;
                        if written != size {
                            return Err(RuckError::SizeMismatch);
                        }
                        let i = self.index;
                        let n = self.files.len();
                        assert(i < n);
                        self.active = None;
                        self.index = i + 1;
                        Ok(ReceiveEvent::Finished(i))
                    },
                    _ => Err(RuckError::ProtocolError),
                }
            } else {
                Err(RuckError::ProtocolError)
            }
        }
    }
}

/// Checks a received file's length on disk against its advertised size.
pub fn check_size(actual: u64, advertised: u64) -> (r: Result<(), RuckError>)
    ensures
        r is Ok <==> actual == advertised,
        r is Err ==> r->Err_0 == RuckError::SizeMismatch,
{
    if actual == advertised {
        Ok(())
    } else {
        Err(RuckError::SizeMismatch)
    }
}

} // verus!
