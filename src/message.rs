//! Control messages and their binary form: a tag byte, then the fields with
//! little-endian integers, `u32_le(len) || utf8` strings and `u32_le(len) ||
//! bytes` byte strings.
use vstd::prelude::*;
use vstd::utf8::*;

use crate::codec::{
    enc_bytes, enc_str, get_bytes, get_str, get_u32, get_u64, le_u32_bytes, le_u64_bytes,
    lemma_bytes, lemma_le_u32, lemma_le_u64, lemma_str, parse_bytes, parse_str, parse_u32,
    parse_u64, put_bytes, put_str, put_u32, put_u64,
};
use crate::file::{offers_view, ChunkHeader, FileOffer, OfferView};

verus! {

/// The error kinds of the protocol.
#[derive(Debug, Clone, Copy, PartialEq, Eq, Structural)]
pub enum RuckError {
    Io,
    HandshakeRejected,
    HandshakeIoError,
    CryptoFailed,
    ProtocolError,
    SizeMismatch,
    PeerTimeout,
    ServerAtCapacity,
    NonceExhausted,
}

/// How a file body travels: as it is, or gzip-compressed chunk by chunk.
#[derive(Debug, Clone, Copy, PartialEq, Eq, Structural)]
pub enum Compression {
    Raw,
    Gzip,
}

pub open spec fn compression_byte(c: Compression) -> u8 {
    match c {
        Compression::Raw => 0,
        Compression::Gzip => 1,
    }
}

/// The files that the sender offers.
#[derive(Debug, Clone, PartialEq, Eq)]
pub struct FileNegotiationPayload {
    pub files: Vec<FileOffer>,
}

/// The files that the receiver asks for, in the order it wants them.
#[derive(Debug, Clone, PartialEq, Eq)]
pub struct FileRequestPayload {
    pub chunks: Vec<ChunkHeader>,
}

/// The start of one file's body: its id, the stream session id and how the body
/// is compressed.
#[derive(Debug, Clone, PartialEq, Eq)]
pub struct FileTransferStartPayload {
    pub file_id: u8,
    pub session_id: Vec<u8>,
    pub compression: Compression,
}

/// A piece of a file's body carried inside a control message.
#[derive(Debug, Clone, PartialEq, Eq)]
pub struct FileTransferPayload {
    pub chunk_header: ChunkHeader,
    pub chunk: Vec<u8>,
}

/// A control message.
#[derive(Debug, Clone, PartialEq, Eq)]
pub enum Message {
    FileOffer(FileNegotiationPayload),
    FileRequest(FileRequestPayload),
    FileTransferStart(FileTransferStartPayload),
    FileTransfer(FileTransferPayload),
    FileTransferComplete,
}

/// The value of a [`Message`].
pub enum MessageView {
    FileOffer(Seq<OfferView>),
    FileRequest(Seq<ChunkHeader>),
    FileTransferStart { file_id: u8, session_id: Seq<u8>, compression: Compression },
    FileTransfer { header: ChunkHeader, chunk: Seq<u8> },
    FileTransferComplete,
}

impl View for Message {
    type V = MessageView;

    open spec fn view(&self) -> MessageView {
        match self {
            Message::FileOffer(p) => MessageView::FileOffer(offers_view(p.files@)),
            Message::FileRequest(p) => MessageView::FileRequest(p.chunks@),
            Message::FileTransferStart(p) => MessageView::FileTransferStart {
                file_id: p.file_id,
                session_id: p.session_id@,
                compression: p.compression,
            },
            Message::FileTransfer(p) => MessageView::FileTransfer {
                header: p.chunk_header,
                chunk: p.chunk@,
            },
            Message::FileTransferComplete => MessageView::FileTransferComplete,
        }
    }
}

pub open spec fn enc_offer(o: OfferView) -> Seq<u8> {
    seq![o.id] + enc_str(o.path) + le_u64_bytes(o.size)
}

pub open spec fn enc_offers(s: Seq<OfferView>) -> Seq<u8>
    decreases s.len(),
{
    if s.len() == 0 {
        Seq::empty()
    } else {
        enc_offers(s.drop_last()) + enc_offer(s.last())
    }
}

pub open spec fn enc_header(h: ChunkHeader) -> Seq<u8> {
    seq![h.id] + le_u64_bytes(h.start)
}

pub open spec fn enc_headers(s: Seq<ChunkHeader>) -> Seq<u8>
    decreases s.len(),
{
    if s.len() == 0 {
        Seq::empty()
    } else {
        enc_headers(s.drop_last()) + enc_header(s.last())
    }
}

/// The bytes of a control message.
pub open spec fn encode_message(m: MessageView) -> Seq<u8> {
    match m {
        MessageView::FileOffer(fs) => seq![0u8] + le_u32_bytes(fs.len() as u32) + enc_offers(fs),
        MessageView::FileRequest(hs) => seq![1u8] + le_u32_bytes(hs.len() as u32) + enc_headers(hs),
        MessageView::FileTransferStart { file_id, session_id, compression } => seq![2u8, file_id]
            + session_id + seq![compression_byte(compression)],
        MessageView::FileTransfer { header, chunk } => seq![3u8] + enc_header(header) + enc_bytes(
            chunk,
        ),
        MessageView::FileTransferComplete => seq![4u8],
    }
}

/// Whether every length in the message fits its `u32` prefix and the session id
/// has its 8 bytes.
pub open spec fn encodable(m: MessageView) -> bool {
    match m {
        MessageView::FileOffer(fs) => fs.len() <= u32::MAX && forall|i: int|
            0 <= i < fs.len() ==> encode_utf8(#[trigger] fs[i].path).len() <= u32::MAX,
        MessageView::FileRequest(hs) => hs.len() <= u32::MAX,
        MessageView::FileTransferStart { session_id, .. } => session_id.len() == 8,
        MessageView::FileTransfer { chunk, .. } => chunk.len() <= u32::MAX,
        MessageView::FileTransferComplete => true,
    }
}

pub open spec fn parse_offer(b: Seq<u8>) -> Option<(OfferView, nat)> {
    if b.len() < 1 {
        None
    } else {
        match parse_str(b.skip(1)) {
            None => None,
            Some((p, k)) => match parse_u64(b.skip(1 + k as int)) {
                None => None,
                Some((sz, k2)) => Some((OfferView { id: b[0], path: p, size: sz }, 1 + k + k2)),
            },
        }
    }
}

pub open spec fn parse_offers(b: Seq<u8>, n: nat) -> Option<(Seq<OfferView>, nat)>
    decreases n,
{
    if n == 0 {
        Some((Seq::empty(), 0))
    } else {
        match parse_offers(b, (n - 1) as nat) {
            None => None,
            Some((xs, p)) => if p <= b.len() {
                match parse_offer(b.skip(p as int)) {
                    None => None,
                    Some((o, k)) => Some((xs.push(o), p + k)),
                }
            } else {
                None
            },
        }
    }
}

pub open spec fn parse_header(b: Seq<u8>) -> Option<(ChunkHeader, nat)> {
    if b.len() < 1 {
        None
    } else {
        match parse_u64(b.skip(1)) {
            None => None,
            Some((s, k)) => Some((ChunkHeader { id: b[0], start: s }, 1 + k)),
        }
    }
}

pub open spec fn parse_headers(b: Seq<u8>, n: nat) -> Option<(Seq<ChunkHeader>, nat)>
    decreases n,
{
    if n == 0 {
        Some((Seq::empty(), 0))
    } else {
        match parse_headers(b, (n - 1) as nat) {
            None => None,
            Some((xs, p)) => if p <= b.len() {
                match parse_header(b.skip(p as int)) {
                    None => None,
                    Some((h, k)) => Some((xs.push(h), p + k)),
                }
            } else {
                None
            },
        }
    }
}

/// The message that `b` holds, when it holds exactly one.
pub open spec fn parse_message(b: Seq<u8>) -> Option<MessageView> {
    if b.len() < 1 {
        None
    } else {
        let body = b.skip(1);
        if b[0] == 0 {
            match parse_u32(body) {
                None => None,
                Some((n, k)) => match parse_offers(body.skip(k as int), n as nat) {
                    None => None,
                    Some((fs, used)) => if k + used == body.len() {
                        Some(MessageView::FileOffer(fs))
                    } else {
                        None
                    },
                },
            }
        } else if b[0] == 1 {
            match parse_u32(body) {
                None => None,
                Some((n, k)) => match parse_headers(body.skip(k as int), n as nat) {
                    None => None,
                    Some((hs, used)) => if k + used == body.len() {
                        Some(MessageView::FileRequest(hs))
                    } else {
                        None
                    },
                },
            }
        } else if b[0] == 2 {
            if body.len() == 10 && body[9] <= 1 {
                Some(
                    MessageView::FileTransferStart {
                        file_id: body[0],
                        session_id: body.subrange(1, 9),
                        compression: if body[9] == 0 {
                            Compression::Raw
                        } else {
                            Compression::Gzip
                        },
                    },
                )
            } else {
                None
            }
        } else if b[0] == 3 {
            match parse_header(body) {
                None => None,
                Some((h, k)) => match parse_bytes(body.skip(k as int)) {
                    None => None,
                    Some((c, k2)) => if k + k2 == body.len() {
                        Some(MessageView::FileTransfer { header: h, chunk: c })
                    } else {
                        None
                    },
                },
            }
        } else if b[0] == 4 {
            if body.len() == 0 {
                Some(MessageView::FileTransferComplete)
            } else {
                None
            }
        } else {
            None
        }
    }
}

proof fn lemma_offer(o: OfferView, rest: Seq<u8>)
    requires
        encode_utf8(o.path).len() <= u32::MAX,
    ensures
        parse_offer(enc_offer(o) + rest) == Some((o, enc_offer(o).len())),
{
    let b = enc_offer(o) + rest;
    let s = enc_str(o.path);
    lemma_str(o.path, le_u64_bytes(o.size) + rest);
    lemma_le_u64(o.size, rest);
    assert(b.skip(1) == s + (le_u64_bytes(o.size) + rest));
    assert(b.skip(1 + s.len() as int) == le_u64_bytes(o.size) + rest);
}

proof fn lemma_offers(s: Seq<OfferView>, rest: Seq<u8>)
    requires
        forall|i: int| 0 <= i < s.len() ==> encode_utf8(#[trigger] s[i].path).len() <= u32::MAX,
    ensures
        parse_offers(enc_offers(s) + rest, s.len()) == Some((s, enc_offers(s).len())),
    decreases s.len(),
{
    if s.len() > 0 {
        let init = s.drop_last();
        let o = s.last();
        assert(encode_utf8(s[s.len() - 1].path).len() <= u32::MAX);
        let tail = enc_offer(o) + rest;
        assert(enc_offers(s) + rest == enc_offers(init) + tail);
        assert forall|i: int| 0 <= i < init.len() implies encode_utf8(
            #[trigger] init[i].path,
        ).len() <= u32::MAX by {
            assert(init[i] == s[i]);
        }
        lemma_offers(init, tail);
        lemma_offer(o, rest);
        assert((enc_offers(init) + tail).skip(enc_offers(init).len() as int) == tail);
        assert(init.push(o) == s);
    }
}

proof fn lemma_header(h: ChunkHeader, rest: Seq<u8>)
    ensures
        parse_header(enc_header(h) + rest) == Some((h, enc_header(h).len())),
{
    let b = enc_header(h) + rest;
    lemma_le_u64(h.start, rest);
    assert(b.skip(1) == le_u64_bytes(h.start) + rest);
}

proof fn lemma_headers(s: Seq<ChunkHeader>, rest: Seq<u8>)
    ensures
        parse_headers(enc_headers(s) + rest, s.len()) == Some((s, enc_headers(s).len())),
    decreases s.len(),
{
    if s.len() > 0 {
        let init = s.drop_last();
        let h = s.last();
        let tail = enc_header(h) + rest;
        assert(enc_headers(s) + rest == enc_headers(init) + tail);
        lemma_headers(init, tail);
        lemma_header(h, rest);
        assert((enc_headers(init) + tail).skip(enc_headers(init).len() as int) == tail);
        assert(init.push(h) == s);
    }
}

/// Decoding the bytes of an encodable control message gives the message back.
pub proof fn lemma_message_round_trip(m: MessageView)
    requires
        encodable(m),
    ensures
        parse_message(encode_message(m)) == Some(m),
{
    let b = encode_message(m);
    match m {
        MessageView::FileOffer(fs) => {
            let e = enc_offers(fs);
            assert(b.skip(1) == le_u32_bytes(fs.len() as u32) + e);
            lemma_le_u32(fs.len() as u32, e);
            assert(b.skip(1).skip(4) == e + Seq::<u8>::empty());
            lemma_offers(fs, Seq::empty());
        },
        MessageView::FileRequest(hs) => {
            let e = enc_headers(hs);
            assert(b.skip(1) == le_u32_bytes(hs.len() as u32) + e);
            lemma_le_u32(hs.len() as u32, e);
            assert(b.skip(1).skip(4) == e + Seq::<u8>::empty());
            lemma_headers(hs, Seq::empty());
        },
        MessageView::FileTransferStart { file_id, session_id, compression } => {
            assert(b.skip(1).subrange(1, 9) == session_id);
            assert(b.skip(1)[9] == compression_byte(compression));
        },
        MessageView::FileTransfer { header, chunk } => {
            let e = enc_bytes(chunk);
            assert(b.skip(1) == enc_header(header) + e);
            lemma_header(header, e);
            lemma_bytes(chunk, Seq::empty());
            assert(b.skip(1).skip(9) == e + Seq::<u8>::empty());
        },
        MessageView::FileTransferComplete => {
            assert(b.skip(1).len() == 0);
        },
    }
}

fn put_offers(out: &mut Vec<u8>, files: &Vec<FileOffer>) -> (ok: bool)
    ensures
        ok <==> forall|i: int|
            0 <= i < files@.len() ==> encode_utf8(#[trigger] offers_view(files@)[i].path).len()
                <= u32::MAX,
        ok ==> final(out)@ == old(out)@ + enc_offers(offers_view(files@)),
{
    let ghost fs = offers_view(files@);
    let mut i: usize = 0;
    while i < files.len()
        invariant
            i <= files@.len(),
            fs == offers_view(files@),
            fs.len() == files@.len(),
            out@ == old(out)@ + enc_offers(fs.take(i as int)),
            forall|j: int| 0 <= j < i ==> encode_utf8(#[trigger] fs[j].path).len() <= u32::MAX,
        decreases files@.len() - i,
    {
        let f = &files[i];
        let path: &str = f.path.as_str();
        if path.as_bytes().len() > u32::MAX as usize {
            assert(fs[i as int].path == path@);
            return false;
        }
        out.push(f.id);
        put_str(out, path);
        put_u64(out, f.size);
        proof {
            let t = fs.take(i + 1);
            assert(t.drop_last() == fs.take(i as int));
            assert(t.last() == fs[i as int]);
            assert(fs[i as int] == f@);
        }
        i = i + 1;
    }
    assert(fs.take(files@.len() as int) == fs);
    true
}

fn put_headers(out: &mut Vec<u8>, hs: &Vec<ChunkHeader>)
    ensures
        final(out)@ == old(out)@ + enc_headers(hs@),
{
    let mut i: usize = 0;
    while i < hs.len()
        invariant
            i <= hs@.len(),
            out@ == old(out)@ + enc_headers(hs@.take(i as int)),
        decreases hs@.len() - i,
    {
        let h = hs[i];
        out.push(h.id);
        put_u64(out, h.start);
        proof {
            let t = hs@.take(i + 1);
            assert(t.drop_last() == hs@.take(i as int));
            assert(t.last() == hs@[i as int]);
        }
        i = i + 1;
    }
    assert(hs@.take(hs@.len() as int) == hs@);
}

fn get_offer(b: &[u8], pos: usize) -> (r: Option<(FileOffer, usize)>)
    requires
        pos <= b@.len(),
    ensures
        match parse_offer(b@.skip(pos as int)) {
            None => r is None,
            Some((o, k)) => r matches Some((x, p)) && x@ == o && p == pos + k,
        },
{
    if pos >= b.len() {
        return None;
    }
    let id = b[pos];
    let ghost t = b@.skip(pos as int);
    assert(t.skip(1) == b@.skip(pos + 1));
    match get_str(b, pos + 1) {
        None => None,
        Some((path, p)) => {
            assert(t.skip(1 + (p - pos - 1)) == b@.skip(p as int));
            match get_u64(b, p) {
                None => None,
                Some((size, q)) => Some((FileOffer { id, path, size }, q)),
            }
        },
    }
}

fn get_offers(b: &[u8], start: usize, n: u32) -> (r: Option<(Vec<FileOffer>, usize)>)
    requires
        start <= b@.len(),
    ensures
        match parse_offers(b@.skip(start as int), n as nat) {
            None => r is None,
            Some((fs, k)) => r matches Some((x, p)) && offers_view(x@) == fs && p == start + k,
        },
{
    let ghost body = b@.skip(start as int);
    let mut files: Vec<FileOffer> = Vec::new();
    let mut pos: usize = start;
    let mut i: u32 = 0;
    while i < n
        invariant
            i <= n,
            start <= pos <= b@.len(),
            body == b@.skip(start as int),
            parse_offers(body, i as nat) == Some((offers_view(files@), (pos - start) as nat)),
        decreases n - i,
    {
        assert(body.skip(pos - start) == b@.skip(pos as int));
        match get_offer(b, pos) {
            None => {
                proof {
                    lemma_offers_none_from(body, (i + 1) as nat, n as nat);
                }
                return None;
            },
            Some((o, p)) => {
                files.push(o);
                assert(offers_view(files@) == offers_view(files@.drop_last()).push(o@));
                pos = p;
            },
        }
        i = i + 1;
    }
    Some((files, pos))
}

proof fn lemma_offers_none_from(b: Seq<u8>, i: nat, n: nat)
    requires
        i <= n,
        parse_offers(b, i) is None,
    ensures
        parse_offers(b, n) is None,
    decreases n - i,
{
    if i < n {
        lemma_offers_none_from(b, i + 1, n);
    }
}

proof fn lemma_headers_none_from(b: Seq<u8>, i: nat, n: nat)
    requires
        i <= n,
        parse_headers(b, i) is None,
    ensures
        parse_headers(b, n) is None,
    decreases n - i,
{
    if i < n {
        lemma_headers_none_from(b, i + 1, n);
    }
}

fn get_header(b: &[u8], pos: usize) -> (r: Option<(ChunkHeader, usize)>)
    requires
        pos <= b@.len(),
    ensures
        match parse_header(b@.skip(pos as int)) {
            None => r is None,
            Some((h, k)) => r matches Some((x, p)) && x == h && p == pos + k,
        },
{
    if pos >= b.len() {
        return None;
    }
    let id = b[pos];
    assert(b@.skip(pos as int).skip(1) == b@.skip(pos + 1));
    match get_u64(b, pos + 1) {
        None => None,
        Some((start, q)) => Some((ChunkHeader { id, start }, q)),
    }
}

fn get_headers(b: &[u8], start: usize, n: u32) -> (r: Option<(Vec<ChunkHeader>, usize)>)
    requires
        start <= b@.len(),
    ensures
        match parse_headers(b@.skip(start as int), n as nat) {
            None => r is None,
            Some((hs, k)) => r matches Some((x, p)) && x@ == hs && p == start + k,
        },
{
    let ghost body = b@.skip(start as int);
    let mut hs: Vec<ChunkHeader> = Vec::new();
    let mut pos: usize = start;
    let mut i: u32 = 0;
    while i < n
        invariant
            i <= n,
            start <= pos <= b@.len(),
            body == b@.skip(start as int),
            parse_headers(body, i as nat) == Some((hs@, (pos - start) as nat)),
        decreases n - i,
    {
        assert(body.skip(pos - start) == b@.skip(pos as int));
        match get_header(b, pos) {
            None => {
                proof {
                    lemma_headers_none_from(body, (i + 1) as nat, n as nat);
                }
                return None;
            },
            Some((h, p)) => {
                hs.push(h);
                pos = p;
            },
        }
        i = i + 1;
    }
    Some((hs, pos))
}

impl Message {
    /// The bytes of the message; an error when a length does not fit its prefix
    /// or the session id is not 8 bytes.
    pub fn serialize(&self) -> (r: Result<Vec<u8>, RuckError>)
        ensures
            r is Ok <==> encodable(self@),
            r is Ok ==> r->Ok_0@ == encode_message(self@),
            r is Err ==> r->Err_0 == RuckError::ProtocolError,
    {
        let mut out: Vec<u8> = Vec::new();
        match self {
            Message::FileOffer(p) => {
                if p.files.len() > u32::MAX as usize {
                    return Err(RuckError::ProtocolError);
                }
                out.push(0u8);
                put_u32(&mut out, p.files.len() as u32);
                if !put_offers(&mut out, &p.files) {
                    return Err(RuckError::ProtocolError);
                }
            },
            Message::FileRequest(p) => {
                if p.chunks.len() > u32::MAX as usize {
                    return Err(RuckError::ProtocolError);
                }
                out.push(1u8);
                put_u32(&mut out, p.chunks.len() as u32);
                put_headers(&mut out, &p.chunks);
            },
            Message::FileTransferStart(p) => {
                if p.session_id.len() != 8 {
                    return Err(RuckError::ProtocolError);
                }
                out.push(2u8);
                out.push(p.file_id);
                crate::codec::put_slice(&mut out, p.session_id.as_slice());
                out.push(
                    match p.compression {
                        Compression::Raw => 0u8,
                        Compression::Gzip => 1u8,
                    },
                );
            },
            Message::FileTransfer(p) => {
                if p.chunk.len() > u32::MAX as usize {
                    return Err(RuckError::ProtocolError);
                }
                out.push(3u8);
                out.push(p.chunk_header.id);
                put_u64(&mut out, p.chunk_header.start);
                put_bytes(&mut out, p.chunk.as_slice());
            },
            Message::FileTransferComplete => {
                out.push(4u8);
            },
        }
        proof {
            let m = self@;
            assert(out@ =~= encode_message(m));
        }
        Ok(out)
    }

    /// The message that `bytes` holds; an error unless they hold exactly one.
    pub fn deserialize(bytes: &[u8]) -> (r: Result<Message, RuckError>)
        ensures
            r is Ok <==> parse_message(bytes@) is Some,
            r is Ok ==> parse_message(bytes@) == Some(r->Ok_0@),
            r is Err ==> r->Err_0 == RuckError::ProtocolError,
    {
        let b = bytes;
        if b.len() < 1 {
            return Err(RuckError::ProtocolError);
        }
        let tag = b[0];
        let ghost body = b@.skip(1);
        let len = b.len();
        if tag == 0 {
            match get_u32(b, 1) {
                None => Err(RuckError::ProtocolError),
                Some((n, p)) => {
                    assert(body.skip(4) == b@.skip(5));
                    match get_offers(b, p, n) {
                        None => Err(RuckError::ProtocolError),
                        Some((files, q)) => if q == len {
                            Ok(Message::FileOffer(FileNegotiationPayload { files }))
                        } else {
                            Err(RuckError::ProtocolError)
                        },
                    }
                },
            }
        } else if tag == 1 {
            match get_u32(b, 1) {
                None => Err(RuckError::ProtocolError),
                Some((n, p)) => {
                    assert(body.skip(4) == b@.skip(5));
                    match get_headers(b, p, n) {
                        None => Err(RuckError::ProtocolError),
                        Some((chunks, q)) => if q == len {
                            Ok(Message::FileRequest(FileRequestPayload { chunks }))
                        } else {
                            Err(RuckError::ProtocolError)
                        },
                    }
                },
            }
        } else if tag == 2 {
            if len != 11 || b[10] > 1 {
                return Err(RuckError::ProtocolError);
            }
            let session_id = crate::codec::copy_range(b, 2, 10);
            assert(session_id@ == body.subrange(1, 9));
            let compression = if b[10] == 0 {
                Compression::Raw
            } else {
                Compression::Gzip
            };
            Ok(
                Message::FileTransferStart(
                    FileTransferStartPayload { file_id: b[1], session_id, compression },
                ),
            )
        } else if tag == 3 {
            match get_header(b, 1) {
                None => Err(RuckError::ProtocolError),
                Some((h, p)) => {
                    assert(body.skip(p - 1) == b@.skip(p as int));
                    match get_bytes(b, p) {
                        None => Err(RuckError::ProtocolError),
                        Some((chunk, q)) => if q == len {
                            Ok(
                                Message::FileTransfer(
                                    FileTransferPayload { chunk_header: h, chunk },
                                ),
                            )
                        } else {
                            Err(RuckError::ProtocolError)
                        },
                    }
                },
            }
        } else if tag == 4 {
            if len == 1 {
                Ok(Message::FileTransferComplete)
            } else {
                Err(RuckError::ProtocolError)
            }
        } else {
            Err(RuckError::ProtocolError)
        }
    }
}

} // verus!
