use ruck::client::{
    accepted_offers, offer_message, offered_files, parse_confirmation, request_message,
    requested_chunks,
};
use ruck::connection::{data_frame, Connection};
use ruck::file::{
    create_or_find_files, file_name, to_size_string, ChunkHeader, FileHandle, FileOffer,
    StdFileHandle,
};
use ruck::frame::{decode_frame, encode_frame, frame_length, split_wire, EncryptedPayload, WireKind};
use ruck::message::{
    Compression, FileNegotiationPayload, FileRequestPayload, FileTransferPayload,
    FileTransferStartPayload, Message, RuckError,
};
use ruck::relay::{Arrival, Relay};
use ruck::transfer::{check_size, FileReceiver, FileSender, ReceiveEvent};

fn all_messages() -> Vec<Message> {
    vec![
        Message::FileOffer(FileNegotiationPayload {
            files: vec![
                FileOffer::new(0, "a.txt".to_string(), 100),
                FileOffer::new(1, "dir/b – é.bin".to_string(), u64::MAX),
            ],
        }),
        Message::FileOffer(FileNegotiationPayload { files: vec![] }),
        Message::FileRequest(FileRequestPayload {
            chunks: vec![ChunkHeader { id: 1, start: 0 }, ChunkHeader { id: 0, start: 7 }],
        }),
        Message::FileTransferStart(FileTransferStartPayload {
            file_id: 3,
            session_id: vec![1, 2, 3, 4, 5, 6, 7, 8],
            compression: Compression::Gzip,
        }),
        Message::FileTransfer(FileTransferPayload {
            chunk_header: ChunkHeader { id: 2, start: 65536 },
            chunk: vec![0xde, 0xad, 0xbe, 0xef],
        }),
        Message::FileTransferComplete,
    ]
}

#[test]
fn message_round_trip_every_variant() {
    for m in all_messages() {
        let bytes = m.serialize().unwrap();
        assert_eq!(Message::deserialize(&bytes), Ok(m));
    }
}

#[test]
fn message_exact_bytes() {
    assert_eq!(Message::FileTransferComplete.serialize(), Ok(vec![4]));
    let start = Message::FileTransferStart(FileTransferStartPayload {
        file_id: 3,
        session_id: vec![1, 2, 3, 4, 5, 6, 7, 8],
        compression: Compression::Raw,
    });
    assert_eq!(start.serialize(), Ok(vec![2, 3, 1, 2, 3, 4, 5, 6, 7, 8, 0]));
    let req = Message::FileRequest(FileRequestPayload { chunks: vec![ChunkHeader { id: 5, start: 258 }] });
    assert_eq!(req.serialize(), Ok(vec![1, 1, 0, 0, 0, 5, 2, 1, 0, 0, 0, 0, 0, 0]));
    let offer = Message::FileOffer(FileNegotiationPayload { files: vec![FileOffer::new(0, "é".to_string(), 1)] });
    assert_eq!(
        offer.serialize(),
        Ok(vec![0, 1, 0, 0, 0, 0, 2, 0, 0, 0, 0xc3, 0xa9, 1, 0, 0, 0, 0, 0, 0, 0])
    );
}

#[test]
fn message_rejects_malformed() {
    assert_eq!(Message::deserialize(&[]), Err(RuckError::ProtocolError));
    assert_eq!(Message::deserialize(&[9]), Err(RuckError::ProtocolError));
    assert_eq!(Message::deserialize(&[4, 0]), Err(RuckError::ProtocolError));
    assert_eq!(Message::deserialize(&[2, 3, 1, 2, 3, 4, 5, 6, 7, 8, 2]), Err(RuckError::ProtocolError));
    // a string that is not UTF-8
    assert_eq!(
        Message::deserialize(&[0, 1, 0, 0, 0, 0, 1, 0, 0, 0, 0xff, 1, 0, 0, 0, 0, 0, 0, 0]),
        Err(RuckError::ProtocolError)
    );
    let bad_sid = Message::FileTransferStart(FileTransferStartPayload {
        file_id: 0,
        session_id: vec![1, 2, 3],
        compression: Compression::Raw,
    });
    assert_eq!(bad_sid.serialize(), Err(RuckError::ProtocolError));
}

#[test]
fn frames_round_trip() {
    let f = encode_frame(&[1, 2, 3]).unwrap();
    assert_eq!(f, vec![0, 0, 0, 3, 1, 2, 3]);
    let mut buf = f.clone();
    buf.extend_from_slice(&[9, 9]);
    assert_eq!(decode_frame(&buf), Ok(Some((vec![1, 2, 3], 7))));
    assert_eq!(decode_frame(&f[..5]), Ok(None));
    assert_eq!(decode_frame(&[0, 0]), Ok(None));
    assert_eq!(decode_frame(&[2, 0, 0, 0]), Err(RuckError::ProtocolError));
    assert_eq!(frame_length(&[0, 1, 0, 0]), Ok(65536));
    assert_eq!(frame_length(&[1, 0, 0, 1]), Err(RuckError::ProtocolError));
    assert_eq!(encode_frame(&vec![0u8; 16 * 1024 * 1024 + 1]), Err(RuckError::ProtocolError));
}

#[test]
fn wire_type_byte() {
    assert_eq!(split_wire(&[0, 5]), Ok((WireKind::Control, vec![5])));
    assert_eq!(split_wire(&[1]), Ok((WireKind::Data, vec![])));
    assert_eq!(split_wire(&[2, 5]), Err(RuckError::ProtocolError));
    assert_eq!(split_wire(&[]), Err(RuckError::ProtocolError));
    assert_eq!(data_frame(&[7]).unwrap(), vec![0, 0, 0, 2, 1, 7]);
    let p = EncryptedPayload::from_wire(&[1u8; 20]).unwrap();
    assert_eq!(p.nonce.len(), 12);
    assert_eq!(p.body.len(), 8);
    assert_eq!(p.to_wire(), vec![1u8; 20]);
    assert_eq!(EncryptedPayload::from_wire(&[1u8; 11]), Err(RuckError::CryptoFailed));
}

#[test]
fn control_message_through_connection() {
    let conn = Connection::new(&vec![5u8; 32]);
    for m in all_messages() {
        let frame = conn.seal_msg(&m).unwrap();
        let (payload, used) = decode_frame(&frame).unwrap().unwrap();
        assert_eq!(used, frame.len());
        assert_eq!(payload[0], 0);
        assert_eq!(conn.open_msg(&payload), Ok(m));
    }
    assert_eq!(conn.open_msg(&[1, 2, 3]), Err(RuckError::ProtocolError));
}

#[test]
fn wrong_password_fails_first_decrypt() {
    let sender = Connection::new(&vec![1u8; 32]);
    let receiver = Connection::new(&vec![2u8; 32]);
    let offer = offer_message(&vec![FileHandle::new(0, "a.txt".to_string(), 0)]);
    let frame = sender.seal_msg(&offer).unwrap();
    let (payload, _) = decode_frame(&frame).unwrap().unwrap();
    assert_eq!(receiver.open_msg(&payload), Err(RuckError::CryptoFailed));
}

/// Sends `data` through a sender and a receiver, reading it in `BUFFER_SIZE`
/// pieces; returns the compression used, the number of data frames and what
/// the receiver wrote.
fn transfer(name: &str, data: &[u8]) -> (Compression, usize, Vec<u8>) {
    let conn = Connection::new(&vec![4u8; 32]);
    let handle = StdFileHandle::new(0, name.to_string(), 0, data.len() as u64);
    let mut rx = FileReceiver::new(&conn, vec![handle.clone()]);
    let (mut tx, start) = FileSender::start(&conn, &handle, &vec![6u8; 8]).unwrap();
    let (p, _) = decode_frame(&start).unwrap().unwrap();
    let compression = match conn.open_msg(&p).unwrap() {
        Message::FileTransferStart(s) => s.compression,
        _ => panic!("expected a start message"),
    };
    assert_eq!(rx.on_frame(&conn, &p), Ok(ReceiveEvent::Started(0)));
    let mut out = Vec::new();
    let mut data_frames = 0;
    let mut pos = 0;
    loop {
        let end = std::cmp::min(pos + 65536, data.len());
        let read = data[pos..end].to_vec();
        pos = end;
        let frame = tx.on_read(&conn, &read).unwrap();
        let (p, _) = decode_frame(&frame).unwrap().unwrap();
        match rx.on_frame(&conn, &p).unwrap() {
            ReceiveEvent::Write(bytes) => {
                data_frames += 1;
                out.extend_from_slice(&bytes);
            }
            ReceiveEvent::Finished(i) => {
                assert_eq!(i, 0);
                assert!(read.is_empty());
                break;
            }
            ReceiveEvent::Started(_) => panic!("unexpected start"),
        }
    }
    assert!(rx.is_done());
    assert_eq!(check_size(out.len() as u64, data.len() as u64), Ok(()));
    (compression, data_frames, out)
}

fn pseudo_random(n: usize) -> Vec<u8> {
    let mut x: u32 = 0x1234_5678;
    (0..n)
        .map(|_| {
            x ^= x << 13;
            x ^= x >> 17;
            x ^= x << 5;
            (x >> 24) as u8
        })
        .collect()
}

#[test]
fn empty_file_transfers() {
    let (_, frames, out) = transfer("empty.txt", &[]);
    assert_eq!(frames, 0);
    assert!(out.is_empty());
}

#[test]
fn exact_multiple_of_buffer_sends_no_empty_chunk() {
    let data = vec![7u8; 2 * 65536];
    let (_, frames, out) = transfer("two.bin", &data);
    assert_eq!(frames, 2);
    assert_eq!(out, data);
}

#[test]
fn random_zip_is_not_compressed() {
    let data = pseudo_random(1 << 20);
    let (compression, frames, out) = transfer("random.zip", &data);
    assert_eq!(compression, Compression::Raw);
    assert_eq!(frames, 16);
    assert_eq!(out, data);
}

#[test]
fn random_txt_is_compressed() {
    let data = pseudo_random(1 << 20);
    let (compression, _, out) = transfer("random.txt", &data);
    assert_eq!(compression, Compression::Gzip);
    assert_eq!(out, data);
}

#[test]
fn receiver_rejects_wrong_file_and_excess() {
    let conn = Connection::new(&vec![4u8; 32]);
    let expected = StdFileHandle::new(1, "b.bin".to_string(), 0, 3);
    let other = StdFileHandle::new(0, "a.txt".to_string(), 0, 3);
    let mut rx = FileReceiver::new(&conn, vec![expected.clone()]);
    let (_, start) = FileSender::start(&conn, &other, &vec![6u8; 8]).unwrap();
    let (p, _) = decode_frame(&start).unwrap().unwrap();
    assert_eq!(rx.on_frame(&conn, &p), Err(RuckError::ProtocolError));
    let (mut tx, start) = FileSender::start(&conn, &expected, &vec![6u8; 8]).unwrap();
    let (p, _) = decode_frame(&start).unwrap().unwrap();
    assert_eq!(rx.on_frame(&conn, &p), Ok(ReceiveEvent::Started(0)));
    let frame = tx.on_read(&conn, &vec![1u8; 4]).unwrap();
    let (p, _) = decode_frame(&frame).unwrap().unwrap();
    assert_eq!(rx.on_frame(&conn, &p), Err(RuckError::SizeMismatch));
    let done = tx.on_read(&conn, &vec![]).unwrap();
    let (p, _) = decode_frame(&done).unwrap().unwrap();
    assert_eq!(rx.on_frame(&conn, &p), Err(RuckError::SizeMismatch));
    assert_eq!(check_size(2, 3), Err(RuckError::SizeMismatch));
}

#[test]
fn request_only_second_file() {
    let handles = FileHandle::get_file_handles(&vec![
        ("a.txt".to_string(), 100u64),
        ("b.bin".to_string(), 100u64),
    ])
    .unwrap();
    assert_eq!(handles[1].id, 1);
    let offer = offer_message(&handles);
    let offered = offered_files(offer).unwrap();
    let desired = accepted_offers(&offered, &vec![false, true]);
    assert_eq!(desired, vec![FileOffer::new(1, "b.bin".to_string(), 100)]);
    let targets = create_or_find_files(&desired);
    assert_eq!(targets, vec![StdFileHandle::new(1, "b.bin".to_string(), 0, 100)]);
    let chunks = requested_chunks(request_message(&targets)).unwrap();
    assert_eq!(chunks, vec![ChunkHeader { id: 1, start: 0 }]);
    let uploads = FileHandle::to_stds(&handles, &chunks).unwrap();
    assert_eq!(uploads, vec![StdFileHandle::new(1, "b.bin".to_string(), 0, 100)]);
}

#[test]
fn request_checks() {
    let handles = FileHandle::get_file_handles(&vec![("a.txt".to_string(), 1u64)]).unwrap();
    assert_eq!(
        FileHandle::to_stds(&handles, &vec![ChunkHeader { id: 1, start: 0 }]),
        Err(RuckError::ProtocolError)
    );
    assert_eq!(
        FileHandle::to_stds(&handles, &vec![ChunkHeader { id: 0, start: 5 }]),
        Err(RuckError::ProtocolError)
    );
    assert_eq!(requested_chunks(Message::FileTransferComplete), Err(RuckError::ProtocolError));
    assert_eq!(offered_files(Message::FileTransferComplete), Err(RuckError::ProtocolError));
    let many: Vec<(String, u64)> = (0..257).map(|i| (format!("f{}", i), 0u64)).collect();
    assert_eq!(FileHandle::get_file_handles(&many), Err(RuckError::ProtocolError));
}

#[test]
fn receiver_names_are_basenames() {
    assert_eq!(file_name("a/b/c.txt"), "c.txt");
    assert_eq!(file_name("../../etc/passwd"), "passwd");
    assert_eq!(file_name("plain"), "plain");
    assert_eq!(file_name("dir/"), "");
    let offer = FileOffer::new(2, "x/empty.dat".to_string(), 0);
    assert_eq!(offer.duplicate(), offer);
    let t = create_or_find_files(&vec![offer]);
    assert_eq!(t[0].name, "empty.dat");
    assert_eq!(t[0].size, 0);
}

#[test]
fn confirmation_answers() {
    for y in ["", "Y", "y", "yes", "Yes", "YES"] {
        assert_eq!(parse_confirmation(y), Some(true));
    }
    for n in ["N", "n", "NO", "no", "No"] {
        assert_eq!(parse_confirmation(n), Some(false));
    }
    assert_eq!(parse_confirmation("maybe"), None);
    assert_eq!(parse_confirmation("yES"), None);
}

#[test]
fn size_strings() {
    assert_eq!(to_size_string(0), "0 B");
    assert_eq!(to_size_string(1023), "1023 B");
    assert_eq!(to_size_string(1024), "1 KB");
    assert_eq!(to_size_string(1126), "1.1 KB");
    assert_eq!(to_size_string(1536), "1.5 KB");
    assert_eq!(to_size_string(1048575), "1024 KB");
    assert_eq!(to_size_string(1048576), "1 MB");
    assert_eq!(to_size_string(u64::MAX), "16 EB");
}

#[test]
fn relay_capacity_and_pairing() {
    let sender_id = vec![1u8; 32];
    let other_id = vec![2u8; 32];
    let mut relay = Relay::new(1);
    assert_eq!(relay.arrive(&sender_id, 10), Arrival::Waiting);
    assert_eq!(relay.arrive(&other_id, 11), Arrival::Rejected);
    assert_eq!(relay.len(), 1);
    assert_eq!(relay.arrive(&sender_id, 12), Arrival::Paired(10));
    assert_eq!(relay.len(), 0);
    assert_eq!(relay.leave(&sender_id, 10), false);
    assert_eq!(relay.arrive(&other_id, 13), Arrival::Waiting);
}

#[test]
fn relay_timeout_leaves_no_entry() {
    let id = vec![3u8; 32];
    let mut relay = Relay::new(2);
    assert_eq!(relay.arrive(&id, 1), Arrival::Waiting);
    assert_eq!(relay.leave(&id, 2), false);
    assert_eq!(relay.len(), 1);
    assert_eq!(relay.leave(&id, 1), true);
    assert_eq!(relay.len(), 0);
    assert_eq!(relay.arrive(&id, 3), Arrival::Waiting);
}

#[test]
fn relay_sessions_independent() {
    let a = vec![4u8; 32];
    let b = vec![5u8; 32];
    let mut relay = Relay::new(4);
    assert_eq!(relay.arrive(&a, 1), Arrival::Waiting);
    assert_eq!(relay.arrive(&b, 2), Arrival::Waiting);
    assert_eq!(relay.arrive(&b, 3), Arrival::Paired(2));
    assert_eq!(relay.arrive(&a, 4), Arrival::Paired(1));
    assert_eq!(relay.len(), 0);
}
