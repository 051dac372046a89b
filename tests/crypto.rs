use spake2::{Ed25519Group, Identity, Password, Spake2};
use ruck::compress::{compress_chunk, decompress_chunk, should_compress};
use ruck::crypto::{Crypt, CryptoError, StreamCipher};
use ruck::handshake::Handshake;
use ruck::message::{Compression, RuckError};
use ruck::password::{generate_random_password, validate_generate_pw, validate_pw, PasswordError, PASSWORD_ALPHABET};

fn key(b: u8) -> Vec<u8> {
    vec![b; 32]
}

#[test]
fn password_of_sixteen_is_accepted() {
    assert!(validate_pw(&"abcdefghijklmnop".to_string()));
    assert!(!validate_pw(&"abcdefghijklmno".to_string()));
}

#[test]
fn password_length_counts_characters() {
    // 15 characters, 30 bytes
    let pw = "ééééééééééééééé".to_string();
    assert_eq!(pw.len(), 30);
    assert!(!validate_pw(&pw));
    assert_eq!(
        validate_generate_pw(Some(pw)),
        Err(PasswordError::TooShort)
    );
}

#[test]
fn given_password_is_kept() {
    let pw = "abcdefghijklmnop".to_string();
    assert_eq!(validate_generate_pw(Some(pw.clone())), Ok(pw));
}

#[test]
fn generated_password_uses_alphabet() {
    let pw = validate_generate_pw(None).unwrap();
    assert_eq!(pw.chars().count(), 16);
    assert!(pw.chars().all(|c| PASSWORD_ALPHABET.contains(c)));
    assert!(!pw.contains('0') && !pw.contains('O') && !pw.contains('I') && !pw.contains('l') && !pw.contains('1'));
    assert_eq!(PASSWORD_ALPHABET.chars().count(), 56);
    let other = generate_random_password();
    assert_eq!(other.chars().count(), 16);
}

#[test]
fn control_round_trip() {
    let c = Crypt::new(&key(7));
    let m = b"hello control".to_vec();
    let wire = c.encrypt(&m).unwrap();
    assert_eq!(wire.len(), 12 + m.len() + 16);
    assert_ne!(&wire[12..12 + m.len()], &m[..]);
    assert_eq!(c.decrypt(&wire), Ok(m));
}

#[test]
fn control_nonces_differ() {
    let c = Crypt::new(&key(7));
    let m = b"same".to_vec();
    let a = c.encrypt(&m).unwrap();
    let b = c.encrypt(&m).unwrap();
    assert_ne!(a, b);
}

#[test]
fn control_wrong_key_fails() {
    let a = Crypt::new(&key(1));
    let b = Crypt::new(&key(2));
    let wire = a.encrypt(&b"secret".to_vec()).unwrap();
    assert_eq!(b.decrypt(&wire), Err(CryptoError::DecryptFailed));
    assert_eq!(a.decrypt(&vec![0u8; 5]), Err(CryptoError::DecryptFailed));
    // a nonce, then less than a tag
    assert_eq!(a.decrypt(&vec![0u8; 12]), Err(CryptoError::DecryptFailed));
    assert_eq!(a.decrypt(&vec![0u8; 27]), Err(CryptoError::DecryptFailed));
    let mut truncated = wire.clone();
    truncated.truncate(12 + 15);
    assert_eq!(a.decrypt(&truncated), Err(CryptoError::DecryptFailed));
}

#[test]
fn stream_in_order() {
    let sid = vec![9u8; 8];
    let mut tx = StreamCipher::new(&key(3), &sid);
    let mut rx = StreamCipher::new(&key(3), &sid);
    let ms: Vec<Vec<u8>> = (0..4u8).map(|i| vec![i; 10 + i as usize]).collect();
    let cts: Vec<Vec<u8>> = ms.iter().map(|m| tx.encrypt_chunk(m).unwrap()).collect();
    assert_eq!(tx.counter_value(), 4);
    for (ct, m) in cts.iter().zip(ms.iter()) {
        assert_eq!(ct.len(), m.len() + 16);
        assert_eq!(&rx.decrypt_chunk(ct).unwrap(), m);
    }
    assert_eq!(rx.counter_value(), 4);
}

#[test]
fn stream_reorder_or_drop_fails() {
    let sid = vec![1u8; 8];
    let mut tx = StreamCipher::new(&key(3), &sid);
    let c0 = tx.encrypt_chunk(&b"zero".to_vec()).unwrap();
    let c1 = tx.encrypt_chunk(&b"one!".to_vec()).unwrap();
    let mut rx = StreamCipher::new(&key(3), &sid);
    assert_eq!(rx.decrypt_chunk(&c1), Err(CryptoError::DecryptFailed));
    assert_eq!(rx.counter_value(), 0);
    assert_eq!(rx.decrypt_chunk(&c0), Ok(b"zero".to_vec()));
    assert_eq!(rx.decrypt_chunk(&vec![0u8; 15]), Err(CryptoError::DecryptFailed));
    let mut rx2 = StreamCipher::new(&key(3), &vec![2u8; 8]);
    assert_eq!(rx2.decrypt_chunk(&c0), Err(CryptoError::DecryptFailed));
}

#[test]
fn gzip_round_trip() {
    let data = vec![0x41u8; 100];
    let z = compress_chunk(&data);
    assert_ne!(z, data);
    assert!(z.len() < data.len());
    assert_eq!(decompress_chunk(&z), Ok(data));
    assert_eq!(decompress_chunk(b"not gzip"), Err(RuckError::ProtocolError));
}

#[test]
fn compression_by_extension() {
    assert_eq!(should_compress("photo.zip"), Compression::Raw);
    assert_eq!(should_compress("dir/Movie.MP4"), Compression::Raw);
    assert_eq!(should_compress("backup.tar.gz"), Compression::Raw);
    assert_eq!(should_compress("doc.PdF"), Compression::Raw);
    assert_eq!(should_compress("notes.txt"), Compression::Gzip);
    assert_eq!(should_compress("zip"), Compression::Gzip);
    assert_eq!(should_compress("README"), Compression::Gzip);
}

#[test]
fn id_is_blake2s_of_password() {
    let a = Handshake::pass_to_bytes(&"abc".to_string());
    let expected: Vec<u8> = vec![
        0x50, 0x8c, 0x5e, 0x8c, 0x32, 0x7c, 0x14, 0xe2, 0xe1, 0xa7, 0x2b, 0xa3, 0x4e, 0xeb, 0x45, 0x2f,
        0x37, 0x45, 0x8b, 0x20, 0x9e, 0xd6, 0x3a, 0x29, 0x4d, 0x99, 0x9b, 0x4c, 0x86, 0x67, 0x59, 0x82,
    ];
    assert_eq!(a, expected);
    let p = "abcdefghijklmnop".to_string();
    assert_eq!(Handshake::pass_to_bytes(&p), Handshake::pass_to_bytes(&p.clone()));
    assert_ne!(Handshake::pass_to_bytes(&p), Handshake::pass_to_bytes(&"abcdefghijklmnoq".to_string()));
}

#[test]
fn handshake_bytes_round_trip() {
    let mut element = vec![0x53u8];
    element.extend(vec![7u8; 32]);
    let h = Handshake::from_password(&"abcdefghijklmnop".to_string(), element.clone());
    let bytes = h.to_bytes();
    assert_eq!(bytes.len(), 65);
    assert_eq!(&bytes[32..], &element[..]);
    let back = Handshake::from_buffer(&bytes).unwrap();
    assert_eq!(back, h);
    assert_eq!(Handshake::from_buffer(&bytes[..64]), Err(RuckError::HandshakeIoError));
}

#[test]
fn handshake_response_checks() {
    assert_eq!(Handshake::check_response(&[0u8; 33]), Ok(()));
    assert_eq!(Handshake::check_response(&[0u8; 32]), Err(RuckError::HandshakeIoError));
    assert_eq!(Handshake::session_key(None), Err(RuckError::HandshakeRejected));
    assert_eq!(Handshake::session_key(Some(vec![1u8; 31])), Err(RuckError::HandshakeRejected));
    assert_eq!(Handshake::session_key(Some(vec![1u8; 32])), Ok(vec![1u8; 32]));
}

fn exchange(pw_a: &str, pw_b: &str) -> (Vec<u8>, Vec<u8>) {
    let a = pw_a.to_string();
    let b = pw_b.to_string();
    let id_a = Handshake::pass_to_bytes(&a);
    let id_b = Handshake::pass_to_bytes(&b);
    let (sa, ea) = Spake2::<Ed25519Group>::start_symmetric(&Password::new(a.as_bytes()), &Identity::new(&id_a));
    let (sb, eb) = Spake2::<Ed25519Group>::start_symmetric(&Password::new(b.as_bytes()), &Identity::new(&id_b));
    let ha = Handshake::from_password(&a, ea);
    let hb = Handshake::from_password(&b, eb);
    // the relay hands each side the other's element
    let to_a = Handshake::from_buffer(&hb.to_bytes()).unwrap().outbound_msg;
    let to_b = Handshake::from_buffer(&ha.to_bytes()).unwrap().outbound_msg;
    assert_eq!(Handshake::check_response(&to_a), Ok(()));
    let ka = Handshake::session_key(sa.finish(&to_a).ok()).unwrap();
    let kb = Handshake::session_key(sb.finish(&to_b).ok()).unwrap();
    (ka, kb)
}

#[test]
fn same_password_gives_same_key() {
    let (ka, kb) = exchange("abcdefghijklmnop", "abcdefghijklmnop");
    assert_eq!(ka.len(), 32);
    assert_eq!(ka, kb);
    let a = Crypt::new(&ka);
    let b = Crypt::new(&kb);
    assert_eq!(b.decrypt(&a.encrypt(&b"offer".to_vec()).unwrap()), Ok(b"offer".to_vec()));
}

#[test]
fn wrong_password_completes_but_cannot_decrypt() {
    let (ka, kb) = exchange("abcdefghijklmnop", "abcdefghijklmnoq");
    assert_ne!(ka, kb);
    let a = Crypt::new(&ka);
    let b = Crypt::new(&kb);
    assert_eq!(b.decrypt(&a.encrypt(&b"offer".to_vec()).unwrap()), Err(CryptoError::DecryptFailed));
}

#[test]
fn session_ids_are_fresh() {
    let a = ruck::crypto::new_session_id();
    let b = ruck::crypto::new_session_id();
    assert_eq!(a.len(), 8);
    assert_ne!(a, b);
}
