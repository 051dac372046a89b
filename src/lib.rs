//! End-to-end encrypted file transfer between two peers that meet at a relay.
//!
//! The library holds the logic of the protocol: password handling, key and
//! identifier derivation, the two AEAD nonce disciplines, the frame and message
//! codecs, the relay's pairing table and the sender and receiver state machines.
//! Sockets, files and the terminal are left to the caller.

pub mod client;
pub mod codec;
pub mod compress;
pub mod conf;
pub mod connection;
pub mod crypto;
pub mod file;
pub mod frame;
pub mod handshake;
pub mod message;
pub mod password;
pub mod relay;
pub mod transfer;
