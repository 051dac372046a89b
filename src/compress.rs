//! Gzip compression of chunk bodies, and which files are worth compressing.
//!
//! Each data chunk is compressed on its own as one gzip member, with flate2 at
//! its fast level. A chunk then decompresses right after it is decrypted, with
//! no decoder state carried from one frame to the next. This is not a zstd
//! stream per file: no zstd crate is available to this library.
use vstd::prelude::*;
use vstd::string::*;

use crate::message::RuckError;
use flate2::write::{GzDecoder, GzEncoder};
use std::io::Write;

verus! {

/// The gzip stream that flate2 writes for `data` at its fast level.
pub uninterp spec fn gzip_fast(data: Seq<u8>) -> Seq<u8>;

/// What flate2's gzip decoder recovers from `data`, `None` when it is not a
/// whole gzip stream.
pub uninterp spec fn gunzip(data: Seq<u8>) -> Option<Seq<u8>>;

/// Relies on flate2's `write::GzEncoder` at `Compression::fast()` over a
/// `Vec`: writing into a `Vec` does not fail, and the stream it writes decodes
/// back to the input.
#[verifier::external_body]
fn gz_encode(data: &[u8]) -> (r: Option<Vec<u8>>)
    ensures
        r is Some,
        r is Some ==> r->0@ == gzip_fast(data@),
        r is Some ==> gunzip(r->0@) == Some(data@),
{
    let mut enc = GzEncoder::new(Vec::new(), flate2::Compression::fast());
    enc.write_all(data).ok()?;
    enc.finish().ok()
}

/// Relies on flate2's `write::GzDecoder` over a `Vec`: the bytes that the
/// stream decodes to, or an error.
#[verifier::external_body]
fn gz_decode(data: &[u8]) -> (r: Option<Vec<u8>>)
    ensures
        r is Some <==> gunzip(data@) is Some,
        r is Some ==> gunzip(data@) == Some(r->0@),
{
    let mut dec = GzDecoder::new(Vec::new());
    dec.write_all(data).ok()?;
    dec.finish().ok()
}

/// Compresses one chunk; what comes out decompresses to the chunk.
pub fn compress_chunk(data: &[u8]) -> (r: Vec<u8>)
    ensures
        r@ == gzip_fast(data@),
        gunzip(r@) == Some(data@),
{
    gz_encode(data).unwrap()
}

/// Decompresses one chunk; an error when it is not a whole gzip stream.
pub fn decompress_chunk(data: &[u8]) -> (r: Result<Vec<u8>, RuckError>)
    ensures
        r is Ok <==> gunzip(data@) is Some,
        r is Ok ==> gunzip(data@) == Some(r->Ok_0@),
        r is Err ==> r->Err_0 == RuckError::ProtocolError,
{
    match gz_decode(data) {
        Some(v) => Ok(v),
        None => Err(RuckError::ProtocolError),
    }
}

} // verus!

verus! {

/// Extensions, in lower case, of formats that are compressed already.
pub open spec fn precompressed_exts() -> Seq<Seq<char>> {
    seq![
        "jpg"@, "jpeg"@, "png"@, "gif"@, "webp"@, "heic"@, "heif"@, "avif"@, "mp4"@, "mkv"@,
        "avi"@, "mov"@, "webm"@, "m4v"@, "mp3"@, "aac"@, "ogg"@, "opus"@, "flac"@, "m4a"@,
        "zip"@, "gz"@, "bz2"@, "xz"@, "zst"@, "7z"@, "rar"@, "tar.gz"@, "tgz"@, "pdf"@,
        "docx"@, "xlsx"@, "pptx"@,
    ]
}

/// `a` equals the lower-case ASCII character `b`, ignoring ASCII case.
pub open spec fn eq_ignore_case(a: char, b: char) -> bool {
    a == b || ('a' <= b && b <= 'z' && a as u32 + 32 == b as u32)
}

/// `name` ends with `.` followed by `ext`, ignoring ASCII case.
pub open spec fn has_extension(name: Seq<char>, ext: Seq<char>) -> bool {
    &&& name.len() >= ext.len() + 1
    &&& name[name.len() - ext.len() - 1] == '.'
    &&& forall|i: int|
        0 <= i < ext.len() ==> eq_ignore_case(#[trigger] name[name.len() - ext.len() + i], ext[i])
}

/// Whether the file's extension marks it as compressed already.
pub open spec fn precompressed(name: Seq<char>) -> bool {
    exists|i: int|
        0 <= i < precompressed_exts().len() && has_extension(
            name,
            #[trigger] precompressed_exts()[i],
        )
}

fn ext_at(i: usize) -> (r: &'static str)
    requires
        i < 33,
    ensures
        r@ == precompressed_exts()[i as int],
{
    match i {
        0 => "jpg",
        1 => "jpeg",
        2 => "png",
        3 => "gif",
        4 => "webp",
        5 => "heic",
        6 => "heif",
        7 => "avif",
        8 => "mp4",
        9 => "mkv",
        10 => "avi",
        11 => "mov",
        12 => "webm",
        13 => "m4v",
        14 => "mp3",
        15 => "aac",
        16 => "ogg",
        17 => "opus",
        18 => "flac",
        19 => "m4a",
        20 => "zip",
        21 => "gz",
        22 => "bz2",
        23 => "xz",
        24 => "zst",
        25 => "7z",
        26 => "rar",
        27 => "tar.gz",
        28 => "tgz",
        29 => "pdf",
        30 => "docx",
        31 => "xlsx",
        _ => "pptx",
    }
}

fn ends_with_extension(name: &str, ext: &str) -> (r: bool)
    ensures
        r == has_extension(name@, ext@),
{
    let n = name.unicode_len();
    let e = ext.unicode_len();
    if n <= e {
        return false;
    }
    if name.get_char(n - e - 1) != '.' {
        return false;
    }
    let mut i: usize = 0;
    while i < e
        invariant
            n == name@.len(),
            e == ext@.len(),
            n >= e + 1,
            i <= e,
            forall|j: int|
                0 <= j < i ==> eq_ignore_case(#[trigger] name@[n - e + j], ext@[j]),
        decreases e - i,
    {
        let a = name.get_char(n - e + i);
        let b = ext.get_char(i);
        let same = a == b || ('a' <= b && b <= 'z' && a as u32 + 32 == b as u32);
        if !same {
            return false;
        }
        i = i + 1;
    }
    true
}

/// Gzip for a file whose name does not carry one of the extensions of
/// [`precompressed_exts`] (case aside), no compression for one that does.
pub fn should_compress(name: &str) -> (r: crate::message::Compression)
    ensures
        r == crate::transfer::compression_for(name@),
{
    let mut i: usize = 0;
    while i < 33
        invariant
            i <= 33,
            precompressed_exts().len() == 33,
            forall|j: int| 0 <= j < i ==> !has_extension(name@, #[trigger] precompressed_exts()[j]),
        decreases 33 - i,
    {
        if ends_with_extension(name, ext_at(i)) {
            return crate::message::Compression::Raw;
        }
        i = i + 1;
    }
    crate::message::Compression::Gzip
}

} // verus!
