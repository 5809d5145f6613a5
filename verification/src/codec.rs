//! Encodings the library takes from other crates and from `std`: SHA-1
//! object ids, zlib compression, hexadecimal text, UTF-8 decoding, and a
//! random pick for temporary names.
use vstd::prelude::*;
use vstd::utf8::{decode_utf8, encode_utf8, valid_utf8};
use sha1::Digest;
use std::io::{Read, Write};
use rand::seq::SliceRandom;

verus! {

/// The lower-case hexadecimal digit for a value below sixteen.
pub open spec fn hex_digit(v: int) -> char {
    if v < 10 {
        (48 + v) as char
    } else {
        (87 + v) as char
    }
}

/// Bytes written as two lower-case hexadecimal digits each, high nibble
/// first.
pub open spec fn lower_hex(b: Seq<u8>) -> Seq<char>
    decreases b.len(),
{
    if b.len() == 0 {
        Seq::empty()
    } else {
        seq![hex_digit((b[0] / 16) as int), hex_digit((b[0] % 16) as int)] + lower_hex(b.drop_first())
    }
}

/// The value of a hexadecimal digit byte, upper or lower case.
pub open spec fn hex_value(c: u8) -> Option<u8> {
    if 48 <= c <= 57 {
        Some((c - 48) as u8)
    } else if 97 <= c <= 102 {
        Some((c - 87) as u8)
    } else if 65 <= c <= 70 {
        Some((c - 55) as u8)
    } else {
        None
    }
}

/// The bytes that pairs of hexadecimal digits stand for: none for an odd
/// count or a byte that is not a digit.
pub open spec fn hex_decoded(h: Seq<u8>) -> Option<Seq<u8>>
    decreases h.len(),
{
    if h.len() == 0 {
        Some(Seq::empty())
    } else if h.len() == 1 {
        None
    } else {
        match (hex_value(h[0]), hex_value(h[1]), hex_decoded(h.subrange(2, h.len() as int))) {
            (Some(hi), Some(lo), Some(rest)) => Some(seq![(hi * 16 + lo) as u8] + rest),
            _ => None,
        }
    }
}

/// `hex::encode`: the bytes in lower-case hexadecimal.
#[verifier::external_body]
pub(crate) fn hex_encode(data: &[u8]) -> (r: String)
    ensures
        r@ == lower_hex(data@),
{
    hex::encode(data)
}

/// `hex::decode`: the bytes that the hexadecimal text stands for, or `None`
/// where the text has an odd length or a byte that is not a digit.
#[verifier::external_body]
pub(crate) fn hex_decode(text: &[u8]) -> (r: Option<Vec<u8>>)
    ensures
        match r {
            Some(v) => hex_decoded(text@) == Some(v@),
            None => hex_decoded(text@) is None,
        },
{
    match hex::decode(text) {
        Ok(v) => Some(v),
        Err(_) => None,
    }
}

/// The SHA-1 digest of some bytes.
pub uninterp spec fn sha1_digest(data: Seq<u8>) -> Seq<u8>;

/// `sha1::Sha1::digest`, written as `format!("{:x}")` writes a digest:
/// forty lower-case hexadecimal digits.
#[verifier::external_body]
pub(crate) fn sha1_hex(data: &[u8]) -> (r: String)
    ensures
        r@ == lower_hex(sha1_digest(data@)),
        r@.len() == 40,
{
    format!("{:x}", sha1::Sha1::digest(data))
}

/// `sha1::Sha1::digest`: the twenty bytes of the SHA-1 digest.
#[verifier::external_body]
pub(crate) fn sha1_raw(data: &[u8]) -> (r: Vec<u8>)
    ensures
        r@ == sha1_digest(data@),
        r@.len() == 20,
{
    sha1::Sha1::digest(data).to_vec()
}

/// The zlib stream that `flate2` writes for some bytes at the best
/// compression.
pub uninterp spec fn zlib_compressed(data: Seq<u8>) -> Seq<u8>;

/// `flate2::write::ZlibEncoder` at `Compression::best()` over a vector,
/// written whole and finished. It succeeds: a vector takes every byte, the
/// encoder always hands the compressor a non-empty output buffer, and
/// miniz_oxide's error exits (a bad parameter after the stream is done, a
/// failed output callback) are not reached by one write followed by
/// `finish` into a buffer. A zlib stream is lossless: `ZlibDecoder` reads
/// back exactly the bytes the encoder was given.
#[verifier::external_body]
pub(crate) fn zlib_compress(data: &[u8]) -> (r: Result<Vec<u8>, String>)
    ensures
        r is Ok,
        r matches Ok(v) ==> v@ == zlib_compressed(data@),
        r matches Ok(v) ==> zlib_decompressed(v@) == Some(data@),
{
    let mut encoder = flate2::write::ZlibEncoder::new(Vec::new(), flate2::Compression::best());
    match encoder.write_all(data) {
        Ok(()) => {},
        Err(e) => return Err(e.to_string()),
    }
    encoder.finish().map_err(|e| e.to_string())
}

/// The bytes that `flate2` reads back from a zlib stream, if it is one.
pub uninterp spec fn zlib_decompressed(data: Seq<u8>) -> Option<Seq<u8>>;

/// `flate2::read::ZlibDecoder` read to the end; the error text where the
/// stream is not valid.
#[verifier::external_body]
pub(crate) fn zlib_decompress(data: &[u8]) -> (r: Result<Vec<u8>, String>)
    ensures
        match r {
            Ok(v) => zlib_decompressed(data@) == Some(v@),
            Err(_) => zlib_decompressed(data@) is None,
        },
{
    let mut decoder = flate2::read::ZlibDecoder::new(data);
    let mut out = Vec::new();
    match decoder.read_to_end(&mut out) {
        Ok(_) => Ok(out),
        Err(e) => Err(e.to_string()),
    }
}

/// `std::str::from_utf8`: the text the bytes encode, if they are UTF-8.
#[verifier::external_body]
pub(crate) fn utf8_text(bytes: &[u8]) -> (r: Option<String>)
    ensures
        r is Some <==> valid_utf8(bytes@),
        r matches Some(s) ==> encode_utf8(s@) == bytes@ && s@ == decode_utf8(bytes@),
{
    match std::str::from_utf8(bytes) {
        Ok(s) => Some(s.to_string()),
        Err(_) => None,
    }
}

/// The text that `String::from_utf8_lossy` makes of some bytes.
pub uninterp spec fn lossy_text(bytes: Seq<u8>) -> Seq<char>;

/// `String::from_utf8_lossy`: valid UTF-8 is decoded as it is; each invalid
/// sequence becomes a replacement character.
#[verifier::external_body]
pub(crate) fn utf8_lossy(bytes: &[u8]) -> (r: String)
    ensures
        r@ == lossy_text(bytes@),
        valid_utf8(bytes@) ==> r@ == decode_utf8(bytes@),
{
    String::from_utf8_lossy(bytes).to_string()
}

/// `rand::seq::SliceRandom::choose` with the thread's generator: one of
/// the characters, picked at random.
#[verifier::external_body]
pub(crate) fn choose_char(chars: &[char]) -> (r: char)
    requires
        chars.len() > 0,
    ensures
        chars@.contains(r),
{
    match chars.choose(&mut rand::thread_rng()) {
        Some(c) => *c,
        None => chars[0],
    }
}

} // verus!
