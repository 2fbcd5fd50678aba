//! Scrollback snapshot encoding: gzip compression followed by base64,
//! so that arbitrary terminal content can be stored as plain text.
//! The compressor and the base64 coder are outside code, trusted through
//! the named results below; the encode/decode pipeline itself is verified
//! and round-trips exactly.

use std::io::Read;
use std::io::Write;
use vstd::prelude::*;
use vstd::utf8::{valid_utf8, decode_utf8, encode_utf8};

verus! {

/// The gzip encoding that flate2's encoder produces for `data` at the
/// default compression level.
pub uninterp spec fn gzip_bytes(data: Seq<u8>) -> Seq<u8>;

/// What flate2's decoder yields for `data`: the decompressed bytes, or
/// nothing when `data` is not a well-formed gzip stream.
pub uninterp spec fn gunzip_bytes(data: Seq<u8>) -> Option<Seq<u8>>;

/// The standard-alphabet base64 text for `data`.
pub uninterp spec fn b64_chars(data: Seq<u8>) -> Seq<char>;

/// What base64 decoding yields for `text`: the decoded bytes, or nothing
/// when `text` is not well-formed base64.
pub uninterp spec fn b64_bytes(text: Seq<char>) -> Option<Seq<u8>>;

/// Relies on flate2's `GzEncoder` writing into an in-memory `Vec`:
/// writing the whole input and finishing yields the gzip stream for the
/// input — a `Vec` writer never fails, so compression cannot — and
/// flate2's `GzDecoder` decodes that stream back to the input.
#[verifier::external_body]
fn gzip_compress(data: &[u8]) -> (r: Vec<u8>)
    ensures
        r@ == gzip_bytes(data@),
        gunzip_bytes(r@) == Some(data@),
{
    let mut encoder = flate2::write::GzEncoder::new(Vec::new(), flate2::Compression::default());
    encoder
        .write_all(data)
        .expect("writing into an in-memory buffer cannot fail");
    encoder
        .finish()
        .expect("finishing an in-memory stream cannot fail")
}

/// Relies on flate2's `GzDecoder`: reading it to the end yields the
/// decompressed bytes exactly when the input is a well-formed gzip stream.
#[verifier::external_body]
fn gzip_decompress(data: &[u8]) -> (r: Option<Vec<u8>>)
    ensures
        r matches Some(v) ==> gunzip_bytes(data@) == Some(v@),
        r is None ==> gunzip_bytes(data@) is None,
{
    let mut decoder = flate2::read::GzDecoder::new(data);
    let mut out = Vec::new();
    match decoder.read_to_end(&mut out) {
        Ok(_) => Some(out),
        Err(_) => None,
    }
}

/// Relies on base64's standard engine: `encode` produces the base64 text
/// of the input, which `decode` maps back to the input.
#[verifier::external_body]
fn b64_encode(data: &[u8]) -> (r: String)
    ensures
        r@ == b64_chars(data@),
        b64_bytes(r@) == Some(data@),
{
    base64::Engine::encode(&base64::engine::general_purpose::STANDARD, data)
}

/// Relies on base64's standard engine: `decode` yields the decoded bytes
/// exactly when the input is well-formed base64.
#[verifier::external_body]
fn b64_decode(text: &str) -> (r: Option<Vec<u8>>)
    ensures
        r matches Some(v) ==> b64_bytes(text@) == Some(v@),
        r is None ==> b64_bytes(text@) is None,
{
    match base64::Engine::decode(&base64::engine::general_purpose::STANDARD, text) {
        Ok(v) => Some(v),
        Err(_) => None,
    }
}

/// Relies on `String::from_utf8`: it succeeds exactly on valid UTF-8 and
/// yields the decoded characters.
#[verifier::external_body]
fn string_from_utf8(v: Vec<u8>) -> (r: Option<String>)
    ensures
        r is Some <==> valid_utf8(v@),
        r matches Some(s) ==> s@ == decode_utf8(v@),
{
    match String::from_utf8(v) {
        Ok(s) => Some(s),
        Err(_) => None,
    }
}

/// What the stored text for scrollback content `content` is: the base64
/// of the gzip stream of the content's UTF-8 bytes.
pub open spec fn spec_encode_scrollback(content: Seq<char>) -> Seq<char> {
    b64_chars(gzip_bytes(encode_utf8(content)))
}

/// What decoding a stored text yields: base64, then gzip, then UTF-8, or
/// nothing when any stage rejects its input.
pub open spec fn spec_decode_scrollback(enc: Seq<char>) -> Option<Seq<char>> {
    match b64_bytes(enc) {
        None => None,
        Some(compressed) => match gunzip_bytes(compressed) {
            None => None,
            Some(bytes) => if valid_utf8(bytes) {
                Some(decode_utf8(bytes))
            } else {
                None
            },
        },
    }
}

/// Encodes scrollback content for text storage; the stored text always
/// decodes back to exactly the input.
pub fn encode_scrollback(content: &str) -> (r: String)
    ensures
        r@ == spec_encode_scrollback(content@),
        spec_decode_scrollback(r@) == Some(content@),
{
    let bytes = content.as_bytes();
    let compressed = gzip_compress(bytes);
    let encoded = b64_encode(compressed.as_slice());
    proof {
        vstd::utf8::encode_utf8_valid_utf8(content@);
        vstd::utf8::encode_utf8_decode_utf8(content@);
    }
    encoded
}

/// Decodes a stored scrollback text back to the original content.
pub fn decode_scrollback(enc: &str) -> (r: Option<String>)
    ensures
        match r {
            Some(s) => spec_decode_scrollback(enc@) == Some(s@),
            None => spec_decode_scrollback(enc@) is None,
        },
{
    let compressed = match b64_decode(enc) {
        Some(c) => c,
        None => {
            return None;
        },
    };
    let bytes = match gzip_decompress(compressed.as_slice()) {
        Some(b) => b,
        None => {
            return None;
        },
    };
    string_from_utf8(bytes)
}

} // verus!
