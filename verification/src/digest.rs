//! Digests and encodings of bytes.

use base64::Engine;
use vstd::prelude::*;
use vstd::utf8::encode_utf8;

use crate::ident::hex_digit;

verus! {

/// The SHA-256 digest of some bytes.
pub uninterp spec fn sha256(bytes: Seq<u8>) -> Seq<u8>;

/// The standard base64 text of some bytes.
pub uninterp spec fn base64_text(bytes: Seq<u8>) -> Seq<char>;

/// What reading a text as standard base64 gives: the bytes, or the text of the
/// error.
pub uninterp spec fn base64_bytes(text: Seq<char>) -> Result<Seq<u8>, Seq<char>>;

/// The outcome of reading a text that is base64 for some bytes.
pub open spec fn decoded(bytes: Seq<u8>) -> Result<Seq<u8>, Seq<char>> {
    Ok(bytes)
}

/// Bytes in hexadecimal digits, in small letters.
pub open spec fn hex(bytes: Seq<u8>) -> Seq<char> {
    Seq::new(
        2 * bytes.len(),
        |i: int|
            if i % 2 == 0 {
                hex_digit(bytes[i / 2] as int / 16)
            } else {
                hex_digit(bytes[i / 2] as int % 16)
            },
    )
}

/// `sha2::Sha256::digest`: thirty-two bytes that depend on the input alone.
#[verifier::external_body]
pub(crate) fn sha256_digest(bytes: &[u8]) -> (digest: Vec<u8>)
    ensures
        digest@ == sha256(bytes@),
        digest@.len() == 32,
{
    <sha2::Sha256 as sha2::Digest>::digest(bytes).to_vec()
}

/// `encode` of base64's engine `STANDARD`. Claims that the text depends on the
/// bytes alone and that decoding gives the bytes back.
#[verifier::external_body]
pub(crate) fn base64_encode(bytes: &[u8]) -> (text: String)
    ensures
        text@ == base64_text(bytes@),
        base64_bytes(text@) == decoded(bytes@),
{
    base64::engine::general_purpose::STANDARD.encode(bytes)
}

/// `decode` of base64's engine `STANDARD`, with an error as its text. Claims
/// that the outcome depends on the text alone.
#[verifier::external_body]
pub(crate) fn base64_decode(text: &str) -> (r: Result<Vec<u8>, String>)
    ensures
        match base64_bytes(text@) {
            Ok(bytes) => r matches Ok(read) && read@ == bytes,
            Err(error) => r matches Err(worded) && worded@ == error,
        },
{
    base64::engine::general_purpose::STANDARD.decode(text.as_bytes()).map_err(|error| error.to_string())
}

/// One hexadecimal digit.
fn hex_char(d: u8) -> (c: char)
    requires
        d < 16,
    ensures
        c == hex_digit(d as int),
{
    if d < 10 {
        (48 + d) as char
    } else {
        (87 + d) as char
    }
}

/// Bytes in hexadecimal digits.
pub fn hex_text(bytes: &[u8]) -> (s: String)
    ensures
        s@ == hex(bytes@),
{
    let mut s = String::new();
    let mut i: usize = 0;
    while i < bytes.len()
        invariant
            i <= bytes@.len(),
            s@ == hex(bytes@.take(i as int)),
        decreases bytes@.len() - i,
    {
        let b: u8 = bytes[i];
        s.push(hex_char(b / 16));
        s.push(hex_char(b % 16));
        assert(s@ =~= hex(bytes@.take(i + 1)));
        i += 1;
    }
    assert(bytes@.take(i as int) =~= bytes@);
    s
}

/// The SHA-256 digest of some bytes in hexadecimal digits.
pub fn sha256_hex(bytes: &[u8]) -> (s: String)
    ensures
        s@ == hex(sha256(bytes@)),
{
    let digest = sha256_digest(bytes);
    hex_text(digest.as_slice())
}

/// The SHA-256 digest of a text's UTF-8 bytes in hexadecimal digits.
pub open spec fn text_digest(text: Seq<char>) -> Seq<char> {
    hex(sha256(encode_utf8(text)))
}

/// The number of a text's UTF-8 bytes.
pub open spec fn text_bytes(text: Seq<char>) -> usize {
    encode_utf8(text).len() as usize
}

/// The SHA-256 digest of a text's UTF-8 bytes in hexadecimal digits.
pub fn sha256_text(text: &str) -> (s: String)
    ensures
        s@ == text_digest(text@),
{
    sha256_hex(text.as_bytes())
}

/// The number of a text's UTF-8 bytes.
pub fn byte_len(text: &str) -> (n: usize)
    ensures
        n == text_bytes(text@),
{
    text.len()
}

} // verus!
