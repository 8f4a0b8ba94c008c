//! The calls that the library makes into the crates it builds on. Verus
//! does not read these bodies: each contract here is taken on trust from the
//! named crate's documentation and source.

use sha2::Digest;
use vstd::prelude::*;
use vstd::utf8::{decode_utf8, valid_utf8};

verus! {

/// The SHA-256 digest of `data`: what `sha2::Sha256` computes for it.
pub uninterp spec fn sha256_digest(data: Seq<u8>) -> Seq<u8>;

/// The base64 text of `data` in the standard alphabet, padded: what
/// `base64::encode` returns for it.
pub uninterp spec fn base64_standard(data: Seq<u8>) -> Seq<char>;

/// The media type that `mime_guess` knows for a file extension, or
/// `application/octet-stream` where it knows none.
pub uninterp spec fn known_mime(extension: Seq<char>) -> Seq<char>;

/// What the regular expression `pattern` captures in `text` under the group
/// names `first` and `second`, at its leftmost match: `None` where the
/// pattern is not valid, does not match, or leaves one of the groups out.
pub uninterp spec fn captured_pair(
    pattern: Seq<char>,
    first: Seq<char>,
    second: Seq<char>,
    text: Seq<char>,
) -> Option<(Seq<char>, Seq<char>)>;

/// `n` is the length of the longest front part of `bytes` that is valid
/// UTF-8.
pub open spec fn is_valid_prefix_len(bytes: Seq<u8>, n: int) -> bool {
    &&& 0 <= n <= bytes.len()
    &&& valid_utf8(bytes.take(n))
    &&& forall|p: int| n < p <= bytes.len() ==> !valid_utf8(#[trigger] bytes.take(p))
}

/// Whether `bytes` can still become valid UTF-8: some bytes behind them
/// make them so.
pub open spec fn can_continue(bytes: Seq<u8>) -> bool {
    exists|tail: Seq<u8>| valid_utf8(#[trigger] (bytes + tail))
}

/// The lower-case hexadecimal digit for `n`.
pub open spec fn hex_digit(n: int) -> char {
    "0123456789abcdef"@[n]
}

/// `data` in lower-case hexadecimal, two digits for each byte, the high
/// half first.
pub open spec fn hex_lower(data: Seq<u8>) -> Seq<char> {
    Seq::new(
        2 * data.len(),
        |i: int|
            if i % 2 == 0 {
                hex_digit(data[i / 2] as int / 16)
            } else {
                hex_digit(data[i / 2] as int % 16)
            },
    )
}

/// A pair of strings by their characters.
pub open spec fn pair_text(pair: Option<(String, String)>) -> Option<(Seq<char>, Seq<char>)> {
    match pair {
        Some((a, b)) => Some((a@, b@)),
        None => None,
    }
}

/// `sha2::Sha256::digest`: the digest of `data` under SHA-256.
#[verifier::external_body]
pub(crate) fn sha256(data: &[u8]) -> (digest: Vec<u8>)
    ensures
        digest@ == sha256_digest(data@),
{
    sha2::Sha256::digest(data).to_vec()
}

/// `hex::encode`: each byte of `data` as two lower-case hexadecimal digits.
#[verifier::external_body]
pub(crate) fn hex_encode(data: &[u8]) -> (text: String)
    ensures
        text@ == hex_lower(data@),
{
    hex::encode(data)
}

/// `base64::encode`: `data` in base64 with the standard alphabet and
/// padding.
#[verifier::external_body]
#[allow(deprecated)]
pub(crate) fn base64_encode(data: &[u8]) -> (text: String)
    ensures
        text@ == base64_standard(data@),
{
    base64::encode(data)
}

/// `mime_guess::from_ext` and `MimeGuess::first_or_octet_stream`: the
/// first media type in the crate's table for `extension`, whatever its
/// case, or `application/octet-stream` for one that the table lacks.
#[verifier::external_body]
pub(crate) fn mime_of_extension(extension: &str) -> (mime: String)
    ensures
        mime@ == known_mime(extension@),
{
    mime_guess::from_ext(extension).first_or_octet_stream().to_string()
}

/// `regex::Regex::captures` for the expression `pattern`, and
/// `Captures::name` for the groups `first` and `second`: the text that the
/// two groups capture at the leftmost match in `text`.
#[verifier::external_body]
pub(crate) fn capture_pair(pattern: &str, first: &str, second: &str, text: &str) -> (found: Option<
    (String, String),
>)
    ensures
        pair_text(found) == captured_pair(pattern@, first@, second@, text@),
{
    let captures = regex::Regex::new(pattern).ok()?.captures(text)?;
    let a = captures.name(first)?.as_str().to_string();
    let b = captures.name(second)?.as_str().to_string();
    Some((a, b))
}

/// `std::str::from_utf8`, with `Utf8Error::valid_up_to` and
/// `Utf8Error::error_len`: the text that `bytes` encode, where they are
/// valid UTF-8; else the length of their longest valid front part, and
/// whether the input only ended too early, inside a character that more
/// bytes may complete, and no byte that cannot stand there was met.
#[verifier::external_body]
pub(crate) fn utf8_text(bytes: &[u8]) -> (text: Result<&str, (usize, bool)>)
    ensures
        match text {
            Ok(s) => valid_utf8(bytes@) && s@ == decode_utf8(bytes@),
            Err((n, cut)) => !valid_utf8(bytes@) && is_valid_prefix_len(bytes@, n as int) && cut
                == can_continue(bytes@),
        },
{
    match std::str::from_utf8(bytes) {
        Ok(s) => Ok(s),
        Err(e) => Err((e.valid_up_to(), e.error_len().is_none())),
    }
}

} // verus!
