//! Random bytes, SHA-256 and URL-safe base64: the PKCE pair of a sign-in and
//! the cache keys of rendered previews.
use base64::Engine;
use rand::Rng;
use sha2::Digest;

use vstd::prelude::*;

use crate::paths::join;
use crate::text::{chars_of, push_str, string_of_range};

verus! {

/// A character of the URL-safe base64 alphabet.
pub open spec fn is_url_safe(c: char) -> bool {
    ('A' <= c && c <= 'Z') || ('a' <= c && c <= 'z') || ('0' <= c && c <= '9') || c == '-' || c
        == '_'
}

/// The URL-safe base64 text of `bytes`, without padding.
pub uninterp spec fn base64_url(bytes: Seq<u8>) -> Seq<char>;

/// The SHA-256 digest of the UTF-8 bytes of `text`.
pub uninterp spec fn sha256_utf8(text: Seq<char>) -> Seq<u8>;

/// Sixty-four bytes from `rand::rng()` (`Rng::fill`). Trusted: only the
/// length is promised; the bytes are random.
#[verifier::external_body]
fn random_bytes() -> (res: Vec<u8>)
    ensures
        res@.len() == 64,
{
    let mut bytes = [0u8; 64];
    rand::rng().fill(&mut bytes);
    bytes.to_vec()
}

/// Encodes with `base64::engine::general_purpose::URL_SAFE_NO_PAD`.
/// Trusted: the text is `base64_url(bytes)`, drawn from the URL-safe
/// alphabet, four characters per three bytes with no padding (the length
/// `encoded_len` computes).
#[verifier::external_body]
fn encode_url_safe(bytes: &Vec<u8>) -> (res: String)
    requires
        bytes@.len() <= 0x3000_0000,
    ensures
        res@ == base64_url(bytes@),
        res@.len() == (4 * bytes@.len() + 2) / 3,
        forall|i: int| 0 <= i < res@.len() ==> is_url_safe(#[trigger] res@[i]),
{
    base64::engine::general_purpose::URL_SAFE_NO_PAD.encode(bytes)
}

/// The SHA-256 digest of `text`'s bytes (`sha2::Sha256`). Trusted: the
/// digest is `sha256_utf8(text)`, 32 bytes long.
#[verifier::external_body]
fn sha256_of(text: &str) -> (res: Vec<u8>)
    ensures
        res@ == sha256_utf8(text@),
        res@.len() == 32,
{
    let mut hasher = sha2::Sha256::new();
    hasher.update(text.as_bytes());
    hasher.finalize().to_vec()
}

/// The challenge that goes with a PKCE verifier (method S256).
pub open spec fn challenge_of(verifier: Seq<char>) -> Seq<char> {
    base64_url(sha256_utf8(verifier))
}

/// The challenge for `verifier`.
pub fn pkce_challenge(verifier: &str) -> (res: String)
    ensures
        res@ == challenge_of(verifier@),
        res@.len() == 43,
{
    let digest = sha256_of(verifier);
    encode_url_safe(&digest)
}

/// A fresh PKCE pair (verifier, challenge): the verifier encodes 64 random
/// bytes, the challenge is derived from it.
pub fn generate_pkce() -> (res: (String, String))
    ensures
        exists|bytes: Seq<u8>| bytes.len() == 64 && res.0@ == base64_url(bytes),
        res.0@.len() == 86,
        forall|i: int| 0 <= i < res.0@.len() ==> is_url_safe(#[trigger] res.0@[i]),
        res.1@ == challenge_of(res.0@),
{
    let bytes = random_bytes();
    let verifier = encode_url_safe(&bytes);
    let challenge = pkce_challenge(verifier.as_str());
    (verifier, challenge)
}

/// The cache key of the preview of the file at `path`: the first sixteen
/// characters of the URL-safe digest of the path.
pub open spec fn preview_key_of(path: Seq<char>) -> Seq<char> {
    base64_url(sha256_utf8(path)).take(16)
}

/// The cache key of a preview.
pub fn preview_key(path: &str) -> (res: String)
    ensures
        res@ == preview_key_of(path@),
{
    let digest = sha256_of(path);
    let encoded = encode_url_safe(&digest);
    let cs = chars_of(encoded.as_str());
    string_of_range(&cs, 0, 16)
}

/// Where the preview of the file at `path` is kept under `dir`.
pub fn preview_path(dir: &str, path: &str) -> (res: String)
    ensures
        res@ == join(dir@, preview_key_of(path@) + ".jpg"@),
{
    let mut name = preview_key(path);
    push_str(&mut name, ".jpg");
    crate::paths::join_path(dir, name.as_str())
}

} // verus!
