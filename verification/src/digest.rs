//! The fingerprint of an entry: a SHA-256 digest over its text.

use vstd::prelude::*;
use vstd::string::*;
use vstd::utf8::encode_utf8;

verus! {

/// The number of bytes in a fingerprint.
pub const DIGEST_LEN: usize = 32;

/// The SHA-256 digest of a byte string.
pub uninterp spec fn sha256_of(data: Seq<u8>) -> Seq<u8>;

/// Calls `Sha256::digest` of the crate sha2, which feeds `data` to a fresh
/// hasher and finalises it. The digest depends on the bytes alone and is 32
/// bytes long; the contract names it and states that length.
#[verifier::external_body]
pub(crate) fn sha256(data: &[u8]) -> (out: Vec<u8>)
    ensures
        out@ == sha256_of(data@),
        out@.len() == DIGEST_LEN,
{
    <sha2::Sha256 as sha2::Digest>::digest(data).to_vec()
}

/// The bytes that are hashed for an entry: the UTF-8 form of its stored
/// keyword text, title, content and timestamp, one behind the other.
pub open spec fn fingerprint_input(
    keywords: Seq<char>,
    title: Seq<char>,
    content: Seq<char>,
    date: Seq<char>,
) -> Seq<u8> {
    encode_utf8(keywords + title + content + date)
}

/// The fingerprint of an entry with these texts.
pub open spec fn fingerprint_of(
    keywords: Seq<char>,
    title: Seq<char>,
    content: Seq<char>,
    date: Seq<char>,
) -> Seq<u8> {
    sha256_of(fingerprint_input(keywords, title, content, date))
}

/// Computes the fingerprint of an entry from its stored keyword text, its
/// title, its content and its timestamp.
pub fn fingerprint(keywords: &str, title: &str, content: &str, date: &str) -> (out: Vec<u8>)
    ensures
        out@ == fingerprint_of(keywords@, title@, content@, date@),
        out@.len() == DIGEST_LEN,
{
    let mut input = String::new();
    input.append(keywords);
    input.append(title);
    input.append(content);
    input.append(date);
    assert(input@ =~= keywords@ + title@ + content@ + date@);
    sha256(input.as_str().as_bytes())
}

} // verus!
