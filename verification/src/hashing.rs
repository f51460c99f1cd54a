//! Content addressing for the contribution ledger: hex-encoded SHA-256
//! digests of a contribution's content bytes.

use vstd::prelude::*;
use sha2::Digest;

verus! {

/// The UTF-8 encoding of a text: a fixed function of the characters
/// alone, left abstract here.
pub uninterp spec fn utf8_bytes_of(s: Seq<char>) -> Seq<u8>;

/// Relies on `str::as_bytes`: the UTF-8 bytes of the string, a function
/// of its characters alone.
#[verifier::external_body]
fn str_utf8_bytes(s: &str) -> (r: &[u8])
    ensures
        r@ == utf8_bytes_of(s@),
{
    s.as_bytes()
}

/// The SHA-256 digest of a byte string: a fixed function of the bytes
/// alone, left abstract here.
pub uninterp spec fn sha256_of(bytes: Seq<u8>) -> Seq<u8>;

/// Relies on sha2's `Sha256::digest`: a 32-byte digest that depends on
/// the input bytes alone.
#[verifier::external_body]
fn sha256_digest(data: &[u8]) -> (r: Vec<u8>)
    ensures
        r@ == sha256_of(data@),
        r@.len() == 32,
{
    sha2::Sha256::digest(data).to_vec()
}

/// The lowercase hex digit of a value below sixteen.
pub open spec fn hex_digit(v: u8) -> char {
    if v < 10 {
        ((v + 48) as char)
    } else {
        ((v + 87) as char)
    }
}

/// The lowercase hex encoding of a byte string: two digits per byte, high
/// nibble first.
pub open spec fn hex_of(bytes: Seq<u8>) -> Seq<char>
    decreases bytes.len(),
{
    if bytes.len() == 0 {
        Seq::empty()
    } else {
        hex_of(bytes.drop_last()) + seq![
            hex_digit(bytes.last() / 16),
            hex_digit(bytes.last() % 16),
        ]
    }
}

/// A hex encoding has two characters per byte.
pub proof fn lemma_hex_of_len(bytes: Seq<u8>)
    ensures
        hex_of(bytes).len() == 2 * bytes.len(),
    decreases bytes.len(),
{
    if bytes.len() > 0 {
        lemma_hex_of_len(bytes.drop_last());
    }
}

/// Relies on hex's `encode`: the lowercase hex form of the bytes, two
/// digits per byte, high nibble first.
#[verifier::external_body]
fn hex_encode(data: &[u8]) -> (r: String)
    ensures
        r@ == hex_of(data@),
{
    hex::encode(data)
}

/// The content hash of a text: the hex-encoded SHA-256 digest of its
/// UTF-8 bytes.
pub open spec fn content_hash_of(s: Seq<char>) -> Seq<char> {
    hex_of(sha256_of(utf8_bytes_of(s)))
}

/// Compute a text's content hash; it is a function of the content alone
/// and always 64 characters long.
pub(crate) fn generate_content_hash(content: &str) -> (r: String)
    ensures
        r@ == content_hash_of(content@),
        r@.len() == 64,
{
    let digest = sha256_digest(str_utf8_bytes(content));
    let r = hex_encode(digest.as_slice());
    proof {
        lemma_hex_of_len(sha256_of(utf8_bytes_of(content@)));
    }
    r
}

} // verus!
