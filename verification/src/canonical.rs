use sha2::Digest;
use vstd::prelude::*;

verus! {

/// The lowercase hexadecimal digit for a value below sixteen.
pub open spec fn hex_char(d: u8) -> char {
    if d < 10 {
        (48 + d) as char
    } else {
        (87 + d) as char
    }
}

/// Bytes as lowercase hexadecimal text, two digits per byte, high digit
/// first.
pub open spec fn hex_text(bytes: Seq<u8>) -> Seq<char>
    decreases bytes.len(),
{
    if bytes.len() == 0 {
        Seq::empty()
    } else {
        hex_text(bytes.drop_last()) + seq![hex_char(bytes.last() / 16), hex_char(bytes.last() % 16)]
    }
}

/// The SHA-256 digest of `data`.
pub uninterp spec fn sha256_digest(data: Seq<u8>) -> Seq<u8>;

/// Hashes bytes with sha2's `Sha256::digest`. Trusted: the digest is taken
/// to be a function of the bytes alone, named `sha256_digest`, and, as
/// SHA-256 specifies, 32 bytes long; nothing more is stated of it.
#[verifier::external_body]
fn sha256(data: &[u8]) -> (r: [u8; 32])
    ensures
        r@ == sha256_digest(data@),
        r@.len() == 32,
{
    sha2::Sha256::digest(data).into()
}

/// Encodes bytes with `hex::encode`. Trusted: hex documents and implements
/// lowercase digits, two per byte, high digit first.
#[verifier::external_body]
fn hex_encode(data: &[u8]) -> (r: String)
    ensures
        r@ == hex_text(data@),
{
    hex::encode(data)
}

/// The lowercase hexadecimal SHA-256 digest of a program's canonical
/// payload, as it is recorded in a program header.
pub fn payload_sha256(payload: &[u8]) -> (r: String)
    ensures
        r@ == hex_text(sha256_digest(payload@)),
        r@.len() == 64,
{
    let digest = sha256(payload);
    let r = hex_encode(&digest);
    proof {
        lemma_hex_text_len(digest@);
    }
    r
}

proof fn lemma_hex_text_len(bytes: Seq<u8>)
    ensures
        hex_text(bytes).len() == 2 * bytes.len(),
    decreases bytes.len(),
{
    if bytes.len() > 0 {
        lemma_hex_text_len(bytes.drop_last());
    }
}

} // verus!
