use vstd::prelude::*;
use vstd::utf8::encode_utf8;
use sha2::Digest;

verus! {

/// The SHA-256 digest of a byte sequence.
pub uninterp spec fn sha256_of(data: Seq<u8>) -> Seq<u8>;

/// Relies on sha2's `Sha256::digest`: the 32-byte SHA-256 digest of `data`.
#[verifier::external_body]
fn sha256(data: &[u8]) -> (r: [u8; 32])
    ensures
        r@ == sha256_of(data@),
{
    sha2::Sha256::digest(data).into()
}

/// A function selector built from a digest: four zero bytes, then the digest's
/// first four bytes.
pub fn selector_from_digest(digest: &[u8; 32]) -> (r: [u8; 8])
    ensures
        r@ == seq![0u8, 0u8, 0u8, 0u8] + digest@.subrange(0, 4),
{
    let r: [u8; 8] = [0u8, 0u8, 0u8, 0u8, digest[0], digest[1], digest[2], digest[3]];
    assert(r@ =~= seq![0u8, 0u8, 0u8, 0u8] + digest@.subrange(0, 4));
    r
}

/// The selector of a function signature such as `entry_one(u64)`: four zero bytes,
/// then the first four bytes of the SHA-256 digest of the signature's UTF-8 bytes.
pub fn first_four_bytes_of_sha256_hash(signature: &str) -> (r: [u8; 8])
    ensures
        r@ == seq![0u8, 0u8, 0u8, 0u8] + sha256_of(encode_utf8(signature@)).subrange(0, 4),
{
    let digest = sha256(signature.as_bytes());
    selector_from_digest(&digest)
}

} // verus!
