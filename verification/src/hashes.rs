//! Trusted boundary to the outside hash and curve crates. Each wrapper makes
//! one outside call; its result is named by an uninterpreted spec function of
//! the arguments alone, so contracts above can be exact.

use sha2::Digest;
use vstd::prelude::*;

verus! {

/// The SHA-224 digest of a byte sequence.
pub uninterp spec fn sha224_of(data: Seq<u8>) -> Seq<u8>;

/// Relies on sha2::Sha224: the digest is 28 bytes and depends on the input
/// bytes alone.
#[verifier::external_body]
pub(crate) fn sha224(data: &Vec<u8>) -> (r: Vec<u8>)
    ensures
        r@ == sha224_of(data@),
        r@.len() == 28,
{
    let mut hasher = sha2::Sha224::new();
    hasher.update(data.as_slice());
    hasher.finalize().to_vec()
}

/// The SHA-256 digest of a byte sequence.
pub uninterp spec fn sha256_of(data: Seq<u8>) -> Seq<u8>;

/// Relies on sha2::Sha256: the digest is 32 bytes and depends on the input
/// bytes alone.
#[verifier::external_body]
pub(crate) fn sha256(data: &Vec<u8>) -> (r: Vec<u8>)
    ensures
        r@ == sha256_of(data@),
        r@.len() == 32,
{
    let mut hasher = sha2::Sha256::new();
    hasher.update(data.as_slice());
    hasher.finalize().to_vec()
}

/// The CRC-32 (IEEE) checksum of a byte sequence.
pub uninterp spec fn crc32_of(data: Seq<u8>) -> u32;

/// Relies on crc32fast::Hasher: the checksum depends on the input bytes
/// alone.
#[verifier::external_body]
pub(crate) fn crc32(data: &Vec<u8>) -> (r: u32)
    ensures
        r == crc32_of(data@),
{
    let mut hasher = crc32fast::Hasher::new();
    hasher.update(data.as_slice());
    hasher.finalize()
}

/// The RIPEMD-160 digest of a byte sequence.
pub uninterp spec fn ripemd160_of(data: Seq<u8>) -> Seq<u8>;

/// Relies on ripemd::Ripemd160: the digest is 20 bytes and depends on the
/// input bytes alone.
#[verifier::external_body]
pub(crate) fn ripemd160(data: &Vec<u8>) -> (r: Vec<u8>)
    ensures
        r@ == ripemd160_of(data@),
        r@.len() == 20,
{
    let mut hasher = ripemd::Ripemd160::new();
    hasher.update(data.as_slice());
    hasher.finalize().to_vec()
}

/// The Keccak-256 digest of a byte sequence.
pub uninterp spec fn keccak256_of(data: Seq<u8>) -> Seq<u8>;

/// Relies on easy_hasher::easy_hasher::raw_keccak256: the digest is 32 bytes
/// and depends on the input bytes alone.
#[verifier::external_body]
pub(crate) fn keccak256(data: &Vec<u8>) -> (r: Vec<u8>)
    ensures
        r@ == keccak256_of(data@),
        r@.len() == 32,
{
    easy_hasher::easy_hasher::raw_keccak256(data.clone()).to_vec()
}

/// The base-58 rendering (Bitcoin alphabet) of a byte sequence.
pub uninterp spec fn base58_of(data: Seq<u8>) -> Seq<char>;

/// Relies on bs58::encode with its default (Bitcoin) alphabet: the rendering
/// depends on the input bytes alone.
#[verifier::external_body]
pub(crate) fn base58_encode(data: &Vec<u8>) -> (r: String)
    ensures
        r@ == base58_of(data@),
{
    bs58::encode(data.as_slice()).into_string()
}

/// The uncompressed SEC1 form of a compressed public key, or `None` when the
/// 33 bytes denote no curve point.
pub uninterp spec fn uncompressed_of(compressed: Seq<u8>) -> Option<Seq<u8>>;

/// Relies on libsecp256k1::PublicKey::parse_compressed, which accepts
/// exactly the 33-byte encodings of curve points, and PublicKey::serialize,
/// which renders the accepted point in the 65-byte uncompressed SEC1 form.
/// Both depend on the input bytes alone.
#[verifier::external_body]
pub(crate) fn decompress_public_key(compressed: &Vec<u8>) -> (r: Option<Vec<u8>>)
    requires
        compressed@.len() == 33,
    ensures
        r.deep_view() == uncompressed_of(compressed@),
        r matches Some(u) ==> u@.len() == 65,
{
    let mut buf = [0u8; 33];
    buf.copy_from_slice(compressed.as_slice());
    match libsecp256k1::PublicKey::parse_compressed(&buf) {
        Ok(key) => Some(key.serialize().to_vec()),
        Err(_) => None,
    }
}

/// The compressed public key recovered from a digest, a 64-byte signature
/// and a recovery id, or `None` when recovery fails.
pub uninterp spec fn recover_of(digest: Seq<u8>, signature: Seq<u8>, recovery_id: u8) -> Option<
    Seq<u8>,
>;

/// Relies on libsecp256k1::recover (with Message::parse_slice,
/// Signature::parse_standard_slice and RecoveryId::parse converting the
/// arguments, and PublicKey::serialize_compressed converting the result):
/// recovery is a function of digest, signature and recovery id alone.
#[verifier::external_body]
pub(crate) fn recover_public_key(digest: &Vec<u8>, signature: &Vec<u8>, recovery_id: u8) -> (r:
    Option<Vec<u8>>)
    requires
        digest@.len() == 32,
        signature@.len() == 64,
        recovery_id < 2,
    ensures
        r.deep_view() == recover_of(digest@, signature@, recovery_id),
        r matches Some(k) ==> k@.len() == 33,
{
    let message = libsecp256k1::Message::parse_slice(digest.as_slice()).ok()?;
    let sig = libsecp256k1::Signature::parse_standard_slice(signature.as_slice()).ok()?;
    let rid = libsecp256k1::RecoveryId::parse(recovery_id).ok()?;
    let key = libsecp256k1::recover(&message, &sig, &rid).ok()?;
    Some(key.serialize_compressed().to_vec())
}

} // verus!
