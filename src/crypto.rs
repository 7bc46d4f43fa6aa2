//! The host's cryptographic primitives: SHA-256 and Ed25519 verification.
use vstd::prelude::*;

verus! {

/// The SHA-256 digest of `data`.
pub uninterp spec fn sha256_of(data: Seq<u8>) -> Seq<u8>;

/// Whether `sig` is a valid strict Ed25519 signature of `msg` under the
/// public key `pk`.
pub uninterp spec fn ed25519_accepts(pk: Seq<u8>, msg: Seq<u8>, sig: Seq<u8>) -> bool;

/// Relies on sha2's `Sha256::digest` (the hash the ledger host computes): the
/// 32-byte digest depends on the input bytes alone.
#[verifier::external_body]
pub(crate) fn sha256(data: &[u8]) -> (r: [u8; 32])
    ensures
        r@ == sha256_of(data@),
{
    <sha2::Sha256 as sha2::Digest>::digest(data).into()
}

/// Relies on ed25519-dalek's `VerifyingKey::from_bytes` and `verify_strict`,
/// the check that the ledger host runs: the answer depends on the key, the
/// message and the signature alone, and a key that does not decode fails.
#[verifier::external_body]
pub(crate) fn ed25519_verify(pk: &[u8; 32], msg: &[u8], sig: &[u8; 64]) -> (r: bool)
    ensures
        r == ed25519_accepts(pk@, msg@, sig@),
{
    let signature = ed25519_dalek::Signature::from_bytes(sig);
    match ed25519_dalek::VerifyingKey::from_bytes(pk) {
        Ok(key) => key.verify_strict(msg, &signature).is_ok(),
        Err(_) => false,
    }
}

} // verus!
