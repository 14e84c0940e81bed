//! Trusted boundary to the cryptographic primitives and to randomness:
//! Blake2b digests, ed25519 signatures and random indices.
//!
//! The digest and signature functions are pure: their results are named
//! by uninterpreted spec functions, and the verified logic is stated and
//! proved over those names.

use vstd::prelude::*;

use crate::numbers::{PublicKey, RawKey, Signature};

verus! {

/// The 32-byte Blake2b digest of a byte string.
pub uninterp spec fn blake2b_of(bytes: Seq<u8>) -> Seq<u8>;

/// The ed25519 signature produced by a private key over a message.
pub uninterp spec fn sign_of(prv: Seq<u8>, msg: Seq<u8>) -> Seq<u8>;

/// The ed25519 public key derived from a private key.
pub uninterp spec fn public_of(prv: Seq<u8>) -> Seq<u8>;

/// Whether a signature verifies under a public key for a message.
pub uninterp spec fn sig_check(key: Seq<u8>, msg: Seq<u8>, sig: Seq<u8>) -> bool;

/// Relies on `blake2::Blake2b::<U32>::digest`: a 32-byte Blake2b digest
/// that depends on the input bytes alone.
#[verifier::external_body]
pub fn blake2b_digest(bytes: &[u8]) -> (r: [u8; 32])
    ensures
        r@ == blake2b_of(bytes@),
        r@.len() == 32,
{
    let digest = <blake2::Blake2b<blake2::digest::consts::U32> as blake2::Digest>::digest(bytes);
    digest.into()
}

/// Relies on `ed25519_dalek::SigningKey::from_bytes` and `Signer::sign`:
/// deterministic ed25519 signing, a function of key and message alone.
/// The result verifies under the key's public key, as the signature
/// crate documents of its own signatures.
#[verifier::external_body]
pub fn sign_message_raw(prv: &[u8; 32], msg: &[u8]) -> (r: [u8; 64])
    ensures
        r@ == sign_of(prv@, msg@),
        r@.len() == 64,
        sig_check(public_of(prv@), msg@, r@),
{
    let key = ed25519_dalek::SigningKey::from_bytes(prv);
    let sig = ed25519_dalek::Signer::try_sign(&key, msg).unwrap();
    sig.to_bytes()
}

/// Relies on `ed25519_dalek::SigningKey::verifying_key`: the public key
/// derived from a private key, a function of the private key alone.
#[verifier::external_body]
pub fn derive_public_key(prv: &[u8; 32]) -> (r: [u8; 32])
    ensures
        r@ == public_of(prv@),
        r@.len() == 32,
{
    let key = ed25519_dalek::SigningKey::from_bytes(prv);
    key.verifying_key().to_bytes()
}

/// Relies on `ed25519_dalek::VerifyingKey::from_bytes` and
/// `Verifier::verify`: signature verification, a function of key,
/// message and signature alone; an invalid key encoding verifies nothing.
#[verifier::external_body]
pub fn verify_message_raw(key: &[u8; 32], msg: &[u8], sig: &[u8; 64]) -> (r: bool)
    ensures
        r == sig_check(key@, msg@, sig@),
{
    match ed25519_dalek::VerifyingKey::from_bytes(key) {
        Ok(vk) => {
            let signature = ed25519_dalek::Signature::from_bytes(sig);
            ed25519_dalek::Verifier::verify(&vk, msg, &signature).is_ok()
        },
        Err(_) => false,
    }
}

/// Relies on `rand::Rng::gen_range` over `rand::thread_rng`: a uniformly
/// drawn index. Nothing is promised of the value beyond its range.
#[verifier::external_body]
pub fn random_index_up_to(upper: usize) -> (r: usize)
    ensures
        r <= upper,
{
    rand::Rng::gen_range(&mut rand::thread_rng(), 0..=upper)
}

/// Relies on `std::time::SystemTime::now`: seconds since the Unix epoch.
/// Nothing is promised of the value.
#[verifier::external_body]
pub fn seconds_since_epoch() -> (r: u64)
    ensures
        true,
{
    match std::time::SystemTime::now().duration_since(std::time::UNIX_EPOCH) {
        Ok(d) => d.as_secs(),
        Err(_) => 0,
    }
}

/// Signs a message with a private key, returning the signature value.
pub fn sign_message(prv: &RawKey, msg: &[u8]) -> (r: Signature)
    ensures
        r@ == sign_of(prv@, msg@),
        sig_check(public_of(prv@), msg@, r@),
{
    let bytes = sign_message_raw(&prv.bytes, msg);
    Signature::from_bytes(bytes)
}

/// Derives the public key that belongs to a private key.
pub fn public_key(prv: &RawKey) -> (r: PublicKey)
    ensures
        r@ == public_of(prv@),
{
    PublicKey::from_bytes(derive_public_key(&prv.bytes))
}

/// Checks a signature under a public key.
pub fn validate_message(key: &PublicKey, msg: &[u8], sig: &Signature) -> (r: bool)
    ensures
        r == sig_check(key@, msg@, sig@),
{
    verify_message_raw(&key.bytes, msg, &sig.bytes)
}

} // verus!
