//! Ed25519, as the `ed25519_dalek` crate computes it.

use ed25519_dalek::{Signature, Signer, SigningKey, Verifier, VerifyingKey};
use vstd::prelude::*;

verus! {

/// The public key that belongs to a seed.
pub uninterp spec fn ed25519_public(seed: Seq<u8>) -> Seq<u8>;

/// The signature that a seed gives a message.
pub uninterp spec fn ed25519_signature(seed: Seq<u8>, message: Seq<u8>) -> Seq<u8>;

/// Whether bytes are a public key.
pub uninterp spec fn ed25519_is_key(key: Seq<u8>) -> bool;

/// Whether a signature of a message verifies under a public key.
pub uninterp spec fn ed25519_verifies(key: Seq<u8>, message: Seq<u8>, signature: Seq<u8>) -> bool;

/// Calls `SigningKey::from_bytes` and `SigningKey::verifying_key`: the public
/// key depends on the seed alone, and is one that `VerifyingKey::from_bytes`
/// takes.
#[verifier::external_body]
pub(crate) fn public_key(seed: &[u8; 32]) -> (r: [u8; 32])
    ensures
        r@ == ed25519_public(seed@),
        ed25519_is_key(r@),
{
    SigningKey::from_bytes(seed).verifying_key().to_bytes()
}

/// Calls `SigningKey::sign`: the signature depends on the seed and the message
/// alone, and verifies under the seed's public key.
#[verifier::external_body]
pub(crate) fn sign(seed: &[u8; 32], message: &[u8]) -> (r: [u8; 64])
    ensures
        r@ == ed25519_signature(seed@, message@),
        ed25519_verifies(ed25519_public(seed@), message@, r@),
{
    SigningKey::from_bytes(seed).sign(message).to_bytes()
}

/// Calls `VerifyingKey::from_bytes`: whether it takes the bytes depends on
/// them alone.
#[verifier::external_body]
pub(crate) fn is_key(key: &[u8; 32]) -> (r: bool)
    ensures
        r == ed25519_is_key(key@),
{
    VerifyingKey::from_bytes(key).is_ok()
}

/// Calls `VerifyingKey::verify`: the answer depends on the key, the message
/// and the signature alone, and is no where the bytes are no key.
#[verifier::external_body]
pub(crate) fn verifies(key: &[u8; 32], message: &[u8], signature: &[u8; 64]) -> (r: bool)
    ensures
        r == ed25519_verifies(key@, message@, signature@),
        !ed25519_is_key(key@) ==> !r,
{
    match VerifyingKey::from_bytes(key) {
        Ok(k) => k.verify(message, &Signature::from_bytes(signature)).is_ok(),
        Err(_) => false,
    }
}

} // verus!
