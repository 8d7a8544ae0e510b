//! The Ed25519 primitives that stand behind both security levels.

use ed25519_dalek::{Signature, Signer, SigningKey, Verifier, VerifyingKey};
use vstd::prelude::*;

verus! {

/// The public key that `ed25519-dalek` derives from a 32-byte secret.
pub uninterp spec fn ed25519_public(secret: Seq<u8>) -> Seq<u8>;

/// The signature that `ed25519-dalek` computes on a message under a secret.
pub uninterp spec fn ed25519_signature(secret: Seq<u8>, message: Seq<u8>) -> Seq<u8>;

/// What `ed25519-dalek` decides of a signature on a message under a public
/// key: whether it verifies, or the text of the error with which the key's
/// bytes were refused.
pub uninterp spec fn ed25519_verification(
    public_key: Seq<u8>,
    message: Seq<u8>,
    signature: Seq<u8>,
) -> Result<bool, Seq<char>>;

/// Thirty-two bytes from the thread-local generator of the `rand` crate
/// (`rand::random`). Nothing is known of them.
#[verifier::external_body]
pub(crate) fn random_seed() -> [u8; 32] {
    rand::random::<[u8; 32]>()
}

/// `SigningKey::from_bytes` followed by `verifying_key`: the 32 bytes of the
/// public key that belongs to `secret`, a function of the secret alone.
#[verifier::external_body]
pub(crate) fn public_from_secret(secret: &[u8; 32]) -> (r: [u8; 32])
    ensures
        r@ == ed25519_public(secret@),
{
    SigningKey::from_bytes(secret).verifying_key().to_bytes()
}

/// `Signer::sign` of a `SigningKey`: the 64 bytes of the signature, a
/// function of the secret and the message alone (signing draws no
/// randomness and does not fail).
#[verifier::external_body]
pub(crate) fn sign_with_secret(secret: &[u8; 32], message: &[u8]) -> (r: [u8; 64])
    ensures
        r@ == ed25519_signature(secret@, message@),
{
    SigningKey::from_bytes(secret).sign(message).to_bytes()
}

/// `VerifyingKey::from_bytes` followed by `Verifier::verify`: `Ok` with the
/// verdict where the key's bytes are accepted, else `Err` with the error's
/// text; a function of the three byte strings alone.
#[verifier::external_body]
pub(crate) fn verify_with_public(public_key: &[u8; 32], message: &[u8], signature: &[u8; 64]) -> (r:
    Result<bool, String>)
    ensures
        match r {
            Ok(verdict) => ed25519_verification(public_key@, message@, signature@) == Ok::<
                bool,
                Seq<char>,
            >(verdict),
            Err(text) => ed25519_verification(public_key@, message@, signature@) == Err::<
                bool,
                Seq<char>,
            >(text@),
        },
{
    match VerifyingKey::from_bytes(public_key) {
        Ok(key) => Ok(key.verify(message, &Signature::from_bytes(signature)).is_ok()),
        Err(e) => Err(e.to_string()),
    }
}

} // verus!
