//! Signing and verification at either security level.

use crate::crypto::ed25519::{
    ed25519_signature, ed25519_verification, sign_with_secret, verify_with_public,
};
use crate::crypto::error::{CryptoError, CryptoErrorView, CryptoResult};
use crate::crypto::keypair::{pad_with_zeros, zero_padded};
use crate::encoding::leading;
use crate::crypto::types::{KeyMaterial, PrivateKey, PublicKey, Signature};
use vstd::prelude::*;
use vstd::string::StringExecFns;

verus! {

/// The signature on `message` under a private key: the Ed25519 signature
/// under the key's first 32 bytes, padded with zeros to the size that the
/// key's level fixes.
pub open spec fn signature_of(private: KeyMaterial, message: Seq<u8>) -> KeyMaterial {
    KeyMaterial {
        bytes: zero_padded(
            ed25519_signature(private.bytes.subrange(0, 32), message),
            private.level.signature_size() as nat,
        ),
        level: private.level,
    }
}

/// The outcome of checking `signature` on `message` under `public`: a level
/// mismatch is an error, so are key bytes that the engine refuses, and
/// otherwise the engine's verdict on the leading 64 and 32 bytes stands.
pub open spec fn verification(signature: KeyMaterial, message: Seq<u8>, public: KeyMaterial)
    -> Result<bool, CryptoErrorView> {
    if signature.level != public.level {
        Err(
            CryptoErrorView::SecurityLevelMismatch {
                expected: public.level,
                actual: signature.level,
            },
        )
    } else {
        match ed25519_verification(
            public.bytes.subrange(0, 32),
            message,
            signature.bytes.subrange(0, 64),
        ) {
            Ok(verdict) => Ok(verdict),
            Err(text) => Err(
                CryptoErrorView::InvalidFormat { reason: "Invalid Ed25519 public key: "@ + text },
            ),
        }
    }
}

/// Signs `message` with `private_key`.
pub fn sign(message: &[u8], private_key: &PrivateKey) -> (r: CryptoResult<Signature>)
    ensures
        r is Ok,
        r.unwrap()@ == signature_of(private_key@, message@),
{
    let level = private_key.security_level();
    let secret: [u8; 32] = leading::<32>(private_key.as_bytes());
    let raw = sign_with_secret(&secret, message);
    let bytes = pad_with_zeros(raw.as_slice(), level.signature_size());
    Ok(Signature::from_sized(bytes, level))
}

/// Checks `signature` on `message` under `public_key`.
pub fn verify(signature: &Signature, message: &[u8], public_key: &PublicKey) -> (r: CryptoResult<
    bool,
>)
    ensures
        match r {
            Ok(verdict) => verification(signature@, message@, public_key@) == Ok::<
                bool,
                CryptoErrorView,
            >(verdict),
            Err(e) => verification(signature@, message@, public_key@) == Err::<
                bool,
                CryptoErrorView,
            >(e@),
        },
{
    if signature.security_level() != public_key.security_level() {
        return Err(
            CryptoError::SecurityLevelMismatch {
                expected: public_key.security_level(),
                actual: signature.security_level(),
            },
        );
    }
    let key: [u8; 32] = leading::<32>(public_key.as_bytes());
    let sig: [u8; 64] = leading::<64>(signature.as_bytes());
    match verify_with_public(&key, message, &sig) {
        Ok(verdict) => Ok(verdict),
        Err(text) => {
            let mut reason = String::from_str("Invalid Ed25519 public key: ");
            reason.append(text.as_str());
            Err(CryptoError::InvalidFormat { reason })
        },
    }
}

} // verus!
