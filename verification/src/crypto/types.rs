//! Keys and signatures as sized byte strings tagged with a security level.

use crate::crypto::error::{CryptoError, CryptoErrorView, CryptoResult};
use crate::crypto::SecurityLevel;
use crate::text::{decimal, push_decimal};
use vstd::prelude::*;
use vstd::string::StringExecFns;

verus! {

/// The mathematical content of a key or a signature: its bytes and its
/// security level.
pub struct KeyMaterial {
    pub bytes: Seq<u8>,
    pub level: SecurityLevel,
}

/// The line `Name(level, n bytes...)` with which keys and signatures are
/// shown; `closing` ends it.
pub open spec fn material_text(name: Seq<char>, material: KeyMaterial, closing: Seq<char>) -> Seq<
    char,
> {
    name + material.level.name() + ", "@ + decimal(material.bytes.len()) + closing
}

fn material_string(name: &str, level: SecurityLevel, len: usize, closing: &str) -> (r: String)
    ensures
        r@ == name@ + level.name() + ", "@ + decimal(len as nat) + closing@,
{
    let mut out = String::from_str(name);
    out.append(level.label());
    out.append(", ");
    push_decimal(&mut out, len as u64);
    out.append(closing);
    out
}

/// A public key, used to verify signatures.
#[derive(Debug, PartialEq, Eq)]
pub struct PublicKey {
    pub(crate) bytes: Vec<u8>,
    pub(crate) security_level: SecurityLevel,
}

impl View for PublicKey {
    type V = KeyMaterial;

    closed spec fn view(&self) -> KeyMaterial {
        KeyMaterial { bytes: self.bytes@, level: self.security_level }
    }
}

impl Clone for PublicKey {
    fn clone(&self) -> (r: Self)
        ensures
            r@ == self@,
    {
        proof {
            use_type_invariant(self);
        }
        PublicKey { bytes: self.bytes.clone(), security_level: self.security_level }
    }
}

impl PublicKey {
    #[verifier::type_invariant]
    spec fn sized(self) -> bool {
        self.bytes@.len() == self.security_level.public_key_size()
    }

    /// Wraps `bytes` as a public key of the given level; the length must be the
    /// one that the level fixes.
    pub fn from_bytes(bytes: Vec<u8>, security_level: SecurityLevel) -> (r: CryptoResult<Self>)
        ensures
            match r {
                Ok(made) => {
                    &&& bytes@.len() == security_level.public_key_size()
                    &&& made@ == (KeyMaterial { bytes: bytes@, level: security_level })
                },
                Err(e) => {
                    &&& bytes@.len() != security_level.public_key_size()
                    &&& e@ == (CryptoErrorView::InvalidKeySize {
                        expected: security_level.public_key_size(),
                        actual: bytes@.len() as usize,
                    })
                },
            },
    {
        let expected_size = security_level.public_key_size();
        if bytes.len() != expected_size {
            return Err(CryptoError::InvalidKeySize { expected: expected_size, actual: bytes.len() });
        }
        Ok(PublicKey { bytes, security_level })
    }

    /// Wraps bytes whose length is known to be the one that the level fixes.
    pub(crate) fn from_sized(bytes: Vec<u8>, security_level: SecurityLevel) -> (r: Self)
        requires
            bytes@.len() == security_level.public_key_size(),
        ensures
            r@ == (KeyMaterial { bytes: bytes@, level: security_level }),
    {
        PublicKey { bytes, security_level }
    }

    /// The raw bytes; their number is the one that the level fixes.
    pub fn as_bytes(&self) -> (r: &[u8])
        ensures
            r@ == self@.bytes,
            r@.len() == self@.level.public_key_size(),
    {
        proof {
            use_type_invariant(self);
        }
        self.bytes.as_slice()
    }

    /// The security level.
    pub fn security_level(&self) -> (r: SecurityLevel)
        ensures
            r == self@.level,
    {
        self.security_level
    }

    /// The number of bytes, which is the one that the level fixes.
    pub fn size(&self) -> (r: usize)
        ensures
            r == self@.bytes.len(),
            r == self@.level.public_key_size(),
    {
        proof {
            use_type_invariant(self);
        }
        self.bytes.len()
    }

    /// The line that shows the level and the size.
    pub fn to_string(&self) -> (r: String)
        ensures
            r@ == material_text("PublicKey("@, self@, " bytes)"@),
    {
        material_string("PublicKey(", self.security_level, self.bytes.len(), " bytes)")
    }
}

/// A private key, used to sign.
#[derive(Debug, PartialEq, Eq)]
pub struct PrivateKey {
    pub(crate) bytes: Vec<u8>,
    pub(crate) security_level: SecurityLevel,
}

impl View for PrivateKey {
    type V = KeyMaterial;

    closed spec fn view(&self) -> KeyMaterial {
        KeyMaterial { bytes: self.bytes@, level: self.security_level }
    }
}

impl Clone for PrivateKey {
    fn clone(&self) -> (r: Self)
        ensures
            r@ == self@,
    {
        proof {
            use_type_invariant(self);
        }
        PrivateKey { bytes: self.bytes.clone(), security_level: self.security_level }
    }
}

impl PrivateKey {
    #[verifier::type_invariant]
    spec fn sized(self) -> bool {
        self.bytes@.len() == self.security_level.private_key_size()
    }

    /// Wraps `bytes` as a private key of the given level; the length must be the
    /// one that the level fixes.
    pub fn from_bytes(bytes: Vec<u8>, security_level: SecurityLevel) -> (r: CryptoResult<Self>)
        ensures
            match r {
                Ok(made) => {
                    &&& bytes@.len() == security_level.private_key_size()
                    &&& made@ == (KeyMaterial { bytes: bytes@, level: security_level })
                },
                Err(e) => {
                    &&& bytes@.len() != security_level.private_key_size()
                    &&& e@ == (CryptoErrorView::InvalidKeySize {
                        expected: security_level.private_key_size(),
                        actual: bytes@.len() as usize,
                    })
                },
            },
    {
        let expected_size = security_level.private_key_size();
        if bytes.len() != expected_size {
            return Err(CryptoError::InvalidKeySize { expected: expected_size, actual: bytes.len() });
        }
        Ok(PrivateKey { bytes, security_level })
    }

    /// Wraps bytes whose length is known to be the one that the level fixes.
    pub(crate) fn from_sized(bytes: Vec<u8>, security_level: SecurityLevel) -> (r: Self)
        requires
            bytes@.len() == security_level.private_key_size(),
        ensures
            r@ == (KeyMaterial { bytes: bytes@, level: security_level }),
    {
        PrivateKey { bytes, security_level }
    }

    /// The raw bytes; their number is the one that the level fixes.
    pub fn as_bytes(&self) -> (r: &[u8])
        ensures
            r@ == self@.bytes,
            r@.len() == self@.level.private_key_size(),
    {
        proof {
            use_type_invariant(self);
        }
        self.bytes.as_slice()
    }

    /// The security level.
    pub fn security_level(&self) -> (r: SecurityLevel)
        ensures
            r == self@.level,
    {
        self.security_level
    }

    /// The number of bytes, which is the one that the level fixes.
    pub fn size(&self) -> (r: usize)
        ensures
            r == self@.bytes.len(),
            r == self@.level.private_key_size(),
    {
        proof {
            use_type_invariant(self);
        }
        self.bytes.len()
    }

    /// The line that shows the level and the size, never the bytes.
    pub fn to_string(&self) -> (r: String)
        ensures
            r@ == material_text("PrivateKey("@, self@, " bytes, REDACTED)"@),
    {
        material_string("PrivateKey(", self.security_level, self.bytes.len(), " bytes, REDACTED)")
    }
}

/// A signature over a message.
#[derive(Debug, PartialEq, Eq)]
pub struct Signature {
    pub(crate) bytes: Vec<u8>,
    pub(crate) security_level: SecurityLevel,
}

impl View for Signature {
    type V = KeyMaterial;

    closed spec fn view(&self) -> KeyMaterial {
        KeyMaterial { bytes: self.bytes@, level: self.security_level }
    }
}

impl Clone for Signature {
    fn clone(&self) -> (r: Self)
        ensures
            r@ == self@,
    {
        proof {
            use_type_invariant(self);
        }
        Signature { bytes: self.bytes.clone(), security_level: self.security_level }
    }
}

impl Signature {
    #[verifier::type_invariant]
    spec fn sized(self) -> bool {
        self.bytes@.len() == self.security_level.signature_size()
    }

    /// Wraps `bytes` as a signature of the given level; the length must be the
    /// one that the level fixes.
    pub fn from_bytes(bytes: Vec<u8>, security_level: SecurityLevel) -> (r: CryptoResult<Self>)
        ensures
            match r {
                Ok(made) => {
                    &&& bytes@.len() == security_level.signature_size()
                    &&& made@ == (KeyMaterial { bytes: bytes@, level: security_level })
                },
                Err(e) => {
                    &&& bytes@.len() != security_level.signature_size()
                    &&& e@ == (CryptoErrorView::InvalidSignatureSize {
                        expected: security_level.signature_size(),
                        actual: bytes@.len() as usize,
                    })
                },
            },
    {
        let expected_size = security_level.signature_size();
        if bytes.len() != expected_size {
            return Err(CryptoError::InvalidSignatureSize { expected: expected_size, actual: bytes.len() });
        }
        Ok(Signature { bytes, security_level })
    }

    /// Wraps bytes whose length is known to be the one that the level fixes.
    pub(crate) fn from_sized(bytes: Vec<u8>, security_level: SecurityLevel) -> (r: Self)
        requires
            bytes@.len() == security_level.signature_size(),
        ensures
            r@ == (KeyMaterial { bytes: bytes@, level: security_level }),
    {
        Signature { bytes, security_level }
    }

    /// The raw bytes; their number is the one that the level fixes.
    pub fn as_bytes(&self) -> (r: &[u8])
        ensures
            r@ == self@.bytes,
            r@.len() == self@.level.signature_size(),
    {
        proof {
            use_type_invariant(self);
        }
        self.bytes.as_slice()
    }

    /// The security level.
    pub fn security_level(&self) -> (r: SecurityLevel)
        ensures
            r == self@.level,
    {
        self.security_level
    }

    /// The number of bytes, which is the one that the level fixes.
    pub fn size(&self) -> (r: usize)
        ensures
            r == self@.bytes.len(),
            r == self@.level.signature_size(),
    {
        proof {
            use_type_invariant(self);
        }
        self.bytes.len()
    }

    /// The line that shows the level and the size.
    pub fn to_string(&self) -> (r: String)
        ensures
            r@ == material_text("Signature("@, self@, " bytes)"@),
    {
        material_string("Signature(", self.security_level, self.bytes.len(), " bytes)")
    }
}

} // verus!
