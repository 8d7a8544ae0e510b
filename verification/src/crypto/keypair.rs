//! Key pairs: a public and a private key of one security level.

use crate::crypto::ed25519::{ed25519_public, public_from_secret, random_seed};
use crate::crypto::error::{CryptoError, CryptoErrorView, CryptoResult};
use crate::crypto::types::{KeyMaterial, PrivateKey, PublicKey};
use crate::crypto::SecurityLevel;
use vstd::prelude::*;

verus! {

/// `data` followed by zero bytes up to `size` bytes in all.
pub open spec fn zero_padded(data: Seq<u8>, size: nat) -> Seq<u8> {
    Seq::new(
        size,
        |i: int|
            if i < data.len() {
                data[i]
            } else {
                0u8
            },
    )
}

/// `data` followed by zero bytes up to `size` bytes in all.
pub fn pad_with_zeros(data: &[u8], size: usize) -> (r: Vec<u8>)
    requires
        data@.len() <= size,
    ensures
        r@ == zero_padded(data@, size as nat),
{
    let mut out: Vec<u8> = Vec::with_capacity(size);
    let mut i: usize = 0;
    while i < size
        invariant
            i <= size,
            data@.len() <= size,
            out@.len() == i,
            forall|j: int| 0 <= j < i ==> out@[j] == zero_padded(data@, size as nat)[j],
        decreases size - i,
    {
        if i < data.len() {
            out.push(data[i]);
        } else {
            out.push(0u8);
        }
        i += 1;
    }
    assert(out@ =~= zero_padded(data@, size as nat));
    out
}

/// A public and a private key of the same security level.
#[derive(Debug, PartialEq, Eq)]
pub struct Keypair {
    public_key: PublicKey,
    private_key: PrivateKey,
    security_level: SecurityLevel,
}

/// The mathematical content of a [`Keypair`].
pub struct KeypairView {
    pub public: KeyMaterial,
    pub private: KeyMaterial,
}

impl View for Keypair {
    type V = KeypairView;

    closed spec fn view(&self) -> KeypairView {
        KeypairView { public: self.public_key@, private: self.private_key@ }
    }
}

impl Clone for Keypair {
    fn clone(&self) -> (r: Self)
        ensures
            r@ == self@,
    {
        proof {
            use_type_invariant(self);
        }
        Keypair {
            public_key: self.public_key.clone(),
            private_key: self.private_key.clone(),
            security_level: self.security_level,
        }
    }
}

/// The pair that a 32-byte seed determines at a level: the seed and the
/// Ed25519 public key derived from it, each padded with zeros to the size
/// that the level fixes.
pub open spec fn keypair_of_seed(level: SecurityLevel, seed: Seq<u8>) -> KeypairView {
    KeypairView {
        public: KeyMaterial {
            bytes: zero_padded(ed25519_public(seed), level.public_key_size() as nat),
            level,
        },
        private: KeyMaterial {
            bytes: zero_padded(seed, level.private_key_size() as nat),
            level,
        },
    }
}

impl Keypair {
    #[verifier::type_invariant]
    spec fn same_level(self) -> bool {
        &&& self.public_key@.level == self.security_level
        &&& self.private_key@.level == self.security_level
    }

    /// A fresh pair at the given level, from a random 32-byte seed.
    pub fn generate(security_level: SecurityLevel) -> (r: CryptoResult<Self>)
        ensures
            r is Ok,
            exists|seed: Seq<u8>|
                seed.len() == 32 && r.unwrap()@ == keypair_of_seed(security_level, seed),
    {
        let seed = random_seed();
        let pair = Self::from_seed(security_level, &seed);
        Ok(pair)
    }

    /// The pair that `seed` determines at the given level.
    pub fn from_seed(security_level: SecurityLevel, seed: &[u8; 32]) -> (r: Self)
        ensures
            r@ == keypair_of_seed(security_level, seed@),
    {
        let public = public_from_secret(seed);
        let public_bytes = pad_with_zeros(public.as_slice(), security_level.public_key_size());
        let private_bytes = pad_with_zeros(seed.as_slice(), security_level.private_key_size());
        let public_key = PublicKey::from_sized(public_bytes, security_level);
        let private_key = PrivateKey::from_sized(private_bytes, security_level);
        Keypair { public_key, private_key, security_level }
    }

    /// Joins two keys into a pair; their levels must agree.
    pub fn from_keys(public_key: PublicKey, private_key: PrivateKey) -> (r: CryptoResult<Self>)
        ensures
            match r {
                Ok(pair) => {
                    &&& public_key@.level == private_key@.level
                    &&& pair@ == (KeypairView { public: public_key@, private: private_key@ })
                },
                Err(e) => {
                    &&& public_key@.level != private_key@.level
                    &&& e@ == (CryptoErrorView::SecurityLevelMismatch {
                        expected: public_key@.level,
                        actual: private_key@.level,
                    })
                },
            },
    {
        if public_key.security_level() != private_key.security_level() {
            return Err(
                CryptoError::SecurityLevelMismatch {
                    expected: public_key.security_level(),
                    actual: private_key.security_level(),
                },
            );
        }
        let security_level = public_key.security_level();
        Ok(Keypair { public_key, private_key, security_level })
    }

    /// The public key.
    pub fn public_key(&self) -> (r: &PublicKey)
        ensures
            r@ == self@.public,
    {
        &self.public_key
    }

    /// The private key.
    pub fn private_key(&self) -> (r: &PrivateKey)
        ensures
            r@ == self@.private,
    {
        &self.private_key
    }

    /// The security level, which is that of both keys.
    pub fn security_level(&self) -> (r: SecurityLevel)
        ensures
            r == self@.public.level,
            r == self@.private.level,
    {
        proof {
            use_type_invariant(self);
        }
        self.security_level
    }

    /// The two keys.
    pub fn into_keys(self) -> (r: (PublicKey, PrivateKey))
        ensures
            r.0@ == self@.public,
            r.1@ == self@.private,
    {
        (self.public_key, self.private_key)
    }
}

} // verus!
