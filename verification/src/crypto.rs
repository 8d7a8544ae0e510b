//! The signature layer that the protocol core consumes: two security levels
//! with fixed key and signature sizes, keys, key pairs, signing and
//! verification.

pub mod ed25519;
pub mod error;
pub mod keypair;
pub mod signature;

pub mod types;

use vstd::prelude::*;

verus! {

/// The two security levels of the signature scheme.
#[derive(Debug, Clone, Copy, PartialEq, Eq, Structural)]
pub enum SecurityLevel {
    /// The smaller, faster parameter set.
    Level2,
    /// The parameter set used by the Bond chain.
    Level3,
}

impl SecurityLevel {
    /// Size of a public key in bytes.
    pub open spec fn spec_public_key_size(&self) -> usize {
        match self {
            SecurityLevel::Level2 => 1312,
            SecurityLevel::Level3 => 1952,
        }
    }

    /// Size of a private key in bytes.
    pub open spec fn spec_private_key_size(&self) -> usize {
        match self {
            SecurityLevel::Level2 => 2560,
            SecurityLevel::Level3 => 4032,
        }
    }

    /// Size of a signature in bytes.
    pub open spec fn spec_signature_size(&self) -> usize {
        match self {
            SecurityLevel::Level2 => 2420,
            SecurityLevel::Level3 => 3309,
        }
    }

    /// The name of the level as diagnostics print it.
    pub open spec fn name(self) -> Seq<char> {
        match self {
            SecurityLevel::Level2 => "Level2"@,
            SecurityLevel::Level3 => "Level3"@,
        }
    }

    /// Size of a public key in bytes.
    #[verifier::when_used_as_spec(spec_public_key_size)]
    pub fn public_key_size(&self) -> (r: usize)
        ensures
            r == self.spec_public_key_size(),
    {
        match self {
            SecurityLevel::Level2 => 1312,
            SecurityLevel::Level3 => 1952,
        }
    }

    /// Size of a private key in bytes.
    #[verifier::when_used_as_spec(spec_private_key_size)]
    pub fn private_key_size(&self) -> (r: usize)
        ensures
            r == self.spec_private_key_size(),
    {
        match self {
            SecurityLevel::Level2 => 2560,
            SecurityLevel::Level3 => 4032,
        }
    }

    /// Size of a signature in bytes.
    #[verifier::when_used_as_spec(spec_signature_size)]
    pub fn signature_size(&self) -> (r: usize)
        ensures
            r == self.spec_signature_size(),
    {
        match self {
            SecurityLevel::Level2 => 2420,
            SecurityLevel::Level3 => 3309,
        }
    }

    /// The name of the level as diagnostics print it.
    pub fn label(&self) -> (r: &'static str)
        ensures
            r@ == self.name(),
    {
        match self {
            SecurityLevel::Level2 => "Level2",
            SecurityLevel::Level3 => "Level3",
        }
    }
}

} // verus!
