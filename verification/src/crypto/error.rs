//! Errors of key handling, signing and verification.

use crate::crypto::SecurityLevel;
use crate::text::{decimal, push_decimal};
use vstd::prelude::*;
use vstd::string::StringExecFns;

verus! {

/// What the signature layer can report.
#[derive(Debug, Clone, PartialEq)]
pub enum CryptoError {
    /// A key whose length is not the one its security level fixes.
    InvalidKeySize { expected: usize, actual: usize },
    /// A signature whose length is not the one its security level fixes.
    InvalidSignatureSize { expected: usize, actual: usize },
    /// Key generation failed.
    KeyGenerationFailed { reason: String },
    /// Signing failed.
    SignatureFailed { reason: String },
    /// A signature that does not verify.
    InvalidSignature,
    /// Two components of different security levels were combined.
    SecurityLevelMismatch { expected: SecurityLevel, actual: SecurityLevel },
    /// Bytes that do not encode what they should.
    InvalidFormat { reason: String },
    /// A failure inside the signature engine.
    InternalError { reason: String },
}

/// The mathematical content of a [`CryptoError`].
pub enum CryptoErrorView {
    InvalidKeySize { expected: usize, actual: usize },
    InvalidSignatureSize { expected: usize, actual: usize },
    KeyGenerationFailed { reason: Seq<char> },
    SignatureFailed { reason: Seq<char> },
    InvalidSignature,
    SecurityLevelMismatch { expected: SecurityLevel, actual: SecurityLevel },
    InvalidFormat { reason: Seq<char> },
    InternalError { reason: Seq<char> },
}

pub type CryptoResult<T> = Result<T, CryptoError>;

impl View for CryptoError {
    type V = CryptoErrorView;

    open spec fn view(&self) -> CryptoErrorView {
        match *self {
            CryptoError::InvalidKeySize { expected, actual } => CryptoErrorView::InvalidKeySize {
                expected,
                actual,
            },
            CryptoError::InvalidSignatureSize {
                expected,
                actual,
            } => CryptoErrorView::InvalidSignatureSize { expected, actual },
            CryptoError::KeyGenerationFailed { reason } => CryptoErrorView::KeyGenerationFailed {
                reason: reason@,
            },
            CryptoError::SignatureFailed { reason } => CryptoErrorView::SignatureFailed {
                reason: reason@,
            },
            CryptoError::InvalidSignature => CryptoErrorView::InvalidSignature,
            CryptoError::SecurityLevelMismatch {
                expected,
                actual,
            } => CryptoErrorView::SecurityLevelMismatch { expected, actual },
            CryptoError::InvalidFormat { reason } => CryptoErrorView::InvalidFormat {
                reason: reason@,
            },
            CryptoError::InternalError { reason } => CryptoErrorView::InternalError {
                reason: reason@,
            },
        }
    }
}

impl CryptoErrorView {
    /// The diagnostic line that describes the error.
    pub open spec fn message(self) -> Seq<char> {
        match self {
            CryptoErrorView::InvalidKeySize { expected, actual } => {
                "Invalid key size: expected "@ + decimal(expected as nat) + ", got "@ + decimal(
                    actual as nat,
                )
            },
            CryptoErrorView::InvalidSignatureSize { expected, actual } => {
                "Invalid signature size: expected "@ + decimal(expected as nat) + ", got "@
                    + decimal(actual as nat)
            },
            CryptoErrorView::KeyGenerationFailed { reason } => "Key generation failed: "@ + reason,
            CryptoErrorView::SignatureFailed { reason } => "Signature generation failed: "@
                + reason,
            CryptoErrorView::InvalidSignature => "Signature verification failed"@,
            CryptoErrorView::SecurityLevelMismatch { expected, actual } => {
                "Security level mismatch: expected "@ + expected.name() + ", got "@
                    + actual.name()
            },
            CryptoErrorView::InvalidFormat { reason } => "Invalid data format: "@ + reason,
            CryptoErrorView::InternalError { reason } => "Internal crypto error: "@ + reason,
        }
    }
}

fn sizes_text(prefix: &str, expected: usize, actual: usize) -> (r: String)
    ensures
        r@ == prefix@ + decimal(expected as nat) + ", got "@ + decimal(actual as nat),
{
    let mut out = String::from_str(prefix);
    push_decimal(&mut out, expected as u64);
    out.append(", got ");
    push_decimal(&mut out, actual as u64);
    out
}

fn reason_text(prefix: &str, reason: &String) -> (r: String)
    ensures
        r@ == prefix@ + reason@,
{
    let mut out = String::from_str(prefix);
    out.append(reason.as_str());
    out
}

impl CryptoError {
    /// The diagnostic line that describes the error.
    pub fn to_string(&self) -> (r: String)
        ensures
            r@ == self@.message(),
    {
        match self {
            CryptoError::InvalidKeySize { expected, actual } => sizes_text(
                "Invalid key size: expected ",
                *expected,
                *actual,
            ),
            CryptoError::InvalidSignatureSize { expected, actual } => sizes_text(
                "Invalid signature size: expected ",
                *expected,
                *actual,
            ),
            CryptoError::KeyGenerationFailed { reason } => reason_text(
                "Key generation failed: ",
                reason,
            ),
            CryptoError::SignatureFailed { reason } => reason_text(
                "Signature generation failed: ",
                reason,
            ),
            CryptoError::InvalidSignature => String::from_str("Signature verification failed"),
            CryptoError::SecurityLevelMismatch { expected, actual } => {
                let mut out = String::from_str("Security level mismatch: expected ");
                out.append(expected.label());
                out.append(", got ");
                out.append(actual.label());
                out
            },
            CryptoError::InvalidFormat { reason } => reason_text("Invalid data format: ", reason),
            CryptoError::InternalError { reason } => reason_text(
                "Internal crypto error: ",
                reason,
            ),
        }
    }
}

} // verus!
