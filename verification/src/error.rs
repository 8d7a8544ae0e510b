//! The error type shared by every fallible operation of the protocol core.

use crate::text::{decimal, push_decimal};
use vstd::prelude::*;
use vstd::string::StringExecFns;

verus! {

/// Everything that validation, script execution, mining or chain application
/// can report.
#[derive(Debug, Clone, PartialEq)]
pub enum BondError {
    /// A Merkle root or block hash differs from the expected one.
    InvalidBlockHash { expected: String, actual: String },
    /// A header hash is above its target, or mining ended without a solution.
    InvalidProofOfWork { hash: String, target: String },
    /// A structural or cross-field rule of a transaction or block is broken.
    InvalidTransaction { reason: String },
    /// A malformed unspent-output identifier.
    InvalidUtxo { reason: String },
    /// The script machine ended with an error.
    ScriptExecutionFailed { reason: String },
    /// Outputs are worth more than the referenced inputs.
    InsufficientFunds { required: u64, available: u64 },
    /// An unspent output was consumed a second time.
    DoubleSpending { utxo_id: String },
    /// The signature engine reported an error.
    CryptographicError { reason: String },
    /// Bytes that are not a canonical encoding.
    SerializationError(String),
    /// A textual encoding failure.
    JsonError(String),
    /// A checked arithmetic operation overflowed.
    ArithmeticOverflow { operation: String },
}

/// The mathematical content of a [`BondError`]: the same variants over
/// sequences of characters.
pub enum BondErrorView {
    InvalidBlockHash { expected: Seq<char>, actual: Seq<char> },
    InvalidProofOfWork { hash: Seq<char>, target: Seq<char> },
    InvalidTransaction { reason: Seq<char> },
    InvalidUtxo { reason: Seq<char> },
    ScriptExecutionFailed { reason: Seq<char> },
    InsufficientFunds { required: u64, available: u64 },
    DoubleSpending { utxo_id: Seq<char> },
    CryptographicError { reason: Seq<char> },
    SerializationError(Seq<char>),
    JsonError(Seq<char>),
    ArithmeticOverflow { operation: Seq<char> },
}

pub type BondResult<T> = Result<T, BondError>;

impl View for BondError {
    type V = BondErrorView;

    open spec fn view(&self) -> BondErrorView {
        match *self {
            BondError::InvalidBlockHash { expected, actual } => BondErrorView::InvalidBlockHash {
                expected: expected@,
                actual: actual@,
            },
            BondError::InvalidProofOfWork { hash, target } => BondErrorView::InvalidProofOfWork {
                hash: hash@,
                target: target@,
            },
            BondError::InvalidTransaction { reason } => BondErrorView::InvalidTransaction {
                reason: reason@,
            },
            BondError::InvalidUtxo { reason } => BondErrorView::InvalidUtxo { reason: reason@ },
            BondError::ScriptExecutionFailed { reason } => BondErrorView::ScriptExecutionFailed {
                reason: reason@,
            },
            BondError::InsufficientFunds { required, available } => BondErrorView::InsufficientFunds {
                required,
                available,
            },
            BondError::DoubleSpending { utxo_id } => BondErrorView::DoubleSpending {
                utxo_id: utxo_id@,
            },
            BondError::CryptographicError { reason } => BondErrorView::CryptographicError {
                reason: reason@,
            },
            BondError::SerializationError(text) => BondErrorView::SerializationError(text@),
            BondError::JsonError(text) => BondErrorView::JsonError(text@),
            BondError::ArithmeticOverflow { operation } => BondErrorView::ArithmeticOverflow {
                operation: operation@,
            },
        }
    }
}

impl BondErrorView {
    /// The diagnostic line that describes the error.
    pub open spec fn message(self) -> Seq<char> {
        match self {
            BondErrorView::InvalidBlockHash { expected, actual } => {
                "Invalid block hash: expected "@ + expected + ", got "@ + actual
            },
            BondErrorView::InvalidProofOfWork { hash, target } => {
                "Invalid proof of work: hash "@ + hash + " does not meet difficulty target "@
                    + target
            },
            BondErrorView::InvalidTransaction { reason } => "Invalid transaction: "@ + reason,
            BondErrorView::InvalidUtxo { reason } => "Invalid UTXO: "@ + reason,
            BondErrorView::ScriptExecutionFailed { reason } => "Script execution failed: "@
                + reason,
            BondErrorView::InsufficientFunds { required, available } => {
                "Insufficient funds: required "@ + decimal(required as nat) + ", available "@
                    + decimal(available as nat)
            },
            BondErrorView::DoubleSpending { utxo_id } => {
                "Double spending detected: UTXO "@ + utxo_id + " already spent"@
            },
            BondErrorView::CryptographicError { reason } => "Cryptographic error: "@ + reason,
            BondErrorView::SerializationError(text) => "Serialization error: "@ + text,
            BondErrorView::JsonError(text) => "JSON error: "@ + text,
            BondErrorView::ArithmeticOverflow { operation } => "Arithmetic overflow in "@
                + operation,
        }
    }
}

/// Whether a unit result carries exactly the outcome `expected`.
pub open spec fn unit_outcome(r: BondResult<()>, expected: Result<(), BondErrorView>) -> bool {
    match r {
        Ok(_) => expected is Ok,
        Err(e) => expected == Err::<(), BondErrorView>(e@),
    }
}

fn prefixed(prefix: &str, rest: &str) -> (r: String)
    ensures
        r@ == prefix@ + rest@,
{
    let mut out = String::from_str(prefix);
    out.append(rest);
    out
}

impl BondError {
    /// The diagnostic line that describes the error.
    pub fn to_string(&self) -> (r: String)
        ensures
            r@ == self@.message(),
    {
        match self {
            BondError::InvalidBlockHash { expected, actual } => {
                let mut out = prefixed("Invalid block hash: expected ", expected.as_str());
                out.append(", got ");
                out.append(actual.as_str());
                out
            },
            BondError::InvalidProofOfWork { hash, target } => {
                let mut out = prefixed("Invalid proof of work: hash ", hash.as_str());
                out.append(" does not meet difficulty target ");
                out.append(target.as_str());
                out
            },
            BondError::InvalidTransaction { reason } => prefixed(
                "Invalid transaction: ",
                reason.as_str(),
            ),
            BondError::InvalidUtxo { reason } => prefixed("Invalid UTXO: ", reason.as_str()),
            BondError::ScriptExecutionFailed { reason } => prefixed(
                "Script execution failed: ",
                reason.as_str(),
            ),
            BondError::InsufficientFunds { required, available } => {
                let mut out = String::from_str("Insufficient funds: required ");
                push_decimal(&mut out, *required);
                out.append(", available ");
                push_decimal(&mut out, *available);
                out
            },
            BondError::DoubleSpending { utxo_id } => {
                let mut out = prefixed("Double spending detected: UTXO ", utxo_id.as_str());
                out.append(" already spent");
                out
            },
            BondError::CryptographicError { reason } => prefixed(
                "Cryptographic error: ",
                reason.as_str(),
            ),
            BondError::SerializationError(text) => prefixed("Serialization error: ", text.as_str()),
            BondError::JsonError(text) => prefixed("JSON error: ", text.as_str()),
            BondError::ArithmeticOverflow { operation } => prefixed(
                "Arithmetic overflow in ",
                operation.as_str(),
            ),
        }
    }

    /// An `InvalidTransaction` with the given reason.
    pub fn invalid_transaction(reason: &str) -> (r: BondError)
        ensures
            r@ == (BondErrorView::InvalidTransaction { reason: reason@ }),
    {
        BondError::InvalidTransaction { reason: String::from_str(reason) }
    }

    /// An `ArithmeticOverflow` in the named operation.
    pub fn overflow(operation: &str) -> (r: BondError)
        ensures
            r@ == (BondErrorView::ArithmeticOverflow { operation: operation@ }),
    {
        BondError::ArithmeticOverflow { operation: String::from_str(operation) }
    }
}

} // verus!
