//! Core of the Bond protocol: a proof-of-work chain with programmable
//! unspent outputs, its script machine, and the signature layer it consumes.
//!
//! Every executable function is verified against a contract over the
//! mathematical view of its data:
//!
//! - [`encoding`], [`codec`], [`metadata`]: the canonical encoding, its
//!   decoder, and the laws that tie the two;
//! - [`hashing`]: Keccak-256, the one digest of the protocol;
//! - [`transaction`], [`utxo`], [`utxo_set`], [`block`]: the data model;
//! - [`script`]: the bounded stack machine that authorizes spends;
//! - [`difficulty`], [`mining`]: 256-bit target arithmetic, retargeting,
//!   block validation and the miner;
//! - [`consensus`]: the chain state and the atomic application of blocks;
//! - [`crypto`]: keys, signing and verification at two security levels;
//! - [`error`], [`text`], [`timestamp`]: errors, their diagnostics, and
//!   points in time.

pub mod block;
mod cancel;
pub mod codec;
pub mod consensus;
pub mod crypto;
pub mod difficulty;
pub mod encoding;
pub mod error;
pub mod hashing;
pub mod metadata;
pub mod mining;
pub mod script;
pub mod text;
pub mod timestamp;
pub mod transaction;
pub mod utxo;
pub mod utxo_set;

pub use block::{Block, BlockHash, BlockHeader, DifficultyTarget, MerkleRoot, MAX_BLOCK_SIZE};
pub use consensus::{create_genesis_block, ChainState, ChainStats};
pub use crypto::error::{CryptoError, CryptoResult};
pub use crypto::keypair::Keypair;
pub use crypto::signature::{sign, verify};
pub use crypto::types::{PrivateKey, PublicKey, Signature};
pub use crypto::SecurityLevel;
pub use error::{BondError, BondResult};
pub use mining::{
    create_mining_header, mining_step, Consensus, Miner, MiningConfig, MiningStats, MiningStep,
};
pub use script::{ScriptContext, ScriptInterpreter, ScriptResult, Stack};
pub use timestamp::Timestamp;
pub use transaction::{Transaction, TransactionHash, TransactionInput, TransactionOutput};
pub use utxo::{
    AuthMethod, GuardianConfig, MfaConfig, ProgrammableUtxo, RateLimit, Script, TimeLock,
    TimeLockType, UtxoId, UtxoMetadata,
};
pub use utxo_set::UtxoSet;
