//! A minimal ledger of signed transfers: hash-linked blocks sealed by proof of work, whole-chain
//! validation, a bounded pool of pending transfers, and the longest-valid-chain rule.
pub mod block;
pub mod chain;
pub mod codec;
pub mod crypto;
pub mod error;
pub mod network;
pub mod transaction;

pub use block::Block;
pub use chain::{Blockchain, PENDING_TRANSACTION_LIMIT};
pub use error::{BlockErrorKind, BlockchainError, ChainErrorKind, TransactionErrorKind};
pub use transaction::{Reward, Transaction, Transfer, MINER_REWARD};
