use vstd::prelude::*;

verus! {

/// What went wrong with a single transaction.
#[derive(Debug, Copy, Clone, PartialEq, Eq, Structural)]
pub enum TransactionErrorKind {
    InvalidSignature,
    InsufficientBalance,
    InvalidAmount,
    DuplicateId,
    MismatchedMinerReward,
}

/// What went wrong with a single block.
#[derive(Debug, Copy, Clone, PartialEq, Eq, Structural)]
pub enum BlockErrorKind {
    GenesisBlockMismatch,
    HashMismatch,
    InvalidProof,
    PreviousHashMismatch,
    InvalidRewardCount,
}

/// What went wrong with the chain as a whole.
#[derive(Debug, Copy, Clone, PartialEq, Eq, Structural)]
pub enum ChainErrorKind {
    InvalidBalance,
    PendingTransactionLimitReached,
}

/// Every failure of the ledger, with the context that identifies its origin:
/// the transaction's id, the block's index, or nothing for chain-wide failures.
#[derive(Debug, Copy, Clone, PartialEq, Eq, Structural)]
#[allow(inconsistent_fields)]
pub enum BlockchainError {
    Transaction { id: u128, kind: TransactionErrorKind },
    Block { index: u64, kind: BlockErrorKind },
    Chain { kind: ChainErrorKind },
}

impl BlockchainError {
    pub fn transaction(id: u128, kind: TransactionErrorKind) -> (r: Self)
        ensures
            r == (BlockchainError::Transaction { id, kind }),
    {
        BlockchainError::Transaction { id, kind }
    }

    pub fn block(index: u64, kind: BlockErrorKind) -> (r: Self)
        ensures
            r == (BlockchainError::Block { index, kind }),
    {
        BlockchainError::Block { index, kind }
    }

    pub fn chain(kind: ChainErrorKind) -> (r: Self)
        ensures
            r == (BlockchainError::Chain { kind }),
    {
        BlockchainError::Chain { kind }
    }
}

} // verus!
