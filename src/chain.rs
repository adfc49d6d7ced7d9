use vstd::prelude::*;

use std::collections::HashSet;

use crate::codec::same_text;
use crate::block::{block_outcome, is_genesis, is_sealed, no_proof_exists, previous_hash_of, Block};
use crate::error::{BlockErrorKind, BlockchainError, ChainErrorKind, TransactionErrorKind};
use crate::transaction::{
    amount_of, balance_change_of, id_of, recipient_of, transfer_outcome, Transaction, Transfer,
    MINER_REWARD,
};

verus! {

/// How many transfers may wait to be mined at once.
pub const PENDING_TRANSACTION_LIMIT: usize = 4;

/// The ledger: its blocks, genesis first, and the transfers waiting to be mined.
#[derive(Debug, Clone)]
pub struct Blockchain {
    pub blocks: Vec<Block>,
    pub transactions: Vec<Transaction>,
}

/// The transactions that a list of references points at.
pub open spec fn deref_all(s: Seq<&Transaction>) -> Seq<Transaction> {
    Seq::new(s.len(), |i: int| *s[i])
}

/// Every mined transaction, block by block, in order.
pub open spec fn mined(blocks: Seq<Block>) -> Seq<Transaction>
    decreases blocks.len(),
{
    if blocks.len() == 0 {
        Seq::empty()
    } else {
        mined(blocks.drop_last()) + blocks.last().transactions@
    }
}

/// The outcome of validating blocks `1..n`, each against its predecessor, in order.
pub open spec fn blocks_outcome(blocks: Seq<Block>, n: int) -> Result<(), BlockchainError>
    decreases n,
{
    if n <= 1 {
        Ok(())
    } else {
        match blocks_outcome(blocks, n - 1) {
            Err(e) => Err(e),
            Ok(()) => block_outcome(blocks[n - 1], blocks[n - 2]),
        }
    }
}

/// Whether an earlier transaction of `s` has the id of its last one.
pub open spec fn last_id_repeats(s: Seq<Transaction>) -> bool {
    exists|k: int| 0 <= k < s.len() - 1 && #[trigger] id_of(s[k]) == id_of(s.last())
}

/// The id of the first transaction whose id occurred before it, if any.
pub open spec fn first_duplicate(s: Seq<Transaction>) -> Option<u128>
    decreases s.len(),
{
    if s.len() == 0 {
        None
    } else {
        match first_duplicate(s.drop_last()) {
            Some(id) => Some(id),
            None => if last_id_repeats(s) {
                Some(id_of(s.last()))
            } else {
                None
            },
        }
    }
}

/// What a mined transaction does to the balance of `address`: the sender is debited and the
/// recipient credited.
pub open spec fn ledger_delta(tx: Transaction, address: Seq<char>) -> int {
    (match tx {
        Transaction::Transfer(t) => if t.sender@ == address {
            -t.amount
        } else {
            0
        },
        Transaction::Reward(_) => 0,
    }) + (if recipient_of(tx) == address {
        amount_of(tx) as int
    } else {
        0
    })
}

/// The balance of `address` after the first `n` transactions of `s`.
pub open spec fn running_balance(s: Seq<Transaction>, address: Seq<char>, n: int) -> int
    decreases n,
{
    if n <= 0 {
        0
    } else {
        running_balance(s, address, n - 1) + ledger_delta(s[n - 1], address)
    }
}

/// Whether some balance is ever negative while `s` is replayed.
pub open spec fn balance_dips(s: Seq<Transaction>) -> bool {
    exists|a: Seq<char>, n: int| 0 <= n <= s.len() && #[trigger] running_balance(s, a, n) < 0
}

/// The outcome of validating a whole chain.
pub open spec fn chain_outcome(blocks: Seq<Block>) -> Result<(), BlockchainError> {
    if !is_genesis(blocks[0]) {
        Err(BlockchainError::Block { index: 0, kind: BlockErrorKind::GenesisBlockMismatch })
    } else {
        match blocks_outcome(blocks, blocks.len() as int) {
            Err(e) => Err(e),
            Ok(()) => match first_duplicate(mined(blocks)) {
                Some(id) => Err(
                    BlockchainError::Transaction { id, kind: TransactionErrorKind::DuplicateId },
                ),
                None => if balance_dips(mined(blocks)) {
                    Err(BlockchainError::Chain { kind: ChainErrorKind::InvalidBalance })
                } else {
                    Ok(())
                },
            },
        }
    }
}

/// The sum of what the first `n` transactions of `s` do to the balance of `address`.
pub open spec fn balance_sum(s: Seq<Transaction>, address: Seq<char>, n: int) -> int
    decreases n,
{
    if n <= 0 {
        0
    } else {
        balance_sum(s, address, n - 1) + balance_change_of(s[n - 1], address)
    }
}

/// Whether a transaction of `s` has the id `id`.
pub open spec fn holds_id(s: Seq<Transaction>, id: u128) -> bool {
    exists|k: int| 0 <= k < s.len() && #[trigger] id_of(s[k]) == id
}

/// The outcome of submitting transfer `t` to a chain with these blocks and pending transfers.
pub open spec fn admission_outcome(
    blocks: Seq<Block>,
    pending: Seq<Transaction>,
    t: Transfer,
) -> Result<(), BlockchainError> {
    let all = mined(blocks) + pending;
    match transfer_outcome(t) {
        Err(e) => Err(e),
        Ok(()) => if holds_id(all, t.id) {
            Err(BlockchainError::Transaction { id: t.id, kind: TransactionErrorKind::DuplicateId })
        } else if balance_sum(all, t.sender@, all.len() as int) < t.amount {
            Err(
                BlockchainError::Transaction {
                    id: t.id,
                    kind: TransactionErrorKind::InsufficientBalance,
                },
            )
        } else if pending.len() >= PENDING_TRANSACTION_LIMIT {
            Err(BlockchainError::Chain { kind: ChainErrorKind::PendingTransactionLimitReached })
        } else {
            Ok(())
        },
    }
}

/// The pending list after the transfers of `pending` are submitted again, in order, to a chain
/// with `blocks` and an empty pending list; those that fail are dropped.
pub open spec fn readmitted(blocks: Seq<Block>, pending: Seq<Transaction>) -> Seq<Transaction>
    decreases pending.len(),
{
    if pending.len() == 0 {
        Seq::empty()
    } else {
        let before = readmitted(blocks, pending.drop_last());
        match pending.last() {
            Transaction::Transfer(t) => if admission_outcome(blocks, before, t) is Ok {
                before.push(Transaction::Transfer(t))
            } else {
                before
            },
            Transaction::Reward(_) => before,
        }
    }
}

impl Blockchain {
    /// A chain is never empty: it starts with its genesis block.
    pub open spec fn wf(&self) -> bool {
        self.blocks@.len() > 0
    }

    pub open spec fn last_spec(&self) -> Block {
        self.blocks@.last()
    }
}

/// Adding a block to the end adds its transactions to the end of the mined ones.
pub proof fn lemma_mined_take(blocks: Seq<Block>, i: int)
    requires
        0 <= i < blocks.len(),
    ensures
        mined(blocks.take(i + 1)) == mined(blocks.take(i)) + blocks[i].transactions@,
{
    assert(blocks.take(i + 1).drop_last() =~= blocks.take(i));
}

/// Largest size of one balance change.
pub open spec fn change_bound() -> int {
    0x8000_0000_0000_0000
}

impl Blockchain {
    /// A chain that holds only the genesis block.
    pub fn new() -> (r: Blockchain)
        ensures
            r.wf(),
            r.blocks@.len() == 1,
            is_genesis(r.blocks@[0]),
            r.transactions@.len() == 0,
    {
        Blockchain { blocks: vec![Block::genesis()], transactions: Vec::new() }
    }

    pub fn len(&self) -> (r: usize)
        ensures
            r == self.blocks@.len(),
    {
        self.blocks.len()
    }

    /// True when the chain holds no block at all.
    pub fn is_empty(&self) -> (r: bool)
        ensures
            r == (self.blocks@.len() == 0),
    {
        self.blocks.len() == 0
    }

    pub fn last_block(&self) -> (r: &Block)
        requires
            self.wf(),
        ensures
            *r == self.last_spec(),
    {
        &self.blocks[self.blocks.len() - 1]
    }

    /// Every mined transaction in chain order, then, where asked, the pending ones.
    fn ledger(&self, with_pending: bool) -> (r: Vec<&Transaction>)
        ensures
            deref_all(r@) == if with_pending {
                mined(self.blocks@) + self.transactions@
            } else {
                mined(self.blocks@)
            },
    {
        let mut out: Vec<&Transaction> = Vec::new();
        let mut i: usize = 0;
        while i < self.blocks.len()
            invariant
                i <= self.blocks@.len(),
                deref_all(out@) == mined(self.blocks@.take(i as int)),
                out@.len() == mined(self.blocks@.take(i as int)).len(),
            decreases self.blocks@.len() - i,
        {
            let txs = &self.blocks[i].transactions;
            let ghost base = mined(self.blocks@.take(i as int));
            let mut j: usize = 0;
            while j < txs.len()
                invariant
                    j <= txs@.len(),
                    deref_all(out@) == base + txs@.take(j as int),
                    out@.len() == base.len() + j,
                decreases txs@.len() - j,
            {
                let ghost prev = out@;
                out.push(&txs[j]);
                assert(out@ == prev.push(&txs@[j as int]));
                assert(deref_all(out@)[out@.len() - 1] == txs@[j as int]);
                j += 1;
                assert forall|m: int| 0 <= m < out@.len() implies #[trigger] deref_all(out@)[m] == (
                base + txs@.take(j as int))[m] by {
                    if m < out@.len() - 1 {
                        assert(deref_all(prev)[m] == (base + txs@.take(j - 1))[m]);
                    }
                }
                assert(deref_all(out@) =~= base + txs@.take(j as int));
            }
            proof {
                lemma_mined_take(self.blocks@, i as int);
                assert(txs@.take(j as int) =~= txs@);
            }
            i += 1;
        }
        assert(self.blocks@.take(i as int) =~= self.blocks@);
        if with_pending {
            let ghost base = mined(self.blocks@);
            let mut k: usize = 0;
            while k < self.transactions.len()
                invariant
                    k <= self.transactions@.len(),
                    deref_all(out@) == base + self.transactions@.take(k as int),
                    out@.len() == base.len() + k,
                decreases self.transactions@.len() - k,
            {
                let ghost prev = out@;
                out.push(&self.transactions[k]);
                assert(out@ == prev.push(&self.transactions@[k as int]));
                assert(deref_all(out@)[out@.len() - 1] == self.transactions@[k as int]);
                k += 1;
                assert forall|m: int| 0 <= m < out@.len() implies #[trigger] deref_all(out@)[m] == (
                base + self.transactions@.take(k as int))[m] by {
                    if m < out@.len() - 1 {
                        assert(deref_all(prev)[m] == (base + self.transactions@.take(k - 1))[m]);
                    }
                }
                assert(deref_all(out@) =~= base + self.transactions@.take(k as int));
            }
            assert(self.transactions@.take(k as int) =~= self.transactions@);
        }
        out
    }
}

/// Once blocks `1..i` fail, blocks `1..j` fail the same way for every `j >= i`.
pub proof fn lemma_block_failure_stays(blocks: Seq<Block>, i: int, j: int)
    requires
        0 <= i <= j,
        blocks_outcome(blocks, i) is Err,
    ensures
        blocks_outcome(blocks, j) == blocks_outcome(blocks, i),
    decreases j - i,
{
    if j > i {
        lemma_block_failure_stays(blocks, i, j - 1);
    }
}

/// Once a prefix holds a repeated id, every longer prefix reports the same one first.
pub proof fn lemma_duplicate_stays(s: Seq<Transaction>, i: int, j: int)
    requires
        0 <= i <= j <= s.len(),
        first_duplicate(s.take(i)) is Some,
    ensures
        first_duplicate(s.take(j)) == first_duplicate(s.take(i)),
    decreases j - i,
{
    if j > i {
        lemma_duplicate_stays(s, i, j - 1);
        assert(s.take(j).drop_last() =~= s.take(j - 1));
    }
}

/// Whether a transaction names `address` as its sender or recipient.
pub open spec fn touches(tx: Transaction, address: Seq<char>) -> bool {
    ||| (tx matches Transaction::Transfer(t) && t.sender@ == address)
    ||| recipient_of(tx) == address
}

/// A balance that is negative first went negative at a transaction that names the address.
pub proof fn lemma_dip_is_touched(s: Seq<Transaction>, a: Seq<char>, n: int)
    requires
        0 <= n <= s.len(),
        running_balance(s, a, n) < 0,
    ensures
        exists|k: int|
            0 <= k < n && touches(s[k], a) && #[trigger] running_balance(s, a, k + 1) < 0,
    decreases n,
{
    if n > 0 {
        if touches(s[n - 1], a) {
            assert(running_balance(s, a, (n - 1) + 1) < 0);
        } else {
            lemma_dip_is_touched(s, a, n - 1);
        }
    }
}

/// What a mined transaction does to the balance of `address`.
fn ledger_delta_of(tx: &Transaction, address: &str) -> (r: i128)
    ensures
        r == ledger_delta(*tx, address@),
        -change_bound() <= r <= change_bound(),
{
    let debit: i128 = match tx {
        Transaction::Transfer(t) => if same_text(t.sender.as_str(), address) {
            -(t.amount as i128)
        } else {
            0
        },
        Transaction::Reward(_) => 0,
    };
    let credit: i128 = if same_text(tx.recipient(), address) {
        tx.amount() as i128
    } else {
        0
    };
    debit + credit
}

/// The balance of `address` after the first `n` transactions.
fn running_balance_of(txs: &Vec<&Transaction>, address: &str, n: usize) -> (r: i128)
    requires
        n <= txs@.len(),
    ensures
        r == running_balance(deref_all(txs@), address@, n as int),
{
    let ghost s = deref_all(txs@);
    let mut acc: i128 = 0;
    let mut i: usize = 0;
    while i < n
        invariant
            i <= n <= txs@.len(),
            s == deref_all(txs@),
            acc == running_balance(s, address@, i as int),
            -(i * change_bound()) <= acc <= i * change_bound(),
        decreases n - i,
    {
        let d = ledger_delta_of(txs[i], address);
        assert(s[i as int] == *txs@[i as int]);
        assert(i + 1 <= usize::MAX);
        acc = acc + d;
        i += 1;
    }
    acc
}

/// The sum of what all the transactions do to the balance of `address`.
fn balance_sum_of(txs: &Vec<&Transaction>, address: &str) -> (r: i128)
    ensures
        r == balance_sum(deref_all(txs@), address@, txs@.len() as int),
{
    let ghost s = deref_all(txs@);
    let mut acc: i128 = 0;
    let mut i: usize = 0;
    while i < txs.len()
        invariant
            i <= txs@.len(),
            s == deref_all(txs@),
            acc == balance_sum(s, address@, i as int),
            -(i * change_bound()) <= acc <= i * change_bound(),
        decreases txs@.len() - i,
    {
        let d = txs[i].balance_change(address);
        assert(s[i as int] == *txs@[i as int]);
        assert(i + 1 <= usize::MAX);
        acc = acc + d;
        i += 1;
    }
    acc
}

impl Blockchain {
    /// Checks that the first block is the genesis block.
    fn validate_genesis_block(&self) -> (r: Result<(), BlockchainError>)
        requires
            self.wf(),
        ensures
            r == (if !is_genesis(self.blocks@[0]) {
                Err(BlockchainError::Block { index: 0, kind: BlockErrorKind::GenesisBlockMismatch })
            } else {
                Ok(())
            }),
    {
        if !self.blocks[0].is_genesis() {
            Err(BlockchainError::block(0, BlockErrorKind::GenesisBlockMismatch))
        } else {
            Ok(())
        }
    }

    /// Validates every block but the genesis block against its predecessor.
    fn validate_blocks(&self) -> (r: Result<(), BlockchainError>)
        ensures
            r == blocks_outcome(self.blocks@, self.blocks@.len() as int),
    {
        let mut i: usize = 1;
        while i < self.blocks.len()
            invariant
                1 <= i,
                i <= self.blocks@.len() || self.blocks@.len() == 0,
                blocks_outcome(self.blocks@, i as int) is Ok,
            decreases self.blocks@.len() - i,
        {
            match self.blocks[i].validate(&self.blocks[i - 1]) {
                Err(e) => {
                    proof {
                        assert(blocks_outcome(self.blocks@, i + 1) == Err::<(), BlockchainError>(e));
                        lemma_block_failure_stays(self.blocks@, i + 1, self.blocks@.len() as int);
                    }
                    return Err(e);
                },
                Ok(()) => {},
            }
            i += 1;
        }
        Ok(())
    }

    /// Checks that no id occurs twice among the mined transactions.
    fn validate_all_duplicate_transactions(&self) -> (r: Result<(), BlockchainError>)
        ensures
            r == match first_duplicate(mined(self.blocks@)) {
                Some(id) => Err(
                    BlockchainError::Transaction { id, kind: TransactionErrorKind::DuplicateId },
                ),
                None => Ok(()),
            },
    {
        broadcast use vstd::std_specs::hash::group_hash_axioms;

        let txs = self.ledger(false);
        let ghost s = deref_all(txs@);
        let mut seen: HashSet<u128> = HashSet::new();
        let mut j: usize = 0;
        while j < txs.len()
            invariant
                j <= txs@.len(),
                s == deref_all(txs@),
                s == mined(self.blocks@),
                first_duplicate(s.take(j as int)) is None,
                forall|id: u128|
                    #![trigger seen@.contains(id)]
                    seen@.contains(id) <==> exists|k: int| 0 <= k < j && #[trigger] id_of(s[k]) == id,
            decreases txs@.len() - j,
        {
            let id = txs[j].id();
            assert(s[j as int] == *txs@[j as int]);
            let ghost p = s.take(j + 1);
            assert(p.drop_last() =~= s.take(j as int));
            if seen.contains(&id) {
                proof {
                    let k = choose|k: int| 0 <= k < j && #[trigger] id_of(s[k]) == id;
                    assert(id_of(p[k]) == id_of(p.last()));
                    assert(last_id_repeats(p));
                    lemma_duplicate_stays(s, j + 1, s.len() as int);
                    assert(s.take(s.len() as int) =~= s);
                }
                return Err(BlockchainError::transaction(id, TransactionErrorKind::DuplicateId));
            }
            proof {
                assert forall|k: int| 0 <= k < p.len() - 1 implies #[trigger] id_of(p[k]) != id_of(
                    p.last(),
                ) by {
                    assert(p[k] == s[k]);
                    if id_of(s[k]) == id {
                        assert(seen@.contains(id));
                    }
                }
            }
            seen.insert(id);
            j += 1;
        }
        assert(s.take(j as int) =~= s);
        Ok(())
    }

    /// Checks that no balance ever goes negative while the mined transactions are replayed.
    fn validate_all_balances(&self) -> (r: Result<(), BlockchainError>)
        ensures
            r == (if balance_dips(mined(self.blocks@)) {
                Err(BlockchainError::Chain { kind: ChainErrorKind::InvalidBalance })
            } else {
                Ok(())
            }),
    {
        let txs = self.ledger(false);
        let ghost s = deref_all(txs@);
        let mut k: usize = 0;
        while k < txs.len()
            invariant
                k <= txs@.len(),
                s == deref_all(txs@),
                s == mined(self.blocks@),
                forall|m: int, a: Seq<char>|
                    0 <= m < k && touches(s[m], a) ==> running_balance(s, a, m + 1) >= 0,
            decreases txs@.len() - k,
        {
            let tx = txs[k];
            assert(s[k as int] == *tx);
            if let Some(sender) = tx.sender() {
                if running_balance_of(&txs, sender, k + 1) < 0 {
                    assert(running_balance(s, sender@, k + 1) < 0);
                    return Err(BlockchainError::chain(ChainErrorKind::InvalidBalance));
                }
            }
            let recipient = tx.recipient();
            if running_balance_of(&txs, recipient, k + 1) < 0 {
                assert(running_balance(s, recipient@, k + 1) < 0);
                return Err(BlockchainError::chain(ChainErrorKind::InvalidBalance));
            }
            k += 1;
        }
        proof {
            if balance_dips(s) {
                let (a, n) = choose|a: Seq<char>, n: int|
                    0 <= n <= s.len() && #[trigger] running_balance(s, a, n) < 0;
                lemma_dip_is_touched(s, a, n);
            }
        }
        Ok(())
    }

    /// Validates the whole chain: genesis block, every block, repeated ids, balances.
    pub fn validate(&self) -> (r: Result<(), BlockchainError>)
        requires
            self.wf(),
        ensures
            r == chain_outcome(self.blocks@),
    {
        match self.validate_genesis_block() {
            Err(e) => return Err(e),
            Ok(()) => {},
        }
        match self.validate_blocks() {
            Err(e) => return Err(e),
            Ok(()) => {},
        }
        match self.validate_all_duplicate_transactions() {
            Err(e) => return Err(e),
            Ok(()) => {},
        }
        self.validate_all_balances()
    }
}

impl Blockchain {
    /// Checks that no mined or pending transaction has the id of `transfer`.
    fn validate_duplicate_transaction(&self, transfer: &Transfer) -> (r: Result<(), BlockchainError>)
        ensures
            r == (if holds_id(mined(self.blocks@) + self.transactions@, transfer.id) {
                Err(
                    BlockchainError::Transaction {
                        id: transfer.id,
                        kind: TransactionErrorKind::DuplicateId,
                    },
                )
            } else {
                Ok(())
            }),
    {
        let txs = self.ledger(true);
        let ghost s = deref_all(txs@);
        let mut k: usize = 0;
        while k < txs.len()
            invariant
                k <= txs@.len(),
                s == deref_all(txs@),
                s == mined(self.blocks@) + self.transactions@,
                forall|m: int| 0 <= m < k ==> #[trigger] id_of(s[m]) != transfer.id,
            decreases txs@.len() - k,
        {
            assert(s[k as int] == *txs@[k as int]);
            if txs[k].id() == transfer.id {
                assert(id_of(s[k as int]) == transfer.id);
                return Err(BlockchainError::transaction(transfer.id, TransactionErrorKind::DuplicateId));
            }
            k += 1;
        }
        Ok(())
    }

    /// Checks that the sender's balance over mined and pending transactions covers the amount.
    fn validate_sender_balance(&self, transfer: &Transfer) -> (r: Result<(), BlockchainError>)
        ensures
            ({
                let all = mined(self.blocks@) + self.transactions@;
                r == (if balance_sum(all, transfer.sender@, all.len() as int) < transfer.amount {
                    Err(
                        BlockchainError::Transaction {
                            id: transfer.id,
                            kind: TransactionErrorKind::InsufficientBalance,
                        },
                    )
                } else {
                    Ok(())
                })
            }),
    {
        let txs = self.ledger(true);
        let balance = balance_sum_of(&txs, transfer.sender.as_str());
        if balance < transfer.amount as i128 {
            Err(BlockchainError::transaction(transfer.id, TransactionErrorKind::InsufficientBalance))
        } else {
            Ok(())
        }
    }

    /// Checks that there is room for one more pending transfer.
    fn validate_pending_transactions(&self) -> (r: Result<(), BlockchainError>)
        ensures
            r == (if self.transactions@.len() >= PENDING_TRANSACTION_LIMIT {
                Err(BlockchainError::Chain { kind: ChainErrorKind::PendingTransactionLimitReached })
            } else {
                Ok(())
            }),
    {
        if self.transactions.len() >= PENDING_TRANSACTION_LIMIT {
            Err(BlockchainError::chain(ChainErrorKind::PendingTransactionLimitReached))
        } else {
            Ok(())
        }
    }

    /// Admits a transfer to the pending list and returns the index of the block that will
    /// hold it, or the first check that it fails.
    pub fn new_transaction(&mut self, transfer: Transfer) -> (r: Result<u64, BlockchainError>)
        requires
            old(self).wf(),
        ensures
            final(self).wf(),
            match r {
                Ok(n) => {
                    &&& admission_outcome(old(self).blocks@, old(self).transactions@, transfer) is Ok
                    &&& final(self).blocks@ == old(self).blocks@
                    &&& final(self).transactions@ == old(self).transactions@.push(
                        Transaction::Transfer(transfer),
                    )
                    &&& n == old(self).last_spec().index.wrapping_add(1)
                },
                Err(e) => {
                    &&& admission_outcome(old(self).blocks@, old(self).transactions@, transfer)
                        == Err::<(), BlockchainError>(e)
                    &&& *final(self) == *old(self)
                },
            },
    {
        match transfer.validate() {
            Err(e) => return Err(e),
            Ok(()) => {},
        }
        match self.validate_duplicate_transaction(&transfer) {
            Err(e) => return Err(e),
            Ok(()) => {},
        }
        match self.validate_sender_balance(&transfer) {
            Err(e) => return Err(e),
            Ok(()) => {},
        }
        match self.validate_pending_transactions() {
            Err(e) => return Err(e),
            Ok(()) => {},
        }
        self.transactions.push(Transaction::Transfer(transfer));
        Ok(self.last_block().index.wrapping_add(1))
    }

    /// Mines the pending transfers, behind a fresh reward for `miner`, into a new block at the
    /// end of the chain, and returns that block. The block is sealed unless no 32-bit proof at
    /// all meets the work target for its contents (see `Block::next`).
    pub fn mine(&mut self, miner: &str) -> (r: &Block)
        requires
            old(self).wf(),
        ensures
            final(self).wf(),
            final(self).blocks@ == old(self).blocks@.push(*r),
            final(self).transactions@.len() == 0,
            r.transactions@.len() == old(self).transactions@.len() + 1,
            r.transactions@.drop_first() == old(self).transactions@,
            r.transactions@[0] matches Transaction::Reward(w) && w.recipient@ == miner@
                && w.amount == MINER_REWARD,
            r.index == old(self).last_spec().index.wrapping_add(1),
            previous_hash_of(*r) == Some(old(self).last_spec().hash@),
            is_sealed(*r) || no_proof_exists(*r),
    {
        let mut transactions: Vec<Transaction> = Vec::new();
        std::mem::swap(&mut transactions, &mut self.transactions);
        let ghost pending = transactions@;
        transactions.insert(0, Transaction::reward(miner));
        assert(transactions@.drop_first() =~= pending);
        let block = Block::next(self.last_block(), transactions);
        self.blocks.push(block);
        self.last_block()
    }

    /// Overwrites the block at the position that its own index names, if there is one,
    /// without any validation.
    pub fn tamper(&mut self, block: Block)
        requires
            old(self).wf(),
        ensures
            final(self).wf(),
            final(self).transactions == old(self).transactions,
            final(self).blocks@ == if (block.index as int) < old(self).blocks@.len() {
                old(self).blocks@.update(block.index as int, block)
            } else {
                old(self).blocks@
            },
    {
        if (block.index as u128) < (self.blocks.len() as u128) {
            let i = block.index as usize;
            self.blocks.set(i, block);
        }
    }
}

/// The error of a result, with the success value dropped.
pub open spec fn without_chain(r: Result<&Blockchain, BlockchainError>) -> Result<(), BlockchainError> {
    match r {
        Ok(_) => Ok(()),
        Err(e) => Err(e),
    }
}

/// What `replace` does: a candidate that is not strictly longer changes nothing; an invalid
/// one changes nothing and its error is returned; a valid one brings its blocks, and the
/// transfers that were pending are submitted again in order.
pub open spec fn replacement(
    before: Blockchain,
    other: Blockchain,
    after: Blockchain,
    r: Result<(), BlockchainError>,
) -> bool {
    if other.blocks@.len() <= before.blocks@.len() {
        r is Ok && after == before
    } else {
        match chain_outcome(other.blocks@) {
            Err(e) => r == Err::<(), BlockchainError>(e) && after == before,
            Ok(()) => {
                &&& r is Ok
                &&& after.blocks@ == other.blocks@
                &&& after.transactions@ == readmitted(other.blocks@, before.transactions@)
            },
        }
    }
}

impl Blockchain {
    /// Adopts `other` where it is strictly longer and valid, then submits the transfers that
    /// were pending here again, dropping those that no longer pass. A candidate that is not
    /// longer leaves the chain as it is.
    pub fn replace(&mut self, other: Blockchain) -> (r: Result<&Blockchain, BlockchainError>)
        requires
            old(self).wf(),
        ensures
            final(self).wf(),
            (r matches Ok(c) ==> *c == *final(self)),
            replacement(*old(self), other, *final(self), without_chain(r)),
    {
        if other.len() <= self.len() {
            return Ok(&*self);
        }
        match other.validate() {
            Err(e) => return Err(e),
            Ok(()) => {},
        }
        let Blockchain { blocks, transactions: _ } = other;
        self.blocks = blocks;
        let mut pending: Vec<Transaction> = Vec::new();
        std::mem::swap(&mut pending, &mut self.transactions);
        let ghost original = pending@;
        let ghost new_blocks = self.blocks@;
        let n = pending.len();
        let mut i: usize = 0;
        while i < n
            invariant
                n == original.len(),
                i <= original.len(),
                pending@ == original.subrange(i as int, original.len() as int),
                self.wf(),
                self.blocks@ == new_blocks,
                self.transactions@ == readmitted(new_blocks, original.take(i as int)),
            decreases n - i,
        {
            let tx = pending.remove(0);
            assert(original.take(i + 1).drop_last() =~= original.take(i as int));
            assert(tx == original[i as int]);
            if let Transaction::Transfer(transfer) = tx {
                let _ = self.new_transaction(transfer);
            }
            i += 1;
            assert(pending@ =~= original.subrange(i as int, original.len() as int));
        }
        assert(original.take(i as int) =~= original);
        Ok(&*self)
    }
}

impl Default for Blockchain {
    fn default() -> (r: Blockchain)
        ensures
            r.wf(),
            r.blocks@.len() == 1,
            is_genesis(r.blocks@[0]),
            r.transactions@.len() == 0,
    {
        Blockchain::new()
    }
}

/// A valid transfer whose id is already held by a mined or pending transaction is refused
/// with `DuplicateId`.
pub proof fn lemma_known_id_refused(blocks: Seq<Block>, pending: Seq<Transaction>, t: Transfer)
    requires
        transfer_outcome(t) is Ok,
        holds_id(mined(blocks) + pending, t.id),
    ensures
        admission_outcome(blocks, pending, t) == Err::<(), BlockchainError>(
            BlockchainError::Transaction { id: t.id, kind: TransactionErrorKind::DuplicateId },
        ),
{
}

/// After a transfer is admitted, a second valid transfer with the same id is refused with
/// `DuplicateId`; so is one whose id is in a block mined since.
pub proof fn lemma_second_submission_refused(
    blocks: Seq<Block>,
    pending: Seq<Transaction>,
    first: Transfer,
    second: Transfer,
    block: Block,
)
    requires
        admission_outcome(blocks, pending, first) is Ok,
        second.id == first.id,
        transfer_outcome(second) is Ok,
    ensures
        admission_outcome(blocks, pending.push(Transaction::Transfer(first)), second)
            == Err::<(), BlockchainError>(
            BlockchainError::Transaction { id: second.id, kind: TransactionErrorKind::DuplicateId },
        ),
        block.transactions@.contains(Transaction::Transfer(first)) ==> admission_outcome(
            blocks.push(block),
            Seq::empty(),
            second,
        ) == Err::<(), BlockchainError>(
            BlockchainError::Transaction { id: second.id, kind: TransactionErrorKind::DuplicateId },
        ),
{
    let all = mined(blocks) + pending.push(Transaction::Transfer(first));
    assert(id_of(all[all.len() - 1]) == second.id);
    if block.transactions@.contains(Transaction::Transfer(first)) {
        let grown = blocks.push(block);
        assert(grown.drop_last() =~= blocks);
        let k = choose|k: int| 0 <= k < block.transactions@.len() && block.transactions@[k]
            == Transaction::Transfer(first);
        let all2 = mined(grown) + Seq::<Transaction>::empty();
        assert(all2[mined(blocks).len() + k] == Transaction::Transfer(first));
        assert(id_of(all2[mined(blocks).len() + k]) == second.id);
    }
}

/// Where a valid transfer passes the id and balance checks, it is refused with
/// `PendingTransactionLimitReached` exactly when the pending list is full, and admitted when
/// the pending list is empty, as it is after mining.
pub proof fn lemma_pending_limit(
    blocks: Seq<Block>,
    pending: Seq<Transaction>,
    t: Transfer,
)
    requires
        transfer_outcome(t) is Ok,
        !holds_id(mined(blocks) + pending, t.id),
        balance_sum(
            mined(blocks) + pending,
            t.sender@,
            (mined(blocks) + pending).len() as int,
        ) >= t.amount,
    ensures
        pending.len() >= PENDING_TRANSACTION_LIMIT ==> admission_outcome(blocks, pending, t)
            == Err::<(), BlockchainError>(
            BlockchainError::Chain { kind: ChainErrorKind::PendingTransactionLimitReached },
        ),
        pending.len() < PENDING_TRANSACTION_LIMIT ==> admission_outcome(blocks, pending, t) is Ok,
{
}

/// A valid transfer with a fresh id and room in the pending list is admitted exactly when its
/// amount is at most the sender's balance over mined and pending transactions, and is refused
/// with `InsufficientBalance` otherwise.
pub proof fn lemma_balance_threshold(blocks: Seq<Block>, pending: Seq<Transaction>, t: Transfer)
    requires
        transfer_outcome(t) is Ok,
        !holds_id(mined(blocks) + pending, t.id),
        pending.len() < PENDING_TRANSACTION_LIMIT,
    ensures
        ({
            let all = mined(blocks) + pending;
            let balance = balance_sum(all, t.sender@, all.len() as int);
            &&& t.amount <= balance ==> admission_outcome(blocks, pending, t) is Ok
            &&& t.amount > balance ==> admission_outcome(blocks, pending, t)
                == Err::<(), BlockchainError>(
                BlockchainError::Transaction {
                    id: t.id,
                    kind: TransactionErrorKind::InsufficientBalance,
                },
            )
        }),
{
}

/// A candidate that is not strictly longer leaves the chain unchanged; a longer one with a
/// wrong genesis block leaves it unchanged and fails with `GenesisBlockMismatch`; a longer
/// valid one is adopted, so the chain's length becomes the candidate's.
pub proof fn lemma_replacement_cases(
    before: Blockchain,
    other: Blockchain,
    after: Blockchain,
    r: Result<(), BlockchainError>,
)
    requires
        replacement(before, other, after, r),
    ensures
        other.blocks@.len() <= before.blocks@.len() ==> after == before && r is Ok,
        other.blocks@.len() > before.blocks@.len() && !is_genesis(other.blocks@[0]) ==> after
            == before && r == Err::<(), BlockchainError>(
            BlockchainError::Block { index: 0, kind: BlockErrorKind::GenesisBlockMismatch },
        ),
        other.blocks@.len() > before.blocks@.len() && chain_outcome(other.blocks@) is Ok ==> r is Ok
            && after.blocks@.len() == other.blocks@.len(),
{
}

/// A chain in which some address ends with a negative net balance, inflow minus outflow
/// over the whole history, does not validate.
pub proof fn lemma_negative_balance_rejected(blocks: Seq<Block>, address: Seq<char>)
    requires
        blocks.len() > 0,
        running_balance(mined(blocks), address, mined(blocks).len() as int) < 0,
    ensures
        chain_outcome(blocks) is Err,
{
    assert(balance_dips(mined(blocks)));
}

} // verus!
