use vstd::prelude::*;

use crate::codec::{
    be_u128, be_u64, encode_hex, hex_chars, lower_hex_digits, optional_text_field, push_optional_text,
    push_text, push_u128, push_u64, text_field,
};
use crate::crypto::{sha512_digest, sha512_of};
use crate::error::{BlockErrorKind, BlockchainError};
use crate::transaction::{transaction_outcome, Transaction};

verus! {

/// One ledger entry: fixed metadata, a proof of work and a list of transactions.
#[derive(Debug, Clone, PartialEq, Eq)]
pub struct Block {
    pub index: u64,
    pub timestamp: i64,
    pub proof: u32,
    pub hash: String,
    pub previous_hash: Option<String>,
    pub transactions: Vec<Transaction>,
}

/// Relies on chrono::Utc::now: the current time in seconds since the Unix epoch.
#[verifier::external_body]
fn now_timestamp() -> (r: i64) {
    chrono::Utc::now().timestamp()
}

/// Relies on rand::random: an arbitrary 32-bit value.
#[verifier::external_body]
fn random_proof() -> (r: u32) {
    rand::random::<u32>()
}

/// The canonical bytes of one transaction inside a block, signature included.
pub open spec fn transaction_bytes(tx: Transaction) -> Seq<u8> {
    match tx {
        Transaction::Transfer(t) => seq![0u8] + be_u128(t.id) + be_u64(t.amount as u64) + text_field(
            t.sender@,
        ) + text_field(t.recipient@) + text_field(t.signature@),
        Transaction::Reward(r) => seq![1u8] + be_u128(r.id) + be_u64(r.amount as u64) + text_field(
            r.recipient@,
        ),
    }
}

/// The canonical bytes of a list of transactions, one after the other.
pub open spec fn transactions_bytes(s: Seq<Transaction>) -> Seq<u8>
    decreases s.len(),
{
    if s.len() == 0 {
        Seq::empty()
    } else {
        transactions_bytes(s.drop_last()) + transaction_bytes(s.last())
    }
}

pub open spec fn previous_hash_of(b: Block) -> Option<Seq<char>> {
    match b.previous_hash {
        Some(h) => Some(h@),
        None => None,
    }
}

/// The block's verifiable view: every field but the cached hash, in a fixed order.
pub open spec fn block_bytes(b: Block) -> Seq<u8> {
    be_u64(b.index) + be_u64(b.timestamp as u64) + be_u64(b.proof as u64) + optional_text_field(
        previous_hash_of(b),
    ) + be_u64(b.transactions@.len() as u64) + transactions_bytes(b.transactions@)
}

/// The hex digest of the block's verifiable view.
pub open spec fn hash_of(b: Block) -> Seq<char> {
    hex_chars(sha512_of(block_bytes(b)))
}

/// The work target: four leading zero hex digits.
pub open spec fn meets_target(h: Seq<char>) -> bool {
    &&& h.len() >= 4
    &&& h[0] == '0'
    &&& h[1] == '0'
    &&& h[2] == '0'
    &&& h[3] == '0'
}

/// The block with another proof.
pub open spec fn with_proof(b: Block, p: u32) -> Block {
    Block { proof: p, ..b }
}

/// Whether the cached hash is the block's digest and meets the work target.
pub open spec fn is_sealed(b: Block) -> bool {
    b.hash@ == hash_of(b) && meets_target(b.hash@)
}

/// Whether no proof at all makes the block's digest meet the work target.
pub open spec fn no_proof_exists(b: Block) -> bool {
    forall|p: u32| !meets_target(#[trigger] hash_of(with_proof(b, p)))
}

pub open spec fn is_reward(tx: Transaction) -> bool {
    tx is Reward
}

pub open spec fn reward_count(s: Seq<Transaction>) -> nat
    decreases s.len(),
{
    if s.len() == 0 {
        0
    } else {
        reward_count(s.drop_last()) + if is_reward(s.last()) {
            1nat
        } else {
            0nat
        }
    }
}

/// The outcome of validating each transaction in order, stopping at the first failure.
pub open spec fn transactions_outcome(s: Seq<Transaction>) -> Result<(), BlockchainError>
    decreases s.len(),
{
    if s.len() == 0 {
        Ok(())
    } else {
        match transactions_outcome(s.drop_last()) {
            Err(e) => Err(e),
            Ok(()) => transaction_outcome(s.last()),
        }
    }
}

/// The outcome of the hash checks of a block against its predecessor: work target, link to the
/// predecessor, cached hash, in that order.
pub open spec fn hashes_outcome(b: Block, previous: Block) -> Result<(), BlockchainError> {
    let h = hash_of(b);
    if !meets_target(h) {
        Err(BlockchainError::Block { index: b.index, kind: BlockErrorKind::InvalidProof })
    } else if previous_hash_of(b) != Some(previous.hash@) {
        Err(BlockchainError::Block { index: b.index, kind: BlockErrorKind::PreviousHashMismatch })
    } else if h != b.hash@ {
        Err(BlockchainError::Block { index: b.index, kind: BlockErrorKind::HashMismatch })
    } else {
        Ok(())
    }
}

/// The outcome of validating a block against its predecessor.
pub open spec fn block_outcome(b: Block, previous: Block) -> Result<(), BlockchainError> {
    match hashes_outcome(b, previous) {
        Err(e) => Err(e),
        Ok(()) => if reward_count(b.transactions@) != 1 {
            Err(BlockchainError::Block { index: b.index, kind: BlockErrorKind::InvalidRewardCount })
        } else {
            transactions_outcome(b.transactions@)
        },
    }
}

/// The fixed first block of every chain.
pub open spec fn is_genesis(b: Block) -> bool {
    &&& b.index == 0
    &&& b.timestamp == 0
    &&& b.transactions@.len() == 0
    &&& b.proof == 0
    &&& b.hash@.len() == 0
    &&& b.previous_hash is None
}

/// Hex text meets the work target exactly when the first two bytes are zero.
pub proof fn lemma_target_on_bytes(d: Seq<u8>)
    requires
        d.len() >= 2,
    ensures
        meets_target(hex_chars(d)) == (d[0] == 0 && d[1] == 0),
{
    let h = hex_chars(d);
    assert(h[0] == lower_hex_digits()[(d[0] / 16) as int]);
    assert(h[1] == lower_hex_digits()[(d[0] % 16) as int]);
    assert(h[2] == lower_hex_digits()[(d[1] / 16) as int]);
    assert(h[3] == lower_hex_digits()[(d[1] % 16) as int]);
    lemma_zero_digit((d[0] / 16) as int);
    lemma_zero_digit((d[0] % 16) as int);
    lemma_zero_digit((d[1] / 16) as int);
    lemma_zero_digit((d[1] % 16) as int);
}

proof fn lemma_zero_digit(k: int)
    requires
        0 <= k < 16,
    ensures
        (lower_hex_digits()[k] == '0') == (k == 0),
{
    let s = lower_hex_digits();
    assert(s[0] == '0' && s[1] == '1' && s[2] == '2' && s[3] == '3' && s[4] == '4' && s[5] == '5');
    assert(s[6] == '6' && s[7] == '7' && s[8] == '8' && s[9] == '9' && s[10] == 'a');
    assert(s[11] == 'b' && s[12] == 'c' && s[13] == 'd' && s[14] == 'e' && s[15] == 'f');
}

pub open spec fn wrap_u32(x: int) -> u32 {
    (if x < 0x1_0000_0000 {
        x
    } else {
        x - 0x1_0000_0000
    }) as u32
}

/// Whether the search from `start` stops at its `k`-th try: that proof meets the work target
/// and none tried before it does.
pub open spec fn search_stops_at(b: Block, start: u32, k: int) -> bool {
    &&& 0 <= k < 0x1_0000_0000
    &&& meets_target(hash_of(with_proof(b, wrap_u32(start + k))))
    &&& forall|j: int|
        0 <= j < k ==> !meets_target(#[trigger] hash_of(with_proof(b, wrap_u32(start + j))))
}

fn push_transaction(out: &mut Vec<u8>, tx: &Transaction)
    ensures
        final(out)@ == old(out)@ + transaction_bytes(*tx),
{
    let ghost start = out@;
    match tx {
        Transaction::Transfer(t) => {
            out.push(0u8);
            push_u128(out, t.id);
            push_u64(out, t.amount as u64);
            push_text(out, t.sender.as_str());
            push_text(out, t.recipient.as_str());
            push_text(out, t.signature.as_str());
        },
        Transaction::Reward(r) => {
            out.push(1u8);
            push_u128(out, r.id);
            push_u64(out, r.amount as u64);
            push_text(out, r.recipient.as_str());
        },
    }
    assert(out@ =~= start + transaction_bytes(*tx));
}

impl Block {
    /// The fixed first block: index 0, no transactions, no proof, no hash, no predecessor.
    pub fn genesis() -> (r: Block)
        ensures
            is_genesis(r),
    {
        Block {
            index: 0,
            timestamp: 0,
            transactions: Vec::new(),
            proof: 0,
            hash: String::new(),
            previous_hash: None,
        }
    }

    /// Whether this block is the genesis block.
    pub fn is_genesis(&self) -> (r: bool)
        ensures
            r == is_genesis(*self),
    {
        self.index == 0 && self.timestamp == 0 && self.transactions.len() == 0 && self.proof == 0
            && self.hash.as_str().is_empty() && self.previous_hash.is_none()
    }

    /// The canonical bytes of the block's verifiable view.
    pub fn to_bytes(&self) -> (r: Vec<u8>)
        ensures
            r@ == block_bytes(*self),
    {
        let mut out: Vec<u8> = Vec::new();
        push_u64(&mut out, self.index);
        push_u64(&mut out, self.timestamp as u64);
        push_u64(&mut out, self.proof as u64);
        let previous = match &self.previous_hash {
            Some(h) => Some(h.as_str()),
            None => None,
        };
        push_optional_text(&mut out, previous);
        push_u64(&mut out, self.transactions.len() as u64);
        let ghost head = out@;
        let mut i: usize = 0;
        while i < self.transactions.len()
            invariant
                i <= self.transactions@.len(),
                out@ == head + transactions_bytes(self.transactions@.take(i as int)),
            decreases self.transactions@.len() - i,
        {
            push_transaction(&mut out, &self.transactions[i]);
            assert(self.transactions@.take(i + 1).drop_last() =~= self.transactions@.take(i as int));
            i += 1;
            assert(out@ =~= head + transactions_bytes(self.transactions@.take(i as int)));
        }
        assert(self.transactions@.take(i as int) =~= self.transactions@);
        assert(out@ =~= block_bytes(*self));
        out
    }

    /// The hex digest of the block's verifiable view, whether or not it meets the work target.
    pub fn calculate_hash(&self) -> (r: String)
        ensures
            r@ == hash_of(*self),
            r@.len() == 128,
    {
        let bytes = self.to_bytes();
        let digest = sha512_digest(bytes.as_slice());
        encode_hex(digest.as_slice())
    }

    /// The hex digest of the block's verifiable view, where it meets the work target.
    fn try_hash(&self) -> (r: Result<String, BlockchainError>)
        ensures
            match r {
                Ok(h) => h@ == hash_of(*self) && meets_target(h@),
                Err(e) => !meets_target(hash_of(*self)) && e == BlockchainError::Block {
                    index: self.index,
                    kind: BlockErrorKind::InvalidProof,
                },
            },
    {
        let bytes = self.to_bytes();
        let digest = sha512_digest(bytes.as_slice());
        proof {
            lemma_target_on_bytes(digest@);
        }
        if digest[0] == 0 && digest[1] == 0 {
            Ok(encode_hex(digest.as_slice()))
        } else {
            Err(BlockchainError::block(self.index, BlockErrorKind::InvalidProof))
        }
    }

    /// Searches every proof, from a random one on and wrapping round, for one whose digest
    /// meets the work target, and caches that digest. Returns whether one was found.
    fn find_proof(&mut self) -> (found: bool)
        ensures
            final(self).index == old(self).index,
            final(self).timestamp == old(self).timestamp,
            final(self).previous_hash == old(self).previous_hash,
            final(self).transactions == old(self).transactions,
            found ==> is_sealed(*final(self)),
            found ==> exists|start: u32, k: int|
                #[trigger] search_stops_at(*old(self), start, k) && final(self).proof == wrap_u32(
                    start + k,
                ),
            !found ==> no_proof_exists(*old(self)),
    {
        let start = random_proof();
        self.find_proof_from(start)
    }

    /// Tries the proofs `start`, `start + 1`, ... in turn, wrapping round after `u32::MAX`,
    /// until one makes the digest meet the work target, and caches that digest. Returns whether
    /// one was found; the search stops at the first that works.
    pub fn find_proof_from(&mut self, start: u32) -> (found: bool)
        ensures
            final(self).index == old(self).index,
            final(self).timestamp == old(self).timestamp,
            final(self).previous_hash == old(self).previous_hash,
            final(self).transactions == old(self).transactions,
            found ==> is_sealed(*final(self)),
            found ==> exists|k: int|
                #[trigger] search_stops_at(*old(self), start, k) && final(self).proof == wrap_u32(
                    start + k,
                ),
            !found ==> no_proof_exists(*old(self)),
    {
        let ghost original = *self;
        self.proof = start;
        let mut tries: u64 = 0;
        while tries < 0x1_0000_0000
            invariant
                tries <= 0x1_0000_0000,
                original == *old(self),
                self.index == original.index,
                self.timestamp == original.timestamp,
                self.previous_hash == original.previous_hash,
                self.transactions == original.transactions,
                self.hash == original.hash,
                tries < 0x1_0000_0000 ==> self.proof == wrap_u32(start + tries),
                forall|k: int|
                    0 <= k < tries ==> !meets_target(
                        #[trigger] hash_of(with_proof(original, wrap_u32(start + k))),
                    ),
            decreases 0x1_0000_0000 - tries,
        {
            assert(with_proof(original, self.proof) == *self);
            match self.try_hash() {
                Ok(h) => {
                    self.hash = h;
                    assert(search_stops_at(original, start, tries as int));
                    return true;
                },
                Err(_) => {},
            }
            self.proof = if self.proof == u32::MAX {
                0
            } else {
                self.proof + 1
            };
            tries += 1;
        }
        assert forall|p: u32| !meets_target(#[trigger] hash_of(with_proof(original, p))) by {
            let k: int = if p >= start {
                p - start
            } else {
                p + 0x1_0000_0000 - start
            };
            assert(wrap_u32(start + k) == p);
        }
        false
    }

    /// The block after `previous` holding `transactions`, with a proof searched for at once.
    /// The block comes back sealed unless no 32-bit proof at all meets the work target for its
    /// contents; in that case its hash stays empty and it does not validate.
    pub fn next(previous: &Block, transactions: Vec<Transaction>) -> (r: Block)
        ensures
            r.index == previous.index.wrapping_add(1),
            previous_hash_of(r) == Some(previous.hash@),
            r.transactions@ == transactions@,
            is_sealed(r) || no_proof_exists(r),
    {
        let mut block = Block {
            index: previous.index.wrapping_add(1),
            timestamp: now_timestamp(),
            transactions,
            proof: 0,
            hash: String::new(),
            previous_hash: Some(previous.hash.clone()),
        };
        let ghost before = block;
        let found = block.find_proof();
        proof {
            if !found {
                assert forall|p: u32| !meets_target(#[trigger] hash_of(with_proof(block, p))) by {
                    assert(block_bytes(with_proof(block, p)) == block_bytes(with_proof(before, p)));
                    assert(!meets_target(hash_of(with_proof(before, p))));
                }
            }
        }
        block
    }

    pub fn validate(&self, previous: &Block) -> (r: Result<(), BlockchainError>)
        ensures
            r == block_outcome(*self, *previous),
    {
        match self.validate_hashes(previous) {
            Err(e) => Err(e),
            Ok(()) => self.validate_transactions(),
        }
    }

    /// Checks the work target, the link to the predecessor and the cached hash, in that order.
    fn validate_hashes(&self, previous: &Block) -> (r: Result<(), BlockchainError>)
        ensures
            r == hashes_outcome(*self, *previous),
    {
        let actual = match self.try_hash() {
            Ok(h) => h,
            Err(e) => return Err(e),
        };
        let linked = match &self.previous_hash {
            Some(h) => *h == previous.hash,
            None => false,
        };
        if !linked {
            Err(BlockchainError::block(self.index, BlockErrorKind::PreviousHashMismatch))
        } else if actual != self.hash {
            Err(BlockchainError::block(self.index, BlockErrorKind::HashMismatch))
        } else {
            Ok(())
        }
    }

    /// Checks that there is exactly one reward, then each transaction in order.
    fn validate_transactions(&self) -> (r: Result<(), BlockchainError>)
        ensures
            r == (if reward_count(self.transactions@) != 1 {
                Err(BlockchainError::Block {
                    index: self.index,
                    kind: BlockErrorKind::InvalidRewardCount,
                })
            } else {
                transactions_outcome(self.transactions@)
            }),
    {
        let txs = &self.transactions;
        let mut rewards: usize = 0;
        let mut i: usize = 0;
        while i < txs.len()
            invariant
                i <= txs@.len(),
                rewards == reward_count(txs@.take(i as int)),
                rewards <= i,
            decreases txs@.len() - i,
        {
            assert(txs@.take(i + 1).drop_last() =~= txs@.take(i as int));
            if let Transaction::Reward(_) = &txs[i] {
                rewards += 1;
            }
            i += 1;
        }
        assert(txs@.take(i as int) =~= txs@);
        if rewards != 1 {
            return Err(BlockchainError::block(self.index, BlockErrorKind::InvalidRewardCount));
        }
        let mut j: usize = 0;
        while j < txs.len()
            invariant
                j <= txs@.len(),
                txs@ == self.transactions@,
                reward_count(txs@) == 1,
                transactions_outcome(txs@.take(j as int)) is Ok,
            decreases txs@.len() - j,
        {
            assert(txs@.take(j + 1).drop_last() =~= txs@.take(j as int));
            match txs[j].validate() {
                Err(e) => {
                    proof {
                        assert(txs@.take(j + 1).last() == txs@[j as int]);
                        assert(transactions_outcome(txs@.take(j + 1)) == Err::<(), BlockchainError>(e));
                        lemma_first_failure_stays(txs@, j + 1, txs@.len() as int);
                        assert(txs@.take(txs@.len() as int) =~= txs@);
                    }
                    return Err(e);
                },
                Ok(()) => {},
            }
            j += 1;
        }
        assert(txs@.take(j as int) =~= txs@);
        Ok(())
    }
}

/// Once a prefix of transactions fails, every longer prefix fails the same way.
pub proof fn lemma_first_failure_stays(s: Seq<Transaction>, i: int, j: int)
    requires
        0 <= i <= j <= s.len(),
        transactions_outcome(s.take(i)) is Err,
    ensures
        transactions_outcome(s.take(j)) == transactions_outcome(s.take(i)),
    decreases j - i,
{
    if j > i {
        lemma_first_failure_stays(s, i, j - 1);
        assert(s.take(j).drop_last() =~= s.take(j - 1));
    }
}

/// A block that validates against a predecessor has a cached hash that meets the work target,
/// validates against any block with the same hash, and fails with `PreviousHashMismatch`
/// against any block with another hash.
pub proof fn lemma_predecessor_decides(b: Block, previous: Block, other: Block)
    requires
        block_outcome(b, previous) is Ok,
    ensures
        meets_target(b.hash@),
        other.hash@ == previous.hash@ ==> block_outcome(b, other) is Ok,
        other.hash@ != previous.hash@ ==> block_outcome(b, other) == Err::<(), BlockchainError>(
            BlockchainError::Block { index: b.index, kind: BlockErrorKind::PreviousHashMismatch },
        ),
{
}

/// A sealed block that links to its predecessor and holds exactly one reward and only valid
/// transactions validates against that predecessor.
pub proof fn lemma_sealed_block_validates(b: Block, previous: Block)
    requires
        is_sealed(b),
        previous_hash_of(b) == Some(previous.hash@),
        reward_count(b.transactions@) == 1,
        transactions_outcome(b.transactions@) is Ok,
    ensures
        block_outcome(b, previous) is Ok,
{
}

/// A block as `next` leaves it, for a block's contents where some proof meets the work target,
/// is sealed; if it holds exactly one reward and only valid transactions, it validates against
/// its predecessor.
pub proof fn lemma_next_block_validates(b: Block, previous: Block)
    requires
        previous_hash_of(b) == Some(previous.hash@),
        is_sealed(b) || no_proof_exists(b),
        exists|p: u32| meets_target(#[trigger] hash_of(with_proof(b, p))),
    ensures
        is_sealed(b),
        meets_target(b.hash@),
        reward_count(b.transactions@) == 1 && transactions_outcome(b.transactions@) is Ok
            ==> block_outcome(b, previous) is Ok,
{
}

/// A block whose cached hash no longer matches the digest of its verifiable view, while its
/// link to the predecessor is intact, fails with `InvalidProof` or `HashMismatch`.
pub proof fn lemma_stale_hash_detected(b: Block, previous: Block)
    requires
        previous_hash_of(b) == Some(previous.hash@),
        hash_of(b) != b.hash@,
    ensures
        block_outcome(b, previous) == Err::<(), BlockchainError>(
            BlockchainError::Block { index: b.index, kind: BlockErrorKind::InvalidProof },
        ) || block_outcome(b, previous) == Err::<(), BlockchainError>(
            BlockchainError::Block { index: b.index, kind: BlockErrorKind::HashMismatch },
        ),
{
}

/// Changing only the cached hash of a valid block makes it fail with `HashMismatch`.
pub proof fn lemma_changed_hash_detected(b: Block, previous: Block, changed: Block)
    requires
        block_outcome(b, previous) is Ok,
        changed == (Block { hash: changed.hash, ..b }),
        changed.hash@ != b.hash@,
    ensures
        block_outcome(changed, previous) == Err::<(), BlockchainError>(
            BlockchainError::Block { index: b.index, kind: BlockErrorKind::HashMismatch },
        ),
{
    assert(block_bytes(changed) == block_bytes(b));
}

} // verus!
