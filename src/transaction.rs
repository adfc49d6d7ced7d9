use vstd::prelude::*;
use vstd::utf8::encode_utf8;

use crate::codec::{
    lemma_hex_round_trip,
    be_u128, be_u64, decode_hex, encode_hex, hex_chars, hex_decoded, push_text, push_u128,
    push_u64, same_text, text_field,
};
use crate::crypto::{
    ed25519_accepts, ed25519_public_key, ed25519_public_key_of, ed25519_sign, ed25519_signature_of,
    ed25519_verify,
};
use crate::error::{BlockchainError, TransactionErrorKind};

verus! {

/// The fixed amount that every miner reward carries.
pub const MINER_REWARD: i64 = 100;

/// A signed value transfer between two identities.
#[derive(Debug, Clone, PartialEq, Eq)]
pub struct Transfer {
    pub id: u128,
    pub amount: i64,
    pub sender: String,
    pub recipient: String,
    pub signature: String,
}

/// An unsigned miner reward.
#[derive(Debug, Clone, PartialEq, Eq)]
pub struct Reward {
    pub id: u128,
    pub recipient: String,
    pub amount: i64,
}

/// A ledger entry: a transfer or a reward.
#[derive(Debug, Clone, PartialEq, Eq)]
pub enum Transaction {
    Transfer(Transfer),
    Reward(Reward),
}

/// Relies on uuid::Uuid::new_v4: a random 128-bit identifier.
#[verifier::external_body]
fn fresh_id() -> (r: u128) {
    uuid::Uuid::new_v4().as_u128()
}

/// The message that a transfer's signature covers: id, sender, recipient and amount.
pub open spec fn transfer_message(t: Transfer) -> Seq<u8> {
    be_u128(t.id) + text_field(t.sender@) + text_field(t.recipient@) + be_u64(t.amount as u64)
}

/// Whether the signature, read as hex, verifies over the transfer's message under the
/// sender, read as a hex public key.
pub open spec fn signature_verifies(t: Transfer) -> bool {
    match (hex_decoded(encode_utf8(t.sender@)), hex_decoded(encode_utf8(t.signature@))) {
        (Some(public_key), Some(signature)) => ed25519_accepts(
            public_key,
            transfer_message(t),
            signature,
        ),
        _ => false,
    }
}

/// The outcome of validating a transfer on its own.
pub open spec fn transfer_outcome(t: Transfer) -> Result<(), BlockchainError> {
    if t.amount <= 0 {
        Err(BlockchainError::Transaction { id: t.id, kind: TransactionErrorKind::InvalidAmount })
    } else if signature_verifies(t) {
        Ok(())
    } else {
        Err(
            BlockchainError::Transaction { id: t.id, kind: TransactionErrorKind::InvalidSignature },
        )
    }
}

/// The outcome of validating a reward on its own.
pub open spec fn reward_outcome(r: Reward) -> Result<(), BlockchainError> {
    if r.amount != MINER_REWARD {
        Err(
            BlockchainError::Transaction {
                id: r.id,
                kind: TransactionErrorKind::MismatchedMinerReward,
            },
        )
    } else {
        Ok(())
    }
}

/// The outcome of validating a transaction on its own.
pub open spec fn transaction_outcome(tx: Transaction) -> Result<(), BlockchainError> {
    match tx {
        Transaction::Transfer(t) => transfer_outcome(t),
        Transaction::Reward(r) => reward_outcome(r),
    }
}

pub open spec fn id_of(tx: Transaction) -> u128 {
    match tx {
        Transaction::Transfer(t) => t.id,
        Transaction::Reward(r) => r.id,
    }
}

pub open spec fn recipient_of(tx: Transaction) -> Seq<char> {
    match tx {
        Transaction::Transfer(t) => t.recipient@,
        Transaction::Reward(r) => r.recipient@,
    }
}

pub open spec fn amount_of(tx: Transaction) -> i64 {
    match tx {
        Transaction::Transfer(t) => t.amount,
        Transaction::Reward(r) => r.amount,
    }
}

/// What a transaction does to the balance of `address`: a sender loses the amount, otherwise
/// a recipient gains it.
pub open spec fn balance_change_of(tx: Transaction, address: Seq<char>) -> int {
    match tx {
        Transaction::Transfer(t) => if t.sender@ == address {
            -t.amount
        } else if t.recipient@ == address {
            t.amount as int
        } else {
            0
        },
        Transaction::Reward(r) => if r.recipient@ == address {
            r.amount as int
        } else {
            0
        },
    }
}

impl Transfer {
    /// The bytes that the signature covers.
    pub fn message_bytes(&self) -> (r: Vec<u8>)
        ensures
            r@ == transfer_message(*self),
    {
        let mut out: Vec<u8> = Vec::new();
        push_u128(&mut out, self.id);
        push_text(&mut out, self.sender.as_str());
        push_text(&mut out, self.recipient.as_str());
        push_u64(&mut out, self.amount as u64);
        proof {
            assert(out@ =~= transfer_message(*self));
        }
        out
    }

    pub fn validate(&self) -> (r: Result<(), BlockchainError>)
        ensures
            r == transfer_outcome(*self),
            self.amount <= 0 ==> r == Err::<(), BlockchainError>(
                BlockchainError::Transaction {
                    id: self.id,
                    kind: TransactionErrorKind::InvalidAmount,
                },
            ),
    {
        if self.amount <= 0 {
            return Err(BlockchainError::transaction(self.id, TransactionErrorKind::InvalidAmount));
        }
        let invalid = BlockchainError::transaction(self.id, TransactionErrorKind::InvalidSignature);
        let public_key = match decode_hex(self.sender.as_str().as_bytes()) {
            Some(k) => k,
            None => return Err(invalid),
        };
        let signature = match decode_hex(self.signature.as_str().as_bytes()) {
            Some(s) => s,
            None => return Err(invalid),
        };
        let message = self.message_bytes();
        if ed25519_verify(public_key.as_slice(), message.as_slice(), signature.as_slice()) {
            Ok(())
        } else {
            Err(invalid)
        }
    }
}

impl Reward {
    pub fn validate(&self) -> (r: Result<(), BlockchainError>)
        ensures
            r == reward_outcome(*self),
    {
        if self.amount != MINER_REWARD {
            Err(BlockchainError::transaction(self.id, TransactionErrorKind::MismatchedMinerReward))
        } else {
            Ok(())
        }
    }
}

impl Transaction {
    /// A transfer with a fresh id, signed over its message with `private_key`, an Ed25519
    /// private key given as its 32-byte seed. It validates whenever the sender is the hex text
    /// of that key's public key and the amount is positive.
    pub fn transfer(sender: &str, recipient: &str, amount: i64, private_key: &[u8]) -> (r:
        Transfer)
        requires
            private_key@.len() == 32,
        ensures
            r.sender@ == sender@,
            r.recipient@ == recipient@,
            r.amount == amount,
            r.signature@ == hex_chars(ed25519_signature_of(private_key@, transfer_message(r))),
            r.signature@.len() == 128,
            hex_decoded(encode_utf8(sender@)) == Some(ed25519_public_key_of(private_key@))
                && amount > 0 ==> transfer_outcome(r) is Ok,
            sender@ == hex_chars(ed25519_public_key_of(private_key@)) && amount > 0
                ==> transfer_outcome(r) is Ok,
    {
        let mut transfer = Transfer {
            id: fresh_id(),
            sender: sender.to_owned(),
            recipient: recipient.to_owned(),
            amount,
            signature: String::new(),
        };
        let message = transfer.message_bytes();
        let signature = ed25519_sign(private_key, message.as_slice());
        transfer.signature = encode_hex(signature.as_slice());
        proof {
            assert(transfer_message(transfer) == message@);
            lemma_hex_round_trip(signature@);
            lemma_hex_round_trip(ed25519_public_key_of(private_key@));
        }
        transfer
    }

    /// The address that a private key, given as its 32-byte seed, sends from: the lowercase
    /// hex text of its Ed25519 public key.
    pub fn public_key_hex(private_key: &[u8]) -> (r: String)
        requires
            private_key@.len() == 32,
        ensures
            r@ == hex_chars(ed25519_public_key_of(private_key@)),
            r@.len() == 64,
    {
        let public_key = ed25519_public_key(private_key);
        encode_hex(public_key.as_slice())
    }

    /// A miner reward with a fresh id.
    pub fn reward(recipient: &str) -> (r: Transaction)
        ensures
            r matches Transaction::Reward(w) && w.recipient@ == recipient@ && w.amount
                == MINER_REWARD,
    {
        Transaction::Reward(Reward { id: fresh_id(), recipient: recipient.to_owned(), amount: MINER_REWARD })
    }

    pub fn id(&self) -> (r: u128)
        ensures
            r == id_of(*self),
    {
        match self {
            Transaction::Transfer(t) => t.id,
            Transaction::Reward(w) => w.id,
        }
    }

    pub fn sender(&self) -> (r: Option<&str>)
        ensures
            match *self {
                Transaction::Transfer(t) => r matches Some(s) && s@ == t.sender@,
                Transaction::Reward(_) => r is None,
            },
    {
        match self {
            Transaction::Transfer(t) => Some(t.sender.as_str()),
            Transaction::Reward(_) => None,
        }
    }

    pub fn recipient(&self) -> (r: &str)
        ensures
            r@ == recipient_of(*self),
    {
        match self {
            Transaction::Transfer(t) => t.recipient.as_str(),
            Transaction::Reward(w) => w.recipient.as_str(),
        }
    }

    pub fn amount(&self) -> (r: i64)
        ensures
            r == amount_of(*self),
    {
        match self {
            Transaction::Transfer(t) => t.amount,
            Transaction::Reward(w) => w.amount,
        }
    }

    /// The change that this transaction makes to the balance of `address`.
    pub fn balance_change(&self, address: &str) -> (r: i128)
        ensures
            r == balance_change_of(*self, address@),
    {
        match self {
            Transaction::Transfer(t) => {
                if same_text(t.sender.as_str(), address) {
                    -(t.amount as i128)
                } else if same_text(t.recipient.as_str(), address) {
                    t.amount as i128
                } else {
                    0
                }
            },
            Transaction::Reward(w) => {
                if same_text(w.recipient.as_str(), address) {
                    w.amount as i128
                } else {
                    0
                }
            },
        }
    }

    pub fn validate(&self) -> (r: Result<(), BlockchainError>)
        ensures
            r == transaction_outcome(*self),
    {
        match self {
            Transaction::Transfer(t) => t.validate(),
            Transaction::Reward(w) => w.validate(),
        }
    }
}

impl From<Transfer> for Transaction {
    fn from(transfer: Transfer) -> (r: Transaction)
        ensures
            r == Transaction::Transfer(transfer),
    {
        Transaction::Transfer(transfer)
    }
}

impl vstd::std_specs::convert::FromSpecImpl<Transfer> for Transaction {
    open spec fn obeys_from_spec() -> bool {
        true
    }

    open spec fn from_spec(transfer: Transfer) -> Transaction {
        Transaction::Transfer(transfer)
    }
}

impl From<Reward> for Transaction {
    fn from(reward: Reward) -> (r: Transaction)
        ensures
            r == Transaction::Reward(reward),
    {
        Transaction::Reward(reward)
    }
}

impl vstd::std_specs::convert::FromSpecImpl<Reward> for Transaction {
    open spec fn obeys_from_spec() -> bool {
        true
    }

    open spec fn from_spec(reward: Reward) -> Transaction {
        Transaction::Reward(reward)
    }
}

} // verus!
