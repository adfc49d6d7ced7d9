use iridium::network::TransferRequest;
use iridium::{
    BlockchainError, ChainErrorKind, Reward, Transaction, TransactionErrorKind, Transfer,
    MINER_REWARD,
};
use ring::rand::{SecureRandom, SystemRandom};
use ring::signature::{Ed25519KeyPair, KeyPair};

fn private_key() -> [u8; 32] {
    let mut seed = [0u8; 32];
    SystemRandom::new().fill(&mut seed).unwrap();
    seed
}

fn public_hex(key: &[u8; 32]) -> String {
    Transaction::public_key_hex(key)
}

fn signed(amount: i64) -> ([u8; 32], Transfer) {
    let key = private_key();
    let sender = public_hex(&key);
    let t = Transaction::transfer(&sender, "recipient", amount, &key);
    (key, t)
}

#[test]
fn public_key_hex_matches_ring() {
    let key = private_key();
    let pair = Ed25519KeyPair::from_seed_unchecked(&key).unwrap();
    assert_eq!(public_hex(&key), hex::encode(pair.public_key().as_ref()));
    assert_eq!(public_hex(&key).len(), 64);
}

#[test]
fn signature_is_the_key_signature_of_the_message() {
    let (key, t) = signed(25);
    let pair = Ed25519KeyPair::from_seed_unchecked(&key).unwrap();
    let expected = pair.sign(&t.message_bytes());
    assert_eq!(t.signature, hex::encode(expected.as_ref()));
}

#[test]
fn transfer_signed_with_other_key_is_invalid() {
    let key = private_key();
    let other = private_key();
    let t = Transaction::transfer(&public_hex(&key), "r", 5, &other);
    assert_eq!(
        t.validate(),
        Err(BlockchainError::transaction(t.id, TransactionErrorKind::InvalidSignature))
    );
}

#[test]
fn signed_transfer_validates() {
    let (key, t) = signed(10);
    assert_eq!(t.sender, public_hex(&key));
    assert_eq!(t.recipient, "recipient");
    assert_eq!(t.amount, 10);
    assert_eq!(t.signature.len(), 128);
    assert!(t.signature.chars().all(|c| c.is_ascii_hexdigit() && !c.is_ascii_uppercase()));
    assert_eq!(t.validate(), Ok(()));
}

#[test]
fn flipped_signature_bit_is_invalid() {
    let (_, t) = signed(10);
    let mut bytes = hex::decode(&t.signature).unwrap();
    for i in [0usize, 17, 63] {
        let mut changed = t.clone();
        bytes[i] ^= 1;
        changed.signature = hex::encode(&bytes);
        bytes[i] ^= 1;
        assert_eq!(
            changed.validate(),
            Err(BlockchainError::transaction(t.id, TransactionErrorKind::InvalidSignature))
        );
    }
}

#[test]
fn changed_amount_after_signing_is_invalid() {
    let (_, t) = signed(10);
    let mut changed = t.clone();
    changed.amount = 11;
    assert_eq!(
        changed.validate(),
        Err(BlockchainError::transaction(t.id, TransactionErrorKind::InvalidSignature))
    );
    let mut changed_recipient = t.clone();
    changed_recipient.recipient = String::from("someone else");
    assert_eq!(
        changed_recipient.validate(),
        Err(BlockchainError::transaction(t.id, TransactionErrorKind::InvalidSignature))
    );
}

#[test]
fn non_hex_sender_or_signature_is_invalid_signature() {
    let (_, t) = signed(10);
    let mut bad_sender = t.clone();
    bad_sender.sender = String::from("not hex at all");
    assert_eq!(
        bad_sender.validate(),
        Err(BlockchainError::transaction(t.id, TransactionErrorKind::InvalidSignature))
    );
    let mut odd_signature = t.clone();
    odd_signature.signature.pop();
    assert_eq!(
        odd_signature.validate(),
        Err(BlockchainError::transaction(t.id, TransactionErrorKind::InvalidSignature))
    );
}

#[test]
fn uppercase_hex_signature_still_verifies() {
    let (_, t) = signed(10);
    let mut upper = t.clone();
    upper.signature = t.signature.to_uppercase();
    assert_eq!(upper.validate(), Ok(()));
}

#[test]
fn non_positive_amount_is_invalid_amount() {
    for amount in [0i64, -1, -40, i64::MIN] {
        let (_, t) = signed(amount);
        assert_eq!(
            t.validate(),
            Err(BlockchainError::transaction(t.id, TransactionErrorKind::InvalidAmount))
        );
        let mut garbage = t.clone();
        garbage.signature = String::from("zz");
        assert_eq!(
            garbage.validate(),
            Err(BlockchainError::transaction(t.id, TransactionErrorKind::InvalidAmount))
        );
    }
}

#[test]
fn reward_has_fixed_amount() {
    let r = Transaction::reward("miner");
    match &r {
        Transaction::Reward(w) => {
            assert_eq!(w.amount, MINER_REWARD);
            assert_eq!(w.amount, 100);
            assert_eq!(w.recipient, "miner");
            assert_eq!(w.validate(), Ok(()));
        }
        Transaction::Transfer(_) => panic!("expected a reward"),
    }
    assert_eq!(r.validate(), Ok(()));
    assert_eq!(r.sender(), None);
    assert_eq!(r.recipient(), "miner");
    assert_eq!(r.amount(), 100);
}

#[test]
fn wrong_reward_amount_is_rejected() {
    let w = Reward { id: 7, recipient: String::from("miner"), amount: 99 };
    assert_eq!(
        w.validate(),
        Err(BlockchainError::transaction(7, TransactionErrorKind::MismatchedMinerReward))
    );
    assert_eq!(
        Transaction::from(w).validate(),
        Err(BlockchainError::transaction(7, TransactionErrorKind::MismatchedMinerReward))
    );
}

#[test]
fn fresh_ids_differ() {
    let a = Transaction::reward("m");
    let b = Transaction::reward("m");
    assert_ne!(a.id(), b.id());
}

#[test]
fn balance_change_by_role() {
    let t = Transfer {
        id: 1,
        amount: 30,
        sender: String::from("alice"),
        recipient: String::from("bob"),
        signature: String::new(),
    };
    let tx = Transaction::from(t);
    assert_eq!(tx.balance_change("alice"), -30);
    assert_eq!(tx.balance_change("bob"), 30);
    assert_eq!(tx.balance_change("carol"), 0);
    assert_eq!(tx.id(), 1);
    assert_eq!(tx.sender(), Some("alice"));
    assert_eq!(tx.recipient(), "bob");
    assert_eq!(tx.amount(), 30);
    let self_transfer = Transaction::Transfer(Transfer {
        id: 2,
        amount: 5,
        sender: String::from("alice"),
        recipient: String::from("alice"),
        signature: String::new(),
    });
    assert_eq!(self_transfer.balance_change("alice"), -5);
    let reward = Transaction::Reward(Reward { id: 3, recipient: String::from("bob"), amount: 100 });
    assert_eq!(reward.balance_change("bob"), 100);
    assert_eq!(reward.balance_change("alice"), 0);
}

#[test]
fn balance_change_of_extreme_amount_is_exact() {
    let tx = Transaction::Transfer(Transfer {
        id: 1,
        amount: i64::MIN,
        sender: String::from("a"),
        recipient: String::from("b"),
        signature: String::new(),
    });
    assert_eq!(tx.balance_change("a"), 9_223_372_036_854_775_808i128);
}

#[test]
fn message_bytes_are_canonical() {
    let t = Transfer {
        id: 0x0102,
        amount: 5,
        sender: String::from("ab"),
        recipient: String::from("c"),
        signature: String::from("ignored"),
    };
    let mut expected = vec![0u8; 14];
    expected.extend_from_slice(&[1, 2]);
    expected.extend_from_slice(&[0, 0, 0, 0, 0, 0, 0, 2, b'a', b'b']);
    expected.extend_from_slice(&[0, 0, 0, 0, 0, 0, 0, 1, b'c']);
    expected.extend_from_slice(&[0, 0, 0, 0, 0, 0, 0, 5]);
    assert_eq!(t.message_bytes(), expected);
    let mut negative = t.clone();
    negative.amount = -1;
    let bytes = negative.message_bytes();
    assert_eq!(&bytes[bytes.len() - 8..], &[0xff; 8]);
}

#[test]
fn error_constructors() {
    assert_eq!(
        BlockchainError::transaction(3, TransactionErrorKind::DuplicateId),
        BlockchainError::Transaction { id: 3, kind: TransactionErrorKind::DuplicateId }
    );
    assert_eq!(
        BlockchainError::chain(ChainErrorKind::InvalidBalance),
        BlockchainError::Chain { kind: ChainErrorKind::InvalidBalance }
    );
}

#[test]
fn transfer_request_converts() {
    let request = TransferRequest {
        id: 9,
        amount: 12,
        sender: String::from("s"),
        recipient: String::from("r"),
        signature: String::from("sig"),
    };
    let t = Transfer::from(request);
    assert_eq!(t.id, 9);
    assert_eq!(t.amount, 12);
    assert_eq!(t.sender, "s");
    assert_eq!(t.recipient, "r");
    assert_eq!(t.signature, "sig");
}
