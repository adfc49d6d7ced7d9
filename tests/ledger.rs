use iridium::{
    Block, BlockErrorKind, Blockchain, BlockchainError, ChainErrorKind, Transaction,
    TransactionErrorKind, Transfer,
};
use ring::digest::{digest, SHA512};
use ring::rand::{SecureRandom, SystemRandom};

struct Wallet {
    key: [u8; 32],
    address: String,
}

fn wallet() -> Wallet {
    let mut key = [0u8; 32];
    SystemRandom::new().fill(&mut key).unwrap();
    let address = Transaction::public_key_hex(&key);
    Wallet { key, address }
}

fn pay(from: &Wallet, to: &str, amount: i64) -> Transfer {
    Transaction::transfer(&from.address, to, amount, &from.key)
}

#[test]
fn genesis_block_is_fixed() {
    let g = Block::genesis();
    assert_eq!(g.index, 0);
    assert_eq!(g.timestamp, 0);
    assert_eq!(g.proof, 0);
    assert_eq!(g.hash, "");
    assert_eq!(g.previous_hash, None);
    assert!(g.transactions.is_empty());
    assert!(g.is_genesis());
    assert_eq!(g.to_bytes(), vec![0u8; 33]);
}

#[test]
fn new_chain_holds_genesis_and_validates() {
    let chain = Blockchain::new();
    assert_eq!(chain.len(), 1);
    assert!(!chain.is_empty());
    assert_eq!(chain.last_block(), &Block::genesis());
    assert!(chain.transactions.is_empty());
    assert_eq!(chain.validate(), Ok(()));
    assert_eq!(Blockchain::default().blocks, chain.blocks);
}

#[test]
fn mined_block_hash_meets_target() {
    let mut chain = Blockchain::new();
    let block = chain.mine("miner").clone();
    assert!(block.hash.starts_with("0000"));
    assert_eq!(block.hash.len(), 128);
    assert_eq!(block.hash, hex::encode(digest(&SHA512, &block.to_bytes()).as_ref()));
    assert_eq!(block.index, 1);
    assert_eq!(block.previous_hash, Some(String::new()));
    assert_eq!(block.validate(&Block::genesis()), Ok(()));
    assert_eq!(chain.validate(), Ok(()));
}

#[test]
fn block_validates_only_against_its_predecessor() {
    let mut chain = Blockchain::new();
    chain.mine("a");
    chain.mine("b");
    let first = chain.blocks[1].clone();
    let second = chain.blocks[2].clone();
    assert_eq!(second.validate(&first), Ok(()));
    assert_eq!(
        second.validate(&Block::genesis()),
        Err(BlockchainError::block(2, BlockErrorKind::PreviousHashMismatch))
    );
    assert_eq!(
        first.validate(&second),
        Err(BlockchainError::block(1, BlockErrorKind::PreviousHashMismatch))
    );
}

#[test]
fn tampered_block_fields_are_detected() {
    let mut chain = Blockchain::new();
    let block = chain.mine("miner").clone();
    let genesis = Block::genesis();
    let detected = |b: &Block| {
        let r = b.validate(&genesis);
        r == Err(BlockchainError::block(b.index, BlockErrorKind::HashMismatch))
            || r == Err(BlockchainError::block(b.index, BlockErrorKind::InvalidProof))
    };
    let mut changed = block.clone();
    changed.timestamp += 1;
    assert!(detected(&changed));
    let mut changed = block.clone();
    changed.proof = changed.proof.wrapping_add(1);
    assert!(detected(&changed));
    let mut changed = block.clone();
    changed.index = 5;
    assert!(detected(&changed));
    let mut changed = block.clone();
    changed.transactions.push(Transaction::reward("thief"));
    assert!(detected(&changed));
    let mut changed = block.clone();
    changed.hash = format!("0000{}", &block.hash[4..].replace('a', "b").replace('1', "2"));
    if changed.hash != block.hash {
        assert_eq!(
            changed.validate(&genesis),
            Err(BlockchainError::block(1, BlockErrorKind::HashMismatch))
        );
    }
}

#[test]
fn reward_count_must_be_one() {
    let genesis = Block::genesis();
    let none = Block::next(&genesis, vec![]);
    assert_eq!(
        none.validate(&genesis),
        Err(BlockchainError::block(1, BlockErrorKind::InvalidRewardCount))
    );
    let two = Block::next(&genesis, vec![Transaction::reward("a"), Transaction::reward("b")]);
    assert_eq!(
        two.validate(&genesis),
        Err(BlockchainError::block(1, BlockErrorKind::InvalidRewardCount))
    );
}

#[test]
fn invalid_transaction_in_block_is_reported() {
    let genesis = Block::genesis();
    let w = wallet();
    let mut t = pay(&w, "x", 5);
    t.amount = 6;
    let id = t.id;
    let block = Block::next(&genesis, vec![Transaction::reward("m"), Transaction::Transfer(t)]);
    assert_eq!(
        block.validate(&genesis),
        Err(BlockchainError::transaction(id, TransactionErrorKind::InvalidSignature))
    );
}

#[test]
fn mine_puts_reward_first_then_pending() {
    let mut chain = Blockchain::new();
    let a = wallet();
    chain.mine(&a.address);
    let t1 = pay(&a, "b", 10);
    let t2 = pay(&a, "c", 20);
    assert_eq!(chain.new_transaction(t1.clone()), Ok(2));
    assert_eq!(chain.new_transaction(t2.clone()), Ok(2));
    let block = chain.mine("minerX").clone();
    assert_eq!(block.transactions.len(), 3);
    match &block.transactions[0] {
        Transaction::Reward(r) => {
            assert_eq!(r.recipient, "minerX");
            assert_eq!(r.amount, 100);
        }
        Transaction::Transfer(_) => panic!("the reward comes first"),
    }
    assert_eq!(block.transactions[1], Transaction::Transfer(t1));
    assert_eq!(block.transactions[2], Transaction::Transfer(t2));
    assert!(chain.transactions.is_empty());
    assert_eq!(chain.len(), 3);
    assert_eq!(chain.validate(), Ok(()));
}

#[test]
fn duplicate_ids_are_rejected() {
    let mut chain = Blockchain::new();
    let a = wallet();
    chain.mine(&a.address);
    let t = pay(&a, "b", 10);
    assert_eq!(chain.new_transaction(t.clone()), Ok(2));
    assert_eq!(
        chain.new_transaction(t.clone()),
        Err(BlockchainError::transaction(t.id, TransactionErrorKind::DuplicateId))
    );
    chain.mine("m");
    assert_eq!(
        chain.new_transaction(t.clone()),
        Err(BlockchainError::transaction(t.id, TransactionErrorKind::DuplicateId))
    );
}

#[test]
fn balance_threshold_decides() {
    let mut chain = Blockchain::new();
    let a = wallet();
    chain.mine(&a.address);
    assert_eq!(chain.new_transaction(pay(&a, "b", 40)), Ok(2));
    chain.mine("m");
    let too_much = pay(&a, "b", 61);
    assert_eq!(
        chain.new_transaction(too_much.clone()),
        Err(BlockchainError::transaction(too_much.id, TransactionErrorKind::InsufficientBalance))
    );
    assert_eq!(chain.new_transaction(pay(&a, "b", 60)), Ok(3));
    let nothing_left = pay(&a, "b", 1);
    assert_eq!(
        chain.new_transaction(nothing_left.clone()),
        Err(BlockchainError::transaction(nothing_left.id, TransactionErrorKind::InsufficientBalance))
    );
}

#[test]
fn pending_limit_and_mining_clears_it() {
    let mut chain = Blockchain::new();
    let a = wallet();
    chain.mine(&a.address);
    for _ in 0..4 {
        assert_eq!(chain.new_transaction(pay(&a, "b", 10)), Ok(2));
    }
    assert_eq!(
        chain.new_transaction(pay(&a, "b", 10)),
        Err(BlockchainError::chain(ChainErrorKind::PendingTransactionLimitReached))
    );
    assert_eq!(chain.transactions.len(), 4);
    chain.mine("m");
    assert!(chain.transactions.is_empty());
    assert_eq!(chain.new_transaction(pay(&a, "b", 10)), Ok(3));
}

#[test]
fn invalid_transfer_is_refused_before_other_checks() {
    let mut chain = Blockchain::new();
    let a = wallet();
    let t = pay(&a, "b", 0);
    assert_eq!(
        chain.new_transaction(t.clone()),
        Err(BlockchainError::transaction(t.id, TransactionErrorKind::InvalidAmount))
    );
    assert!(chain.transactions.is_empty());
}

#[test]
fn replace_keeps_incumbent_on_tie_or_shorter() {
    let mut chain = Blockchain::new();
    chain.mine("a");
    let before = chain.clone();
    let mut rival = Blockchain::new();
    rival.mine("b");
    let result = chain.replace(rival.clone()).map(|c| c.blocks.clone());
    assert_eq!(result, Ok(before.blocks.clone()));
    assert_eq!(chain.blocks, before.blocks);
    assert_eq!(chain.replace(Blockchain::new()).map(|c| c.len()), Ok(2));
    assert_eq!(chain.blocks, before.blocks);
}

#[test]
fn replace_rejects_longer_chain_with_wrong_genesis() {
    let mut chain = Blockchain::new();
    let before = chain.clone();
    let mut rival = Blockchain::new();
    rival.mine("b");
    rival.blocks[0].timestamp = 1;
    let result = chain.replace(rival).map(|c| c.len());
    assert_eq!(result, Err(BlockchainError::block(0, BlockErrorKind::GenesisBlockMismatch)));
    assert_eq!(chain.blocks, before.blocks);
}

#[test]
fn replace_adopts_longer_valid_chain_and_readmits_pending() {
    let mut chain = Blockchain::new();
    let a = wallet();
    let mut rival = Blockchain::new();
    rival.mine(&a.address);
    rival.mine("m");
    let kept = pay(&a, "b", 30);
    let dropped = pay(&wallet(), "b", 30);
    chain.transactions.push(Transaction::Transfer(kept.clone()));
    chain.transactions.push(Transaction::Transfer(dropped));
    let length = chain.replace(rival.clone()).map(|c| c.len());
    assert_eq!(length, Ok(3));
    assert_eq!(chain.blocks, rival.blocks);
    assert_eq!(chain.transactions, vec![Transaction::Transfer(kept)]);
}

#[test]
fn negative_balance_fails_chain_validation() {
    let mut chain = Blockchain::new();
    let poor = wallet();
    let t = pay(&poor, "b", 10);
    let block = Block::next(chain.last_block(), vec![Transaction::reward("m"), Transaction::Transfer(t)]);
    assert_eq!(block.validate(chain.last_block()), Ok(()));
    chain.blocks.push(block);
    assert_eq!(chain.validate(), Err(BlockchainError::chain(ChainErrorKind::InvalidBalance)));
}

#[test]
fn repeated_mined_id_fails_chain_validation() {
    let mut chain = Blockchain::new();
    let a = wallet();
    chain.mine(&a.address);
    let t = pay(&a, "b", 10);
    let block = Block::next(
        chain.last_block(),
        vec![Transaction::reward("m"), Transaction::Transfer(t.clone()), Transaction::Transfer(t.clone())],
    );
    chain.blocks.push(block);
    assert_eq!(
        chain.validate(),
        Err(BlockchainError::transaction(t.id, TransactionErrorKind::DuplicateId))
    );
}

#[test]
fn broken_link_fails_chain_validation() {
    let mut chain = Blockchain::new();
    chain.mine("a");
    chain.mine("b");
    let mut forged = chain.blocks[1].clone();
    forged.hash = String::from("0000");
    chain.tamper(forged);
    assert_eq!(chain.validate(), Err(BlockchainError::block(1, BlockErrorKind::HashMismatch)));
}

#[test]
fn tamper_overwrites_only_in_range() {
    let mut chain = Blockchain::new();
    chain.mine("a");
    let mut replacement = chain.blocks[1].clone();
    replacement.timestamp = 42;
    chain.tamper(replacement.clone());
    assert_eq!(chain.blocks[1], replacement);
    let mut outside = replacement.clone();
    outside.index = 9;
    chain.tamper(outside);
    assert_eq!(chain.len(), 2);
    assert_eq!(chain.blocks[1], replacement);
}

#[test]
fn calculate_hash_is_hex_digest_of_view() {
    let g = Block::genesis();
    let expected = hex::encode(digest(&SHA512, &[0u8; 33]).as_ref());
    assert_eq!(g.calculate_hash(), expected);
    assert_eq!(g.calculate_hash().len(), 128);
}

#[test]
fn proof_search_stops_at_first_working_proof() {
    let genesis = Block::genesis();
    let mut block = Block::next(&genesis, vec![Transaction::reward("m")]);
    block.hash = String::new();
    assert!(block.find_proof_from(0));
    assert!(block.hash.starts_with("0000"));
    assert_eq!(block.hash, block.calculate_hash());
    let found = block.proof;
    let mut earlier = block.clone();
    for p in 0..found {
        earlier.proof = p;
        assert!(!earlier.calculate_hash().starts_with("0000"));
    }
    assert_eq!(block.validate(&genesis), Ok(()));
}

#[test]
fn empty_chain_reports_empty() {
    let chain = Blockchain { blocks: vec![], transactions: vec![] };
    assert!(chain.is_empty());
    assert_eq!(chain.len(), 0);
}
