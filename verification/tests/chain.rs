use k256::ecdsa::signature::Signer;
use k256::ecdsa::{Signature, SigningKey};
use minichain::block::Block;
use minichain::blockchain::{
    bootstrap_address, Blockchain, chain_is_valid, LedgerError, BLOCK_REWARD, GENESIS_AMOUNT,
    TRANSACTION_FEE,
};
use minichain::transaction::{signing_message, Transaction};
use minichain::utils::now;
use minichain::wallet::verify;

fn test_key() -> SigningKey {
    SigningKey::from_slice(&[7u8; 32]).expect("key")
}

fn signed_transfer(from: &str, to: &str, amount: u64) -> Transaction {
    let key = test_key();
    let message = signing_message(from, to, amount);
    let signature: Signature = key.sign(&message);
    Transaction {
        from: from.to_string(),
        to: to.to_string(),
        amount,
        signature: signature.to_vec(),
        public_key: key.verifying_key().to_sec1_bytes().to_vec(),
    }
}

fn balance_sum(ledger: &Blockchain) -> u64 {
    ledger.load_balances().iter().map(|e| e.1).sum()
}

#[test]
fn mined_block_satisfies_difficulty_and_recomputes() {
    let b = Block::new(3, 123, Vec::new(), "prev".to_string(), 2).expect("mine");
    assert!(b.hash.starts_with("00"));
    assert_eq!(b.calculate_hash(), b.hash);
    assert_eq!(b.index, 3);
    assert_eq!(b.timestamp, 123);
    assert_eq!(b.prev_hash, "prev");
}

#[test]
fn fresh_ledger_has_genesis_and_bootstrap_balance() {
    let ledger = Blockchain::open_temporary(1).expect("open");
    let latest = ledger.latest_block().expect("genesis");
    assert_eq!(latest.index, 0);
    assert_eq!(latest.prev_hash, "0");
    assert!(latest.hash.starts_with("0"));
    assert_eq!(ledger.load_balance(&bootstrap_address()), GENESIS_AMOUNT);
    assert!(ledger.is_valid());
}

#[test]
fn end_to_end_transfer_updates_all_balances() {
    let mut ledger = Blockchain::open_temporary(1).expect("open");
    let a = bootstrap_address();
    let tx = signed_transfer(&a, "bob", 1000);
    ledger.add_block("miner", vec![tx]).expect("mined");
    assert_eq!(ledger.latest_block().expect("tip").index, 1);
    assert_eq!(ledger.load_balance(&a), 8999);
    assert_eq!(ledger.load_balance("bob"), 1000);
    assert_eq!(ledger.load_balance("miner"), BLOCK_REWARD + TRANSACTION_FEE);
    assert!(ledger.is_valid());
}

#[test]
fn bad_signature_is_rejected_without_balance_change() {
    let mut ledger = Blockchain::open_temporary(1).expect("open");
    let a = bootstrap_address();
    let mut tx = signed_transfer(&a, "bob", 1000);
    tx.signature = vec![1, 2, 3, 4];
    let before = ledger.load_balances();
    let r = ledger.add_block("miner", vec![tx]);
    assert_eq!(r.unwrap_err(), LedgerError::InvalidSignature);
    assert_eq!(ledger.load_balances(), before);
    assert_eq!(ledger.latest_block().expect("tip").index, 0);
}

#[test]
fn insufficient_funds_are_rejected_without_balance_change() {
    let mut ledger = Blockchain::open_temporary(1).expect("open");
    let a = bootstrap_address();
    let tx = signed_transfer(&a, "bob", GENESIS_AMOUNT);
    let before = ledger.load_balances();
    let r = ledger.add_block("miner", vec![tx]);
    assert_eq!(r.unwrap_err(), LedgerError::InsufficientFunds);
    assert_eq!(ledger.load_balances(), before);
    assert_eq!(ledger.latest_block().expect("tip").index, 0);
}

#[test]
fn exact_balance_with_fee_is_accepted() {
    let mut ledger = Blockchain::open_temporary(1).expect("open");
    let a = bootstrap_address();
    let tx = signed_transfer(&a, "bob", GENESIS_AMOUNT - TRANSACTION_FEE);
    ledger.add_block("miner", vec![tx]).expect("mined");
    assert_eq!(ledger.load_balance(&a), 0);
    assert_eq!(ledger.load_balance("bob"), GENESIS_AMOUNT - TRANSACTION_FEE);
}

#[test]
fn replayed_block_is_rejected_and_applies_nothing_twice() {
    let mut ledger = Blockchain::open_temporary(1).expect("open");
    ledger.add_block("miner", Vec::new()).expect("mined");
    let chain = ledger.load_blockchain();
    assert_eq!(chain.len(), 2);
    let replayed = chain.into_iter().nth(1).expect("block");
    let before = ledger.load_balances();
    let accepted = ledger.add_block_from_p2p(replayed).expect("checked");
    assert!(!accepted);
    assert_eq!(ledger.load_balances(), before);
    assert_eq!(ledger.latest_block().expect("tip").index, 1);
}

#[test]
fn valid_foreign_block_is_accepted() {
    let mut ledger = Blockchain::open_temporary(1).expect("open");
    let genesis = ledger.latest_block().expect("genesis");
    let foreign = Block::new(1, now(), Vec::new(), genesis.hash.clone(), 1).expect("mine");
    let accepted = ledger.add_block_from_p2p(foreign).expect("checked");
    assert!(accepted);
    assert_eq!(ledger.latest_block().expect("tip").index, 1);
    assert!(ledger.is_valid());
}

#[test]
fn foreign_block_with_wrong_linkage_or_pow_is_rejected() {
    let mut ledger = Blockchain::open_temporary(2).expect("open");
    let genesis = ledger.latest_block().expect("genesis");
    let unlinked = Block::new(1, now(), Vec::new(), "f".repeat(64), 2).expect("mine");
    assert!(!ledger.add_block_from_p2p(unlinked).expect("checked"));
    let weak = Block::new(1, now(), Vec::new(), genesis.hash.clone(), 0).expect("mine");
    if weak.hash.starts_with("00") {
        // The cheap nonce happened to satisfy the difficulty after all;
        // nothing to observe in that run.
        return;
    }
    assert!(!ledger.add_block_from_p2p(weak).expect("checked"));
    let mut tampered = Block::new(1, now(), Vec::new(), genesis.hash.clone(), 2).expect("mine");
    tampered.timestamp += 1;
    assert!(!ledger.add_block_from_p2p(tampered).expect("checked"));
    assert_eq!(ledger.latest_block().expect("tip").index, 0);
}

#[test]
fn competing_blocks_at_a_taken_index_are_both_rejected() {
    let mut ledger = Blockchain::open_temporary(1).expect("open");
    let genesis = ledger.latest_block().expect("genesis");
    let rival_a = Block::new(1, now(), Vec::new(), genesis.hash.clone(), 1).expect("mine");
    let rival_b = Block::new(1, now() + 17, Vec::new(), genesis.hash.clone(), 1).expect("mine");
    ledger.add_block("miner", Vec::new()).expect("mined");
    assert_eq!(ledger.latest_block().expect("tip").index, 1);
    let before = ledger.load_balances();
    assert!(!ledger.add_block_from_p2p(rival_a).expect("checked"));
    assert!(!ledger.add_block_from_p2p(rival_b).expect("checked"));
    assert_eq!(ledger.load_balances(), before);
    assert_eq!(ledger.latest_block().expect("tip").index, 1);
}

#[test]
fn sum_of_balances_is_genesis_plus_rewards() {
    let mut ledger = Blockchain::open_temporary(1).expect("open");
    assert_eq!(balance_sum(&ledger), GENESIS_AMOUNT);
    let a = bootstrap_address();
    let tx = signed_transfer(&a, "bob", 1000);
    ledger.add_block("miner", vec![tx]).expect("mined");
    assert_eq!(balance_sum(&ledger), GENESIS_AMOUNT + BLOCK_REWARD);
    ledger.add_block("miner", Vec::new()).expect("mined");
    assert_eq!(balance_sum(&ledger), GENESIS_AMOUNT + 2 * BLOCK_REWARD);
}

#[test]
fn tampered_backward_link_fails_the_audit() {
    let genesis = Block::new(0, 5, Vec::new(), "0".to_string(), 1).expect("mine");
    let child = Block::new(1, 6, Vec::new(), genesis.hash.clone(), 1).expect("mine");
    let intact = vec![genesis, child];
    assert!(chain_is_valid(&intact, 1));
    let genesis = Block::new(0, 5, Vec::new(), "0".to_string(), 1).expect("mine");
    let mut tampered = Block::new(1, 6, Vec::new(), genesis.hash.clone(), 1).expect("mine");
    tampered.prev_hash = "1111".to_string();
    assert!(!chain_is_valid(&vec![genesis, tampered], 1));
}

#[test]
fn signature_verification_matches_the_key_and_message() {
    let key = test_key();
    let message = signing_message("alice", "bob", 42);
    let signature: Signature = key.sign(&message);
    let public_key = key.verifying_key().to_sec1_bytes().to_vec();
    assert!(verify(&public_key, &message, &signature.to_vec()));
    let other = signing_message("alice", "bob", 43);
    assert!(!verify(&public_key, &other, &signature.to_vec()));
    let mut broken = signature.to_vec();
    broken[0] ^= 0xff;
    assert!(!verify(&public_key, &message, &broken));
    assert!(!verify(&[1, 2, 3], &message, &signature.to_vec()));
}

#[test]
fn sequential_overspend_in_one_batch_is_rejected_as_overflow() {
    let mut ledger = Blockchain::open_temporary(1).expect("open");
    let a = bootstrap_address();
    // Each transfer alone is covered by the pre-block balance, but applying
    // them in order would drive the sender below zero.
    let tx1 = signed_transfer(&a, "bob", 9000);
    let tx2 = signed_transfer(&a, "carol", 9000);
    let before = ledger.load_balances();
    let r = ledger.add_block("miner", vec![tx1, tx2]);
    assert_eq!(r.unwrap_err(), LedgerError::Overflow);
    assert_eq!(ledger.load_balances(), before);
    assert_eq!(ledger.latest_block().expect("tip").index, 0);
}

#[test]
fn foreign_block_minting_past_the_range_is_rejected() {
    let mut ledger = Blockchain::open_temporary(1).expect("open");
    let genesis = ledger.latest_block().expect("genesis");
    let minted = Transaction {
        from: "network".to_string(),
        to: bootstrap_address(),
        amount: u64::MAX,
        signature: Vec::new(),
        public_key: Vec::new(),
    };
    let greedy = Block::new(1, now(), vec![minted], genesis.hash.clone(), 1).expect("mine");
    let before = ledger.load_balances();
    assert!(!ledger.add_block_from_p2p(greedy).expect("checked"));
    assert_eq!(ledger.load_balances(), before);
    assert_eq!(ledger.latest_block().expect("tip").index, 0);
}

#[test]
fn absent_address_holds_zero() {
    let ledger = Blockchain::open_temporary(1).expect("open");
    assert_eq!(ledger.load_balance("nobody"), 0);
}
