use l1_poc::{Block, Blockchain, Transaction};

fn tx(sender: &str, receiver: &str, amount: u64) -> Transaction {
    Transaction { sender: sender.to_string(), receiver: receiver.to_string(), amount }
}

fn chain_of_three() -> Blockchain {
    let mut bc = Blockchain::new();
    bc.add_transaction(tx("Alice", "Bob", 10));
    bc.add_block("Alice".to_string());
    bc.add_transaction(tx("Bob", "Charlie", 5));
    bc.add_transaction(tx("Charlie", "Alice", 1));
    bc.add_block("Bob".to_string());
    bc
}

#[test]
fn genesis_invariant() {
    let bc = Blockchain::new();
    assert_eq!(bc.chain.len(), 1);
    let g = &bc.chain[0];
    assert_eq!(g.index, 0);
    assert_eq!(g.previous_hash, "0");
    assert_eq!(g.validator, "genesis");
    assert!(g.transactions.is_empty());
    assert!(bc.unconfirmed_transactions.is_empty());
    assert_eq!(g.hash.len(), 64);
    assert!(bc.is_chain_valid());
}

#[test]
fn append_monotonicity() {
    let mut bc = Blockchain::new();
    for k in 0..5u64 {
        bc.add_transaction(tx("a", "b", k));
        bc.add_block(format!("v{}", k));
    }
    assert_eq!(bc.chain.len(), 6);
    for i in 0..bc.chain.len() {
        assert_eq!(bc.chain[i].index, i as u64);
        if i > 0 {
            assert_eq!(bc.chain[i].previous_hash, bc.chain[i - 1].hash);
        }
    }
    assert!(bc.is_chain_valid());
}

#[test]
fn empty_block_is_valid() {
    let mut bc = Blockchain::new();
    bc.add_block("Alice".to_string());
    assert_eq!(bc.chain.len(), 2);
    assert!(bc.chain[1].transactions.is_empty());
    assert!(bc.is_chain_valid());
}

#[test]
fn tamper_amount_detected() {
    let mut bc = chain_of_three();
    assert!(bc.is_chain_valid());
    bc.chain[1].transactions[0].amount = 1000;
    assert!(!bc.is_chain_valid());
}

#[test]
fn tamper_sender_detected() {
    let mut bc = chain_of_three();
    bc.chain[2].transactions[1].sender = "Mallory".to_string();
    assert!(!bc.is_chain_valid());
}

#[test]
fn tamper_validator_detected() {
    let mut bc = chain_of_three();
    bc.chain[2].validator = "Mallory".to_string();
    assert!(!bc.is_chain_valid());
}

#[test]
fn tamper_timestamp_detected() {
    let mut bc = chain_of_three();
    bc.chain[1].timestamp += 1;
    assert!(!bc.is_chain_valid());
}

#[test]
fn tamper_hash_detected() {
    let mut bc = chain_of_three();
    bc.chain[2].hash = "00".repeat(32);
    assert!(!bc.is_chain_valid());
}

#[test]
fn tamper_swapped_transactions_detected() {
    let mut bc = chain_of_three();
    bc.chain[2].transactions.swap(0, 1);
    assert!(!bc.is_chain_valid());
}

#[test]
fn tamper_resealed_block_breaks_link() {
    let mut bc = chain_of_three();
    let b = &bc.chain[1];
    let forged = Block::new_at(b.index, b.timestamp, vec![tx("Alice", "Mallory", 10)], b.previous_hash.clone(), b.validator.clone());
    bc.chain[1] = forged;
    assert!(!bc.is_chain_valid());
}

#[test]
fn pending_list_flush() {
    let mut bc = Blockchain::new();
    bc.add_transaction(tx("Alice", "Bob", 10));
    bc.add_transaction(tx("Bob", "Charlie", 5));
    bc.add_transaction(tx("Alice", "Bob", 10));
    assert_eq!(bc.unconfirmed_transactions.len(), 3);
    bc.add_block("Bob".to_string());
    assert!(bc.unconfirmed_transactions.is_empty());
    let txs = &bc.chain[1].transactions;
    assert_eq!(txs.len(), 3);
    assert_eq!((txs[0].sender.as_str(), txs[0].receiver.as_str(), txs[0].amount), ("Alice", "Bob", 10));
    assert_eq!((txs[1].sender.as_str(), txs[1].receiver.as_str(), txs[1].amount), ("Bob", "Charlie", 5));
    assert_eq!((txs[2].sender.as_str(), txs[2].receiver.as_str(), txs[2].amount), ("Alice", "Bob", 10));
    assert!(bc.chain[0].transactions.is_empty());
    bc.add_block("Charlie".to_string());
    assert!(bc.chain[2].transactions.is_empty());
}

#[test]
fn hash_of_genesis_fields() {
    let h = Block::calculate_hash(0, 1700000000, &Vec::new(), &"0".to_string(), &"genesis".to_string());
    assert_eq!(h, "ae48aa24955b7fbfdbc892b78ddad21d7949eabfbe0e39a3326e882d7fa2abaa");
}

#[test]
fn hash_of_two_transactions() {
    let txs = vec![tx("Alice", "Bob", 10), tx("Bob", "Charlie", 5)];
    let h = Block::calculate_hash(1, 1700000000, &txs, &"abc".to_string(), &"Alice".to_string());
    assert_eq!(h, "a23d6f87c61378c2cf61b4359be27cee32217fffc59450c0420ce8950cb61e00");
}

#[test]
fn hash_escapes_quotes_and_signs_timestamp() {
    let txs = vec![tx("a\"b", "", 0)];
    let h = Block::calculate_hash(2, -42, &txs, &String::new(), &"v".to_string());
    assert_eq!(h, "dc83fc4ace1c112271ee7c448841eb545467a9041c8e98c5fc97d764eab24961");
}

#[test]
fn hash_determinism() {
    let txs = vec![tx("Alice", "Bob", 10), tx("Bob", "Charlie", 5)];
    let a = Block::new_at(3, 1234, txs.clone(), "p".to_string(), "Bob".to_string());
    let b = Block::new_at(3, 1234, txs.clone(), "p".to_string(), "Bob".to_string());
    assert_eq!(a.hash, b.hash);
    let swapped = vec![txs[1].clone(), txs[0].clone()];
    let c = Block::new_at(3, 1234, swapped, "p".to_string(), "Bob".to_string());
    assert_ne!(a.hash, c.hash);
}

#[test]
fn block_new_is_sealed() {
    let b = Block::new(7, vec![tx("x", "y", 3)], "prev".to_string(), "val".to_string());
    assert_eq!(b.index, 7);
    assert_eq!(b.previous_hash, "prev");
    assert_eq!(b.validator, "val");
    let expected = Block::calculate_hash(b.index, b.timestamp, &b.transactions, &b.previous_hash, &b.validator);
    assert_eq!(b.hash, expected);
}
