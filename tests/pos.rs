use l1_poc::pos::{EmptyLedgerError, PoS};
use l1_poc::{Blockchain, Transaction};

fn ledger_abc() -> PoS {
    let mut pos = PoS::new();
    pos.update_stake("A".to_string(), 50);
    pos.update_stake("B".to_string(), 30);
    pos.update_stake("C".to_string(), 20);
    pos
}

#[test]
fn update_stake_accumulates() {
    let mut pos = PoS::new();
    pos.update_stake("Alice".to_string(), 10);
    pos.update_stake("Bob".to_string(), 0);
    pos.update_stake("Alice".to_string(), 5);
    assert_eq!(pos.stake_of(&"Alice".to_string()), 15);
    assert_eq!(pos.stake_of(&"Bob".to_string()), 0);
    assert_eq!(pos.stake_of(&"Carol".to_string()), 0);
    assert_eq!(pos.total_stake(), 15);
}

#[test]
fn total_stake_beyond_u64() {
    let mut pos = PoS::new();
    pos.update_stake("a".to_string(), u64::MAX);
    pos.update_stake("b".to_string(), u64::MAX);
    assert_eq!(pos.total_stake(), 2 * (u64::MAX as u128));
}

#[test]
fn select_at_follows_stake_intervals() {
    let pos = ledger_abc();
    let at = |d: u128| pos.select_validator_at(d).unwrap();
    assert_eq!(at(0), "A");
    assert_eq!(at(49), "A");
    assert_eq!(at(50), "B");
    assert_eq!(at(79), "B");
    assert_eq!(at(80), "C");
    assert_eq!(at(99), "C");
    assert_eq!(at(100), "A");
    assert_eq!(at(230), "A");
    assert_eq!(at(250), "B");
}

#[test]
fn select_at_skips_zero_stake() {
    let mut pos = PoS::new();
    pos.update_stake("zero".to_string(), 0);
    pos.update_stake("one".to_string(), 1);
    assert_eq!(pos.select_validator_at(0).unwrap(), "one");
    assert_eq!(pos.select_validator().unwrap(), "one");
}

#[test]
fn weighted_selection_convergence() {
    let pos = ledger_abc();
    let rounds = 100_000;
    let (mut a, mut b, mut c) = (0u32, 0u32, 0u32);
    for _ in 0..rounds {
        match pos.select_validator().unwrap().as_str() {
            "A" => a += 1,
            "B" => b += 1,
            "C" => c += 1,
            other => panic!("unexpected validator {}", other),
        }
    }
    let f = |n: u32| n as f64 / rounds as f64;
    assert!((f(a) - 0.5).abs() < 0.02);
    assert!((f(b) - 0.3).abs() < 0.02);
    assert!((f(c) - 0.2).abs() < 0.02);
}

#[test]
fn empty_ledger_failure() {
    let pos = PoS::new();
    assert_eq!(pos.select_validator(), Err(EmptyLedgerError));
    assert_eq!(pos.select_validator_at(3), Err(EmptyLedgerError));
}

#[test]
fn zero_weight_ledger_failure() {
    let mut pos = PoS::new();
    pos.update_stake("A".to_string(), 0);
    pos.update_stake("B".to_string(), 0);
    assert_eq!(pos.select_validator(), Err(EmptyLedgerError));
    assert_eq!(pos.select_validator_at(0), Err(EmptyLedgerError));
}

#[test]
fn end_to_end_scenario() {
    let mut blockchain = Blockchain::new();
    let mut pos = PoS::new();
    pos.update_stake("Alice".to_string(), 50);
    pos.update_stake("Bob".to_string(), 30);
    pos.update_stake("Charlie".to_string(), 20);
    blockchain.add_transaction(Transaction { sender: "Alice".to_string(), receiver: "Bob".to_string(), amount: 10 });
    blockchain.add_transaction(Transaction { sender: "Bob".to_string(), receiver: "Charlie".to_string(), amount: 5 });
    let validator = pos.select_validator().unwrap();
    assert!(["Alice", "Bob", "Charlie"].contains(&validator.as_str()));
    blockchain.add_block(validator.clone());
    assert_eq!(blockchain.chain.len(), 2);
    let block = &blockchain.chain[1];
    assert_eq!(block.validator, validator);
    assert_eq!(block.transactions.len(), 2);
    assert_eq!((block.transactions[0].sender.as_str(), block.transactions[0].receiver.as_str(), block.transactions[0].amount), ("Alice", "Bob", 10));
    assert_eq!((block.transactions[1].sender.as_str(), block.transactions[1].receiver.as_str(), block.transactions[1].amount), ("Bob", "Charlie", 5));
    assert!(blockchain.is_chain_valid());
}
