//! A minimal single-process ledger: a hash-linked chain of transaction
//! blocks, and stake-weighted selection of the participant that seals the
//! next block.
pub mod chain;
pub mod pos;
pub mod digits;
pub mod primitives;

pub use chain::{Block, Blockchain, Transaction};
