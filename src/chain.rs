//! Transactions, blocks and the hash-linked chain that holds them.
use crate::digits::{decimal, hex_lower, push_decimal, push_hex, push_signed_decimal, signed_decimal};
use crate::primitives::{json_string, json_string_of, now_timestamp, sha256, sha256_of};
use vstd::prelude::*;
use vstd::string::*;
use vstd::utf8::encode_utf8;

verus! {

/// A transfer of `amount` from `sender` to `receiver`.
#[derive(Debug, Clone)]
pub struct Transaction {
    pub sender: String,
    pub receiver: String,
    pub amount: u64,
}

/// A sealed batch of transactions, linked to its predecessor by hash.
#[derive(Debug, Clone)]
pub struct Block {
    pub index: u64,
    pub timestamp: i64,
    pub transactions: Vec<Transaction>,
    pub previous_hash: String,
    pub hash: String,
    pub validator: String,
}

/// The chain of blocks, genesis first, and the transactions waiting for the
/// next block.
pub struct Blockchain {
    pub chain: Vec<Block>,
    pub unconfirmed_transactions: Vec<Transaction>,
}

/// JSON object of one transaction, fields in the order sender, receiver, amount.
pub open spec fn transaction_json(t: Transaction) -> Seq<char> {
    "{\"sender\":"@ + json_string_of(t.sender@) + ",\"receiver\":"@ + json_string_of(t.receiver@)
        + ",\"amount\":"@ + decimal(t.amount as nat) + "}"@
}

/// The transactions' JSON objects, separated by commas, in list order.
pub open spec fn transaction_items(txs: Seq<Transaction>) -> Seq<char>
    decreases txs.len(),
{
    if txs.len() == 0 {
        Seq::empty()
    } else if txs.len() == 1 {
        transaction_json(txs[0])
    } else {
        transaction_items(txs.drop_last()) + ","@ + transaction_json(txs.last())
    }
}

/// JSON array of the transactions, in list order.
pub open spec fn transactions_json(txs: Seq<Transaction>) -> Seq<char> {
    "["@ + transaction_items(txs) + "]"@
}

/// The text whose digest is a block's hash: index, timestamp, transactions,
/// previous hash and validator, concatenated in that order.
pub open spec fn hash_message(
    index: u64,
    timestamp: i64,
    txs: Seq<Transaction>,
    previous_hash: Seq<char>,
    validator: Seq<char>,
) -> Seq<char> {
    decimal(index as nat) + signed_decimal(timestamp as int) + transactions_json(txs) + previous_hash
        + validator
}

/// The hash of a block with these fields: the SHA-256 digest of the UTF-8
/// bytes of the message, in lowercase hexadecimal.
pub open spec fn block_hash(
    index: u64,
    timestamp: i64,
    txs: Seq<Transaction>,
    previous_hash: Seq<char>,
    validator: Seq<char>,
) -> Seq<char> {
    hex_lower(sha256_of(encode_utf8(hash_message(index, timestamp, txs, previous_hash, validator))))
}

impl Block {
    /// The hash recomputed from the block's own fields.
    pub open spec fn content_hash(&self) -> Seq<char> {
        block_hash(
            self.index,
            self.timestamp,
            self.transactions@,
            self.previous_hash@,
            self.validator@,
        )
    }

    /// The stored hash is the one recomputed from the fields.
    pub open spec fn is_sealed(&self) -> bool {
        self.hash@ == self.content_hash()
    }

    /// Seals a block created now.
    pub fn new(index: u64, transactions: Vec<Transaction>, previous_hash: String, validator: String) -> (r: Block)
        ensures
            r.index == index,
            r.transactions@ == transactions@,
            r.previous_hash@ == previous_hash@,
            r.validator@ == validator@,
            r.is_sealed(),
    {
        let timestamp = now_timestamp();
        Block::new_at(index, timestamp, transactions, previous_hash, validator)
    }

    /// Seals a block with the given creation time.
    pub fn new_at(
        index: u64,
        timestamp: i64,
        transactions: Vec<Transaction>,
        previous_hash: String,
        validator: String,
    ) -> (r: Block)
        ensures
            r.index == index,
            r.timestamp == timestamp,
            r.transactions@ == transactions@,
            r.previous_hash@ == previous_hash@,
            r.validator@ == validator@,
            r.is_sealed(),
    {
        let hash = Block::calculate_hash(index, timestamp, &transactions, &previous_hash, &validator);
        Block { index, timestamp, transactions, previous_hash, hash, validator }
    }

    /// The hash of a block with these fields.
    pub fn calculate_hash(
        index: u64,
        timestamp: i64,
        transactions: &Vec<Transaction>,
        previous_hash: &String,
        validator: &String,
    ) -> (r: String)
        ensures
            r@ == block_hash(index, timestamp, transactions@, previous_hash@, validator@),
    {
        let mut message = String::new();
        push_decimal(&mut message, index);
        push_signed_decimal(&mut message, timestamp);
        push_transactions_json(&mut message, transactions);
        message.append(previous_hash.as_str());
        message.append(validator.as_str());
        assert(message@ =~= hash_message(index, timestamp, transactions@, previous_hash@, validator@));
        let digest = sha256(message.as_str().as_bytes());
        let mut r = String::new();
        push_hex(&mut r, digest.as_slice());
        assert(r@ =~= block_hash(index, timestamp, transactions@, previous_hash@, validator@));
        r
    }
}

/// Every block after the genesis block carries the hash recomputed from its
/// own fields, and the hash of its predecessor as previous hash.
pub open spec fn chain_valid(blocks: Seq<Block>) -> bool {
    forall|i: int|
        1 <= i < blocks.len() ==> #[trigger] blocks[i].is_sealed() && blocks[i].previous_hash@
            == blocks[i - 1].hash@
}

/// The genesis block: index 0, no transactions, previous hash "0", validator "genesis".
pub open spec fn is_genesis(b: Block) -> bool {
    &&& b.index == 0
    &&& b.transactions@.len() == 0
    &&& b.previous_hash@ == "0"@
    &&& b.validator@ == "genesis"@
    &&& b.is_sealed()
}

impl Blockchain {
    /// What every chain built by `new`, `add_transaction` and `add_block`
    /// satisfies: a genesis block first, block `i` at index `i`, and a valid chain.
    pub open spec fn wf(&self) -> bool {
        &&& self.chain@.len() >= 1
        &&& is_genesis(self.chain@[0])
        &&& forall|i: int| 0 <= i < self.chain@.len() ==> #[trigger] self.chain@[i].index == i
        &&& chain_valid(self.chain@)
    }

    /// A chain holding only the genesis block, with no pending transactions.
    pub fn new() -> (r: Blockchain)
        ensures
            r.chain@.len() == 1,
            is_genesis(r.chain@[0]),
            r.unconfirmed_transactions@.len() == 0,
            r.wf(),
    {
        let mut blockchain = Blockchain { chain: Vec::new(), unconfirmed_transactions: Vec::new() };
        let genesis_block = Block::new(0, Vec::new(), String::from_str("0"), String::from_str("genesis"));
        blockchain.chain.push(genesis_block);
        blockchain
    }

    /// Queues a transaction for the next block.
    pub fn add_transaction(&mut self, transaction: Transaction)
        ensures
            final(self).chain@ == old(self).chain@,
            final(self).unconfirmed_transactions@ == old(self).unconfirmed_transactions@.push(
                transaction,
            ),
            old(self).wf() ==> final(self).wf(),
    {
        self.unconfirmed_transactions.push(transaction);
    }

    /// Seals the pending transactions, in order, into a new block named for
    /// `validator` and appends it; the pending list is left empty.
    pub fn add_block(&mut self, validator: String)
        requires
            old(self).chain@.len() >= 1,
            old(self).chain@.last().index < u64::MAX,
        ensures
            final(self).chain@.len() == old(self).chain@.len() + 1,
            final(self).chain@.subrange(0, old(self).chain@.len() as int) == old(self).chain@,
            final(self).chain@.last().index == old(self).chain@.last().index + 1,
            final(self).chain@.last().transactions@ == old(self).unconfirmed_transactions@,
            final(self).chain@.last().previous_hash@ == old(self).chain@.last().hash@,
            final(self).chain@.last().validator@ == validator@,
            final(self).chain@.last().is_sealed(),
            final(self).unconfirmed_transactions@.len() == 0,
            old(self).wf() ==> final(self).wf(),
    {
        let n = self.chain.len();
        let index = self.chain[n - 1].index + 1;
        let previous_hash = self.chain[n - 1].hash.clone();
        let mut transactions: Vec<Transaction> = Vec::new();
        std::mem::swap(&mut transactions, &mut self.unconfirmed_transactions);
        let new_block = Block::new(index, transactions, previous_hash, validator);
        self.chain.push(new_block);
        assert(self.chain@.subrange(0, n as int) =~= old(self).chain@);
    }

    /// Whether every block after the genesis block carries the hash of its own
    /// fields and links to its predecessor's hash.
    pub fn is_chain_valid(&self) -> (r: bool)
        ensures
            r == chain_valid(self.chain@),
    {
        let n = self.chain.len();
        let mut i: usize = 1;
        while i < n
            invariant
                n == self.chain@.len(),
                1 <= i,
                forall|j: int|
                    1 <= j < i && j < n ==> #[trigger] self.chain@[j].is_sealed()
                        && self.chain@[j].previous_hash@ == self.chain@[j - 1].hash@,
            decreases n - i,
        {
            let current_block = &self.chain[i];
            let previous_block = &self.chain[i - 1];
            let expected = Block::calculate_hash(
                current_block.index,
                current_block.timestamp,
                &current_block.transactions,
                &current_block.previous_hash,
                &current_block.validator,
            );
            if current_block.hash != expected {
                assert(!self.chain@[i as int].is_sealed());
                return false;
            }
            if current_block.previous_hash != previous_block.hash {
                assert(self.chain@[i as int].previous_hash@ != self.chain@[i - 1].hash@);
                return false;
            }
            i = i + 1;
        }
        true
    }
}

/// Two transaction lists with the same senders, receivers and amounts, in the same order.
pub open spec fn same_transactions(a: Seq<Transaction>, b: Seq<Transaction>) -> bool {
    &&& a.len() == b.len()
    &&& forall|i: int|
        0 <= i < a.len() ==> #[trigger] a[i].sender@ == b[i].sender@ && a[i].receiver@ == b[i].receiver@
            && a[i].amount == b[i].amount
}

proof fn lemma_same_items(a: Seq<Transaction>, b: Seq<Transaction>)
    requires
        same_transactions(a, b),
    ensures
        transaction_items(a) == transaction_items(b),
    decreases a.len(),
{
    if a.len() > 1 {
        assert(same_transactions(a.drop_last(), b.drop_last()));
        lemma_same_items(a.drop_last(), b.drop_last());
        assert(a.last().sender@ == b.last().sender@);
    } else if a.len() == 1 {
        assert(a[0].sender@ == b[0].sender@);
    }
}

/// A block's hash depends only on its index, timestamp, the senders,
/// receivers and amounts of its transactions in order, its previous hash and
/// its validator: blocks built from equal values get equal hashes.
pub proof fn lemma_hash_determinism(
    index: u64,
    timestamp: i64,
    a: Seq<Transaction>,
    b: Seq<Transaction>,
    previous_hash: Seq<char>,
    validator: Seq<char>,
)
    requires
        same_transactions(a, b),
    ensures
        block_hash(index, timestamp, a, previous_hash, validator) == block_hash(
            index,
            timestamp,
            b,
            previous_hash,
            validator,
        ),
{
    lemma_same_items(a, b);
}

/// In a valid chain, replacing the stored hash of a block after the genesis
/// block by a different value, all else kept, makes the chain invalid.
pub proof fn lemma_forged_hash_detected(blocks: Seq<Block>, i: int, forged: Block)
    requires
        chain_valid(blocks),
        1 <= i < blocks.len(),
        forged.content_hash() == blocks[i].content_hash(),
        forged.hash@ != blocks[i].hash@,
    ensures
        !chain_valid(blocks.update(i, forged)),
{
    assert(blocks[i].is_sealed());
    assert(!blocks.update(i, forged)[i].is_sealed());
}

/// In a valid chain, altering the fields of a block after the genesis block
/// while keeping its stored hash makes the chain invalid whenever the hash
/// recomputed from the altered fields differs from the original one.
pub proof fn lemma_altered_block_detected(blocks: Seq<Block>, i: int, altered: Block)
    requires
        chain_valid(blocks),
        1 <= i < blocks.len(),
        altered.hash@ == blocks[i].hash@,
        altered.content_hash() != blocks[i].content_hash(),
    ensures
        !chain_valid(blocks.update(i, altered)),
{
    assert(blocks[i].is_sealed());
    assert(!blocks.update(i, altered)[i].is_sealed());
}

fn push_transaction_json(out: &mut String, t: &Transaction)
    ensures
        final(out)@ == old(out)@ + transaction_json(*t),
{
    out.append("{\"sender\":");
    out.append(json_string(&t.sender).as_str());
    out.append(",\"receiver\":");
    out.append(json_string(&t.receiver).as_str());
    out.append(",\"amount\":");
    push_decimal(out, t.amount);
    out.append("}");
    assert(final(out)@ =~= old(out)@ + transaction_json(*t));
}

fn push_transactions_json(out: &mut String, txs: &Vec<Transaction>)
    ensures
        final(out)@ == old(out)@ + transactions_json(txs@),
{
    let ghost start = out@;
    out.append("[");
    let mut i: usize = 0;
    while i < txs.len()
        invariant
            i <= txs@.len(),
            out@ == start + "["@ + transaction_items(txs@.subrange(0, i as int)),
        decreases txs@.len() - i,
    {
        let ghost before = out@;
        if i > 0 {
            out.append(",");
        }
        push_transaction_json(out, &txs[i]);
        proof {
            let s = txs@.subrange(0, i + 1);
            assert(s.drop_last() =~= txs@.subrange(0, i as int));
            assert(s.last() == txs@[i as int]);
            if i == 0 {
                assert(txs@.subrange(0, 0) =~= Seq::<Transaction>::empty());
                assert(s.len() == 1);
            }
        }
        i = i + 1;
        assert(out@ =~= start + "["@ + transaction_items(txs@.subrange(0, i as int)));
    }
    out.append("]");
    assert(txs@.subrange(0, i as int) =~= txs@);
    assert(final(out)@ =~= old(out)@ + transactions_json(txs@));
}

} // verus!
