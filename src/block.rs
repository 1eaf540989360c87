//! Blocks: metadata that links to a predecessor by digest, and transactions.
use vstd::prelude::*;

use crate::decimal::{decimal, push_decimal};
use crate::hash::{blake2s_256, le_u32, le_u64, Hash256, HASH256_BYTES};
use crate::hex::{bytes_to_hex, hex_encode};
use crate::transaction::{tx_text, Transaction, TransactionView};

verus! {

/// A block of the chain.
pub struct Block {
    version: u32,
    timestamp: u64,
    previous: [u8; HASH256_BYTES],
    merkle_root: [u8; HASH256_BYTES],
    transactions: Vec<Transaction>,
}

/// The mathematical value of a `Block`.
pub struct BlockView {
    pub version: u32,
    pub timestamp: u64,
    pub previous: Seq<u8>,
    pub merkle_root: Seq<u8>,
    pub transactions: Seq<TransactionView>,
}

impl View for Block {
    type V = BlockView;

    closed spec fn view(&self) -> BlockView {
        BlockView {
            version: self.version,
            timestamp: self.timestamp,
            previous: self.previous@,
            merkle_root: self.merkle_root@,
            transactions: self.transactions@.map_values(|t: Transaction| t@),
        }
    }
}

/// The all-zero digest.
pub open spec fn zero_digest() -> Seq<u8> {
    Seq::new(HASH256_BYTES as nat, |i: int| 0u8)
}

/// The byte stream that a block's digest is computed over: version,
/// timestamp, previous digest and merkle root. Transactions are not part of it.
pub open spec fn block_hash_input(b: BlockView) -> Seq<u8> {
    le_u32(b.version) + le_u64(b.timestamp) + b.previous + b.merkle_root
}

/// The digest of a block.
pub open spec fn block_digest(b: BlockView) -> Seq<u8> {
    blake2s_256(block_hash_input(b))
}

impl Block {
    /// Version 1, timestamp 0, all-zero previous digest and merkle root, no
    /// transactions.
    pub fn new() -> (b: Block)
        ensures
            b@.version == 1,
            b@.timestamp == 0,
            b@.previous == zero_digest(),
            b@.merkle_root == zero_digest(),
            b@.transactions == Seq::<TransactionView>::empty(),
    {
        let b = Block {
            version: 1,
            timestamp: 0,
            previous: [0u8; HASH256_BYTES],
            merkle_root: [0u8; HASH256_BYTES],
            transactions: Vec::new(),
        };
        assert(b@.previous =~= zero_digest());
        assert(b@.merkle_root =~= zero_digest());
        assert(b@.transactions =~= Seq::<TransactionView>::empty());
        b
    }

    /// A block with the given fields and no transactions.
    pub fn from_parts(
        version: u32,
        timestamp: u64,
        previous: [u8; HASH256_BYTES],
        merkle_root: [u8; HASH256_BYTES],
    ) -> (b: Block)
        ensures
            b@ == (BlockView {
                version,
                timestamp,
                previous: previous@,
                merkle_root: merkle_root@,
                transactions: Seq::empty(),
            }),
    {
        let b = Block { version, timestamp, previous, merkle_root, transactions: Vec::new() };
        assert(b@.transactions =~= Seq::<TransactionView>::empty());
        b
    }

    pub fn set_timestamp(&mut self, ts: u64)
        ensures
            final(self)@ == (BlockView { timestamp: ts, ..old(self)@ }),
    {
        self.timestamp = ts;
        assert(self@.transactions =~= old(self)@.transactions);
    }

    /// Sets the digest of the predecessor.
    pub fn set_previous(&mut self, p: &[u8; HASH256_BYTES])
        ensures
            final(self)@ == (BlockView { previous: p@, ..old(self)@ }),
    {
        self.previous = *p;
        assert(self@.transactions =~= old(self)@.transactions);
    }

    pub fn get_previous(&self) -> (r: &[u8])
        ensures
            r@ == self@.previous,
            r@.len() == HASH256_BYTES,
    {
        self.previous.as_slice()
    }

    /// Appends `tx` after the existing transactions.
    pub fn add_transaction(&mut self, tx: Transaction)
        ensures
            final(self)@ == (BlockView {
                transactions: old(self)@.transactions.push(tx@),
                ..old(self)@
            }),
    {
        self.transactions.push(tx);
        assert(self@.transactions =~= old(self)@.transactions.push(tx@));
    }

    /// Writes the digest of the block into `buf`.
    pub fn get_hash(&self, buf: &mut [u8])
        requires
            old(buf)@.len() == HASH256_BYTES,
        ensures
            final(buf)@ == block_digest(self@),
    {
        let mut hash = Hash256::new();
        hash.write_u32_le(self.version);
        hash.write_u64_le(self.timestamp);
        hash.write(self.previous.as_slice());
        hash.write(self.merkle_root.as_slice());
        assert(hash@ =~= block_hash_input(self@));
        hash.finalize(buf);
    }
}

/// The texts of the transactions, in order.
pub open spec fn transactions_text(txs: Seq<TransactionView>) -> Seq<char>
    decreases txs.len(),
{
    if txs.len() == 0 {
        Seq::empty()
    } else {
        transactions_text(txs.drop_last()) + tx_text(txs.last())
    }
}

/// The human-readable form of a block: digest, version, timestamp, previous
/// digest, merkle root, then each transaction, followed by an empty line.
pub open spec fn block_text(b: BlockView) -> Seq<char> {
    "block _hash: "@ + hex_encode(block_digest(b)) + "\n"@ + "version:     "@ + decimal(
        b.version as nat,
    ) + "\n"@ + "timestamp:   "@ + decimal(b.timestamp as nat) + "\n"@ + "previous:    "@
        + hex_encode(b.previous) + "\n"@ + "merkle_root: "@ + hex_encode(b.merkle_root) + "\n"@
        + "transactions:\n"@ + transactions_text(b.transactions) + "\n"@
}

impl Block {
    /// The human-readable form of the block.
    pub fn render(&self) -> (r: String)
        ensures
            r@ == block_text(self@),
    {
        let mut digest = [0u8; HASH256_BYTES];
        self.get_hash(&mut digest);
        let mut r = String::new();
        r.append("block _hash: ");
        r.append(bytes_to_hex(digest.as_slice()).as_str());
        r.append("\n");
        r.append("version:     ");
        push_decimal(&mut r, self.version as u64);
        r.append("\n");
        r.append("timestamp:   ");
        push_decimal(&mut r, self.timestamp);
        r.append("\n");
        r.append("previous:    ");
        r.append(bytes_to_hex(self.previous.as_slice()).as_str());
        r.append("\n");
        r.append("merkle_root: ");
        r.append(bytes_to_hex(self.merkle_root.as_slice()).as_str());
        r.append("\n");
        r.append("transactions:\n");
        let ghost head = r@;
        let mut k: usize = 0;
        while k < self.transactions.len()
            invariant
                k <= self@.transactions.len(),
                r@ == head + transactions_text(self@.transactions.take(k as int)),
            decreases self@.transactions.len() - k,
        {
            let t = self.transactions[k].render();
            r.append(t.as_str());
            k = k + 1;
            assert(self@.transactions.take(k as int).drop_last() =~= self@.transactions.take(
                k - 1 as int,
            ));
            assert(r@ =~= head + transactions_text(self@.transactions.take(k as int)));
        }
        assert(self@.transactions.take(k as int) =~= self@.transactions);
        r.append("\n");
        assert(r@ =~= block_text(self@));
        r
    }
}

} // verus!
