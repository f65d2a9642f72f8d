//! Blocks: an ordered list of transactions under a proof-of-work header.

use vstd::prelude::*;
use crate::merkle_tree::{bytes_view, merkle_root_of, MerkleTree};
use crate::proof_of_work::{pow_preimage, pow_valid, meets_target, ProofOfWork, MAX_NONCE};
use crate::transaction::{field_bytes, put_field, put_u64, tx_bytes, txs_view, Transaction, TxV};
use crate::util::{be_u64_bytes, copy_bytes, sha256_of, write_i64};

verus! {

/// A block. `hash` covers the previous hash, the Merkle root of the
/// transactions, the timestamp, the difficulty and the nonce; not the height.
pub struct Block {
    pub timestamp: i64,
    pub prev_block_hash: Vec<u8>,
    pub transactions: Vec<Transaction>,
    pub nonce: i64,
    pub hash: Vec<u8>,
    pub height: i64,
}

/// Mathematical value of a block.
pub struct BlockV {
    pub timestamp: i64,
    pub prev_block_hash: Seq<u8>,
    pub transactions: Seq<TxV>,
    pub nonce: i64,
    pub hash: Seq<u8>,
    pub height: i64,
}

impl View for Block {
    type V = BlockV;

    open spec fn view(&self) -> BlockV {
        BlockV {
            timestamp: self.timestamp,
            prev_block_hash: self.prev_block_hash@,
            transactions: txs_view(self.transactions@),
            nonce: self.nonce,
            hash: self.hash@,
            height: self.height,
        }
    }
}

/// The encodings of a list of transactions.
pub open spec fn txs_bytes(txs: Seq<TxV>) -> Seq<Seq<u8>> {
    txs.map_values(|t: TxV| tx_bytes(t))
}

/// The Merkle root over the encoded transactions of a block.
pub open spec fn block_tx_root(b: BlockV) -> Seq<u8> {
    merkle_root_of(txs_bytes(b.transactions))
}

pub open spec fn txs_field_bytes(txs: Seq<TxV>) -> Seq<u8>
    decreases txs.len(),
{
    if txs.len() == 0 {
        Seq::empty()
    } else {
        txs_field_bytes(txs.drop_last()) + field_bytes(tx_bytes(txs.last()))
    }
}

/// The byte encoding of a block, whose length the chain bounds.
pub open spec fn block_bytes(b: BlockV) -> Seq<u8> {
    be_u64_bytes(b.timestamp as u64) + field_bytes(b.prev_block_hash) + be_u64_bytes(
        b.transactions.len() as u64,
    ) + txs_field_bytes(b.transactions) + be_u64_bytes(b.nonce as u64) + field_bytes(b.hash)
        + be_u64_bytes(b.height as u64)
}

/// The block that mining with nonce `n` yields from the header fields of `b`.
pub open spec fn with_nonce(b: BlockV, n: i64) -> BlockV {
    BlockV { nonce: n, hash: sha256_of(pow_preimage(b, n)), ..b }
}

/// `n` is the least nonce below `MAX_NONCE` whose digest meets the target.
pub open spec fn first_valid_nonce(b: BlockV, n: i64) -> bool {
    &&& 0 <= n < MAX_NONCE
    &&& meets_target(sha256_of(pow_preimage(b, n)))
    &&& forall|m: i64| 0 <= m < n ==> !meets_target(#[trigger] sha256_of(pow_preimage(b, m)))
}

/// No nonce below `MAX_NONCE` gives the header fields of `b` a digest that
/// meets the target.
pub open spec fn exhausted(b: BlockV) -> bool {
    forall|m: i64| 0 <= m < MAX_NONCE ==> !meets_target(#[trigger] sha256_of(pow_preimage(b, m)))
}

/// The header fields of a block mined at `height` over `txs` on `prev`.
pub open spec fn header(txs: Seq<TxV>, prev: Seq<u8>, height: i64, timestamp: i64) -> BlockV {
    BlockV { timestamp, prev_block_hash: prev, transactions: txs, nonce: 0, hash: Seq::empty(), height }
}

/// Mining a block gives a block that validates, whatever its fields.
pub proof fn lemma_mined_block_validates(b: BlockV, n: i64)
    requires
        meets_target(sha256_of(pow_preimage(b, n))),
    ensures
        pow_valid(with_nonce(b, n)),
{
    assert(pow_preimage(with_nonce(b, n), n) == pow_preimage(b, n));
}

/// A fresh vector of clones of the transactions.
pub(crate) fn clone_txs(v: &Vec<Transaction>) -> (r: Vec<Transaction>)
    ensures
        txs_view(r@) == txs_view(v@),
{
    let mut r: Vec<Transaction> = Vec::new();
    let mut k: usize = 0;
    while k < v.len()
        invariant
            0 <= k <= v@.len(),
            r@.len() == k,
            forall|j: int| 0 <= j < k ==> #[trigger] r@[j]@ == v@[j]@,
        decreases v@.len() - k,
    {
        r.push(v[k].clone());
        k = k + 1;
    }
    proof {
        assert(txs_view(r@) =~= txs_view(v@));
    }
    r
}

impl Clone for Block {
    fn clone(&self) -> (r: Self)
        ensures
            r@ == self@,
    {
        Block {
            timestamp: self.timestamp,
            prev_block_hash: copy_bytes(self.prev_block_hash.as_slice()),
            transactions: clone_txs(&self.transactions),
            nonce: self.nonce,
            hash: copy_bytes(self.hash.as_slice()),
            height: self.height,
        }
    }
}

impl Block {
    /// Mines a block at `height` over `transactions` on top of
    /// `prev_block_hash`, stamped with the current time (see `new_at`).
    pub fn new(transactions: Vec<Transaction>, prev_block_hash: Vec<u8>, height: i64) -> (r: Option<Block>)
        requires
            transactions@.len() > 0,
        ensures
            r is Some ==> {
                let base = BlockV {
                    timestamp: r.unwrap()@.timestamp,
                    prev_block_hash: prev_block_hash@,
                    transactions: txs_view(transactions@),
                    nonce: 0,
                    hash: Seq::empty(),
                    height,
                };
                first_valid_nonce(base, r.unwrap()@.nonce) && r.unwrap()@ == with_nonce(base, r.unwrap()@.nonce)
                    && pow_valid(r.unwrap()@)
            },
            r is None ==> exists|t: i64| exhausted(#[trigger] header(txs_view(transactions@), prev_block_hash@, height, t)),
    {
        let timestamp = crate::util::get_time_sec();
        let ghost tv = txs_view(transactions@);
        let ghost prev = prev_block_hash@;
        let r = Self::new_at(transactions, prev_block_hash, height, timestamp);
        proof {
            if r is None {
                assert(header(tv, prev, height, timestamp) == BlockV {
                    timestamp,
                    prev_block_hash: prev,
                    transactions: tv,
                    nonce: 0,
                    hash: Seq::empty(),
                    height,
                });
                assert(exhausted(header(tv, prev, height, timestamp)));
            }
        }
        r
    }

    /// Mines a block at `height` over `transactions` on top of
    /// `prev_block_hash`, stamped `timestamp`. `None` when no nonce below
    /// `MAX_NONCE` meets the target.
    pub fn new_at(transactions: Vec<Transaction>, prev_block_hash: Vec<u8>, height: i64, timestamp: i64) -> (r: Option<Block>)
        requires
            transactions@.len() > 0,
        ensures
            ({
                let base = BlockV {
                    timestamp,
                    prev_block_hash: prev_block_hash@,
                    transactions: txs_view(transactions@),
                    nonce: 0,
                    hash: Seq::empty(),
                    height,
                };
                &&& r is Some ==> first_valid_nonce(base, r.unwrap()@.nonce)
                    && r.unwrap()@ == with_nonce(base, r.unwrap()@.nonce)
                    && pow_valid(r.unwrap()@)
                &&& r is None ==> forall|m: i64|
                    0 <= m < MAX_NONCE ==> !meets_target(#[trigger] sha256_of(pow_preimage(base, m)))
            }),
    {
        let block = Block { timestamp, prev_block_hash, transactions, nonce: 0, hash: Vec::new(), height };
        let pow = ProofOfWork::new_proof_of_work(block);
        match pow.run() {
            Some((nonce, hash)) => {
                let mut b = pow.block;
                b.hash = hash;
                b.nonce = nonce;
                proof {
                    lemma_mined_block_validates(pow.block@, nonce);
                }
                Some(b)
            },
            None => None,
        }
    }

    /// The first block of a chain, stamped with the current time (see
    /// `new_genesis_block_at`).
    pub fn new_genesis_block(coinbase: Transaction) -> (r: Option<Block>)
        ensures
            r is Some ==> {
                let base = BlockV {
                    timestamp: r.unwrap()@.timestamp,
                    prev_block_hash: Seq::empty(),
                    transactions: seq![coinbase@],
                    nonce: 0,
                    hash: Seq::empty(),
                    height: 0,
                };
                first_valid_nonce(base, r.unwrap()@.nonce) && r.unwrap()@ == with_nonce(base, r.unwrap()@.nonce)
                    && pow_valid(r.unwrap()@)
            },
            r is None ==> exists|t: i64| exhausted(#[trigger] header(seq![coinbase@], Seq::empty(), 0, t)),
    {
        let timestamp = crate::util::get_time_sec();
        let ghost cb = coinbase@;
        let r = Self::new_genesis_block_at(coinbase, timestamp);
        proof {
            if r is None {
                assert(exhausted(header(seq![cb], Seq::empty(), 0, timestamp)));
            }
        }
        r
    }

    /// The first block of a chain: height 0, no previous hash, the coinbase alone.
    pub fn new_genesis_block_at(coinbase: Transaction, timestamp: i64) -> (r: Option<Block>)
        ensures
            ({
                let base = BlockV {
                    timestamp,
                    prev_block_hash: Seq::empty(),
                    transactions: seq![coinbase@],
                    nonce: 0,
                    hash: Seq::empty(),
                    height: 0,
                };
                &&& r is Some ==> first_valid_nonce(base, r.unwrap()@.nonce)
                    && r.unwrap()@ == with_nonce(base, r.unwrap()@.nonce)
                    && pow_valid(r.unwrap()@)
                &&& r is None ==> forall|m: i64|
                    0 <= m < MAX_NONCE ==> !meets_target(#[trigger] sha256_of(pow_preimage(base, m)))
            }),
    {
        let txs = vec![coinbase];
        let ghost v = txs_view(txs@);
        proof {
            assert(v =~= seq![coinbase@]);
        }
        let empty: Vec<u8> = Vec::new();
        proof {
            assert(empty@ =~= Seq::<u8>::empty());
        }
        Block::new_at(txs, empty, 0, timestamp)
    }

    /// The Merkle root of the encoded transactions.
    pub fn hash_transactions(&self) -> (r: Vec<u8>)
        requires
            self.transactions@.len() > 0,
        ensures
            r@ == block_tx_root(self@),
            r@.len() == 32,
    {
        let mut items: Vec<Vec<u8>> = Vec::new();
        let mut i: usize = 0;
        while i < self.transactions.len()
            invariant
                0 <= i <= self.transactions@.len(),
                items@.len() == i,
                forall|j: int| 0 <= j < i ==> #[trigger] items@[j]@ == tx_bytes(self.transactions@[j]@),
            decreases self.transactions@.len() - i,
        {
            items.push(self.transactions[i].serialize());
            i = i + 1;
        }
        proof {
            assert(bytes_view(items@) =~= txs_bytes(self@.transactions));
        }
        let tree = MerkleTree::new_merkle_tree(items);
        match tree.root {
            Some(node) => node.data,
            None => Vec::new(),
        }
    }

    /// The byte encoding of the block.
    pub fn serialize(&self) -> (r: Vec<u8>)
        ensures
            r@ == block_bytes(self@),
    {
        let ghost b = self@;
        let mut out = write_i64(self.timestamp);
        put_field(&mut out, self.prev_block_hash.as_slice());
        put_u64(&mut out, self.transactions.len() as u64);
        let ghost head = out@;
        let mut k: usize = 0;
        while k < self.transactions.len()
            invariant
                b == self@,
                0 <= k <= self.transactions@.len(),
                out@ == head + txs_field_bytes(b.transactions.take(k as int)),
            decreases self.transactions@.len() - k,
        {
            let bytes = self.transactions[k].serialize();
            put_field(&mut out, bytes.as_slice());
            proof {
                let s = b.transactions.take(k as int + 1);
                assert(s.drop_last() =~= b.transactions.take(k as int));
                assert(s.last() == b.transactions[k as int]);
            }
            k = k + 1;
        }
        proof {
            assert(b.transactions.take(b.transactions.len() as int) =~= b.transactions);
        }
        let mut w = write_i64(self.nonce);
        out.append(&mut w);
        put_field(&mut out, self.hash.as_slice());
        let mut w = write_i64(self.height);
        out.append(&mut w);
        proof {
            assert(out@ =~= block_bytes(b));
        }
        out
    }
}

} // verus!
