//! The chain: a store of blocks keyed by hash and the tip that names the
//! newest, with the rules a new block must meet and the rollbacks that
//! resolve forks. Persisting the store is left to the caller.

use vstd::prelude::*;
use crate::block::{block_bytes, exhausted, first_valid_nonce, with_nonce, Block, BlockV};
use crate::proof_of_work::pow_valid;
use crate::transaction::{
    is_coinbase_spec, tx_verifies, txs_view, Transaction, TxError, TxV,
};
use crate::util::{compare_slice_u8, copy_bytes};

verus! {

/// How far past the tip's timestamp a new block may be stamped (20 minutes).
pub const NEW_BLOCK_TIMEOUT: i64 = 1200;

/// The largest encoded block the chain accepts (1 MiB).
pub const MAX_BLOCK_SIZE: usize = 1048576;

/// Why the chain refused an operation.
#[derive(Debug, PartialEq, Eq, Structural)]
pub enum ChainError {
    /// The block's height is below the tip's.
    HeightTooSmall,
    /// The block's height equals the tip's: a fork.
    Fork,
    /// The block's height is more than one above the tip's.
    HeightTooBig,
    /// The block is not stamped after the tip.
    TimestampTooEarly,
    /// The block is stamped more than `NEW_BLOCK_TIMEOUT` after the tip.
    TimestampTooLate,
    /// The block does not build on the tip.
    PrevHashMismatch,
    /// The encoded block exceeds `MAX_BLOCK_SIZE`.
    BlockTooLarge,
    /// The tip names no stored block.
    NoTip,
    /// Two stored blocks share a hash.
    DuplicateHash,
    /// No nonce below the bound met the target.
    MiningFailed,
    /// A transaction handed in for mining does not verify.
    InvalidTransaction,
    /// A rollback would leave the tip on a block that is not stored.
    UnknownBlock,
    /// An input refers to a transaction the chain does not hold.
    TxNotFound,
    /// Signing failed.
    Signing(TxError),
    /// The spendable outputs found do not cover the amount.
    InsufficientFunds,
    /// An address that does not decode to a version byte, a hash and a checksum.
    InvalidAddress,
}

/// The blocks and the tip hash.
pub struct BlockChain {
    blocks: Vec<Block>,
    tip: Vec<u8>,
}

/// Mathematical value of a chain.
pub struct ChainV {
    pub blocks: Seq<BlockV>,
    pub tip: Seq<u8>,
}

impl View for BlockChain {
    type V = ChainV;

    closed spec fn view(&self) -> ChainV {
        ChainV { blocks: self.blocks@.map_values(|b: Block| b@), tip: self.tip@ }
    }
}

pub open spec fn has_block(blocks: Seq<BlockV>, h: Seq<u8>) -> bool {
    exists|i: int| 0 <= i < blocks.len() && #[trigger] blocks[i].hash == h
}

/// The stored block with hash `h` (meaningful when there is one).
pub open spec fn block_at(blocks: Seq<BlockV>, h: Seq<u8>) -> BlockV {
    blocks[choose|i: int| 0 <= i < blocks.len() && #[trigger] blocks[i].hash == h]
}

pub open spec fn hashes_unique(blocks: Seq<BlockV>) -> bool {
    forall|i: int, j: int|
        0 <= i < blocks.len() && 0 <= j < blocks.len() && i != j ==> #[trigger] blocks[i].hash
            != #[trigger] blocks[j].hash
}

/// A well-formed chain: hashes are unique and the tip names a stored block.
pub open spec fn chain_wf(c: ChainV) -> bool {
    hashes_unique(c.blocks) && has_block(c.blocks, c.tip)
}

pub open spec fn tip_block(c: ChainV) -> BlockV {
    block_at(c.blocks, c.tip)
}

/// The blocks met walking back from `h` along previous hashes, at most `fuel` of them.
pub open spec fn walk(blocks: Seq<BlockV>, h: Seq<u8>, fuel: nat) -> Seq<BlockV>
    decreases fuel,
{
    if fuel == 0 || !has_block(blocks, h) {
        Seq::empty()
    } else {
        seq![block_at(blocks, h)] + walk(blocks, block_at(blocks, h).prev_block_hash, (fuel - 1) as nat)
    }
}

/// The chain newest to oldest, from the tip back to the genesis block.
pub open spec fn chain_blocks(c: ChainV) -> Seq<BlockV> {
    walk(c.blocks, c.tip, c.blocks.len())
}

/// The transactions of a list of blocks, block after block, each in its order.
pub open spec fn flat_txs(w: Seq<BlockV>) -> Seq<TxV>
    decreases w.len(),
{
    if w.len() == 0 {
        Seq::empty()
    } else {
        flat_txs(w.drop_last()) + w.last().transactions
    }
}

/// The first transaction from index `i` on whose id is `id`.
pub open spec fn find_tx_from(s: Seq<TxV>, id: Seq<u8>, i: int) -> Option<TxV>
    decreases s.len() - i,
{
    if i < 0 || i >= s.len() {
        None
    } else if s[i].id == id {
        Some(s[i])
    } else {
        find_tx_from(s, id, i + 1)
    }
}

/// The newest transaction of the chain with id `id`.
pub open spec fn tx_lookup(c: ChainV, id: Seq<u8>) -> Option<TxV> {
    find_tx_from(flat_txs(chain_blocks(c)), id, 0)
}

/// Every input of `t` refers to a transaction of the chain.
pub open spec fn inputs_found(c: ChainV, t: TxV) -> bool {
    forall|i: int| 0 <= i < t.vin.len() ==> (#[trigger] tx_lookup(c, t.vin[i].txid)) is Some
}

/// The transactions the inputs of `t` refer to, in input order.
pub open spec fn prev_txs_of(c: ChainV, t: TxV) -> Seq<TxV> {
    Seq::new(t.vin.len(), |i: int| tx_lookup(c, t.vin[i].txid).unwrap())
}

/// Whether a transaction is valid against the chain.
pub open spec fn chain_verifies(c: ChainV, t: TxV) -> bool {
    is_coinbase_spec(t) || (inputs_found(c, t) && tx_verifies(t, prev_txs_of(c, t)))
}

/// What `add_block` answers for `b`, in the order the rules are checked.
pub open spec fn add_outcome(c: ChainV, b: BlockV) -> Result<(), ChainError> {
    let t = tip_block(c);
    if has_block(c.blocks, b.hash) {
        Ok(())
    } else if b.height < t.height {
        Err(ChainError::HeightTooSmall)
    } else if b.height == t.height {
        Err(ChainError::Fork)
    } else if b.height != t.height + 1 {
        Err(ChainError::HeightTooBig)
    } else if b.timestamp <= t.timestamp {
        Err(ChainError::TimestampTooEarly)
    } else if b.timestamp > t.timestamp + NEW_BLOCK_TIMEOUT {
        Err(ChainError::TimestampTooLate)
    } else if b.prev_block_hash != c.tip {
        Err(ChainError::PrevHashMismatch)
    } else if block_bytes(b).len() > MAX_BLOCK_SIZE {
        Err(ChainError::BlockTooLarge)
    } else {
        Ok(())
    }
}

/// The chain after `add_block(b)`.
pub open spec fn add_result(c: ChainV, b: BlockV) -> ChainV {
    if add_outcome(c, b) is Ok && !has_block(c.blocks, b.hash) {
        ChainV { blocks: c.blocks.push(b), tip: b.hash }
    } else {
        c
    }
}

/// The hashes of a list of blocks.
pub open spec fn hashes_of(w: Seq<BlockV>) -> Seq<Seq<u8>> {
    w.map_values(|b: BlockV| b.hash)
}

/// The blocks whose hash is not listed in `dead`, in their order.
pub open spec fn keep_blocks(s: Seq<BlockV>, dead: Seq<Seq<u8>>) -> Seq<BlockV>
    decreases s.len(),
{
    if s.len() == 0 {
        s
    } else if dead.contains(s.last().hash) {
        keep_blocks(s.drop_last(), dead)
    } else {
        keep_blocks(s.drop_last(), dead).push(s.last())
    }
}

/// The first position from `i` on whose block is at or below height `h`,
/// or the length of `w` when there is none.
pub open spec fn cut_from(w: Seq<BlockV>, h: i64, i: int) -> int
    decreases w.len() - i,
{
    if i < 0 || i >= w.len() {
        w.len() as int
    } else if w[i].height <= h {
        i
    } else {
        cut_from(w, h, i + 1)
    }
}

/// What rolling back to `expected` at height `h` removes, and the new tip:
/// every block of the chain above `h`; then, at the first block at or below
/// `h`, the tip moves to it, unless it stands at `h` with another hash, in
/// which case it is removed too and the tip moves to its predecessor.
pub open spec fn rollback_plan(c: ChainV, expected: Seq<u8>, h: i64) -> (Seq<Seq<u8>>, Seq<u8>) {
    let w = chain_blocks(c);
    let k = cut_from(w, h, 0);
    if k >= w.len() {
        (Seq::empty(), c.tip)
    } else if w[k].height == h && w[k].hash != expected {
        (hashes_of(w.take(k + 1)), w[k].prev_block_hash)
    } else {
        (hashes_of(w.take(k)), w[k].hash)
    }
}

/// The chain after rolling back to `expected` at height `h`, or `None`
/// where the new tip would name no remaining block.
pub open spec fn rollback_result(c: ChainV, expected: Seq<u8>, h: i64) -> Option<ChainV> {
    let (dead, nt) = rollback_plan(c, expected, h);
    let kept = keep_blocks(c.blocks, dead);
    if has_block(kept, nt) {
        Some(ChainV { blocks: kept, tip: nt })
    } else {
        None
    }
}

/// The chain after removing its blocks at height `h` or above and moving
/// the tip to `prev`, or `None` where `prev` would name no remaining block.
pub open spec fn conflict_result(c: ChainV, h: i64, prev: Seq<u8>) -> Option<ChainV> {
    let kept = keep_blocks(c.blocks, hashes_from_height(chain_blocks(c), h));
    if has_block(kept, prev) {
        Some(ChainV { blocks: kept, tip: prev })
    } else {
        None
    }
}

/// The hashes of the blocks of `w` at height `h` or above, in order.
pub open spec fn hashes_from_height(w: Seq<BlockV>, h: i64) -> Seq<Seq<u8>>
    decreases w.len(),
{
    if w.len() == 0 {
        Seq::empty()
    } else if w.last().height >= h {
        hashes_from_height(w.drop_last(), h).push(w.last().hash)
    } else {
        hashes_from_height(w.drop_last(), h)
    }
}

proof fn lemma_keep_blocks_sub(s: Seq<BlockV>, dead: Seq<Seq<u8>>)
    ensures
        forall|x: BlockV| #[trigger] keep_blocks(s, dead).contains(x) ==> s.contains(x),
        hashes_unique(s) ==> hashes_unique(keep_blocks(s, dead)),
        keep_blocks(s, dead).len() <= s.len(),
    decreases s.len(),
{
    if s.len() > 0 {
        let t = s.drop_last();
        lemma_keep_blocks_sub(t, dead);
        let kt = keep_blocks(t, dead);
        let k = keep_blocks(s, dead);
        if !dead.contains(s.last().hash) {
            assert(k == kt.push(s.last()));
        } else {
            assert(k == kt);
        }
        assert forall|x: BlockV| k.contains(x) implies s.contains(x) by {
            let i = choose|i: int| 0 <= i < k.len() && k[i] == x;
            if i < kt.len() {
                assert(kt[i] == x);
                assert(kt.contains(x));
                let j = choose|j: int| 0 <= j < t.len() && t[j] == x;
                assert(t[j] == s[j]);
                assert(s[j] == x);
            } else {
                assert(s[s.len() - 1] == x);
            }
        }
        if hashes_unique(s) {
            assert(hashes_unique(t)) by {
                assert forall|i: int, j: int|
                    0 <= i < t.len() && 0 <= j < t.len() && i != j implies #[trigger] t[i].hash
                    != #[trigger] t[j].hash by {
                    assert(t[i] == s[i] && t[j] == s[j]);
                }
            }
            if !dead.contains(s.last().hash) {
                let n = kt.len() as int;
                assert forall|i: int, j: int|
                    0 <= i < k.len() && 0 <= j < k.len() && i != j implies #[trigger] k[i].hash
                    != #[trigger] k[j].hash by {
                    if i < n && j < n {
                        assert(k[i] == kt[i] && k[j] == kt[j]);
                    } else if i < n || j < n {
                        let a = if i < n { i } else { j };
                        assert(k[a] == kt[a]);
                        assert(kt.contains(kt[a]));
                        let m = choose|m: int| 0 <= m < t.len() && t[m] == kt[a];
                        assert(s[m] == t[m]);
                        assert(s[s.len() - 1] == s.last());
                        assert(m != s.len() - 1);
                    }
                }
            }
        }
    }
}

proof fn lemma_keep_nothing(s: Seq<BlockV>)
    ensures
        keep_blocks(s, Seq::empty()) == s,
    decreases s.len(),
{
    if s.len() > 0 {
        lemma_keep_nothing(s.drop_last());
        assert(s.drop_last().push(s.last()) =~= s);
    }
}

/// The transactions of `pool` that verify against the chain, in order.
pub open spec fn valid_pool(c: ChainV, pool: Seq<TxV>) -> Seq<TxV>
    decreases pool.len(),
{
    if pool.len() == 0 {
        Seq::empty()
    } else if chain_verifies(c, pool.last()) {
        valid_pool(c, pool.drop_last()).push(pool.last())
    } else {
        valid_pool(c, pool.drop_last())
    }
}

/// The ids of the transactions of `pool` that do not verify, in order.
pub open spec fn rejected_ids(c: ChainV, pool: Seq<TxV>) -> Seq<Seq<u8>>
    decreases pool.len(),
{
    if pool.len() == 0 {
        Seq::empty()
    } else if chain_verifies(c, pool.last()) {
        rejected_ids(c, pool.drop_last())
    } else {
        rejected_ids(c, pool.drop_last()).push(pool.last().id)
    }
}

/// A list of transactions that all verify is kept whole.
pub proof fn lemma_valid_pool_all(c: ChainV, pool: Seq<TxV>)
    requires
        forall|i: int| 0 <= i < pool.len() ==> chain_verifies(c, #[trigger] pool[i]),
    ensures
        valid_pool(c, pool) == pool,
        rejected_ids(c, pool) == Seq::<Seq<u8>>::empty(),
    decreases pool.len(),
{
    if pool.len() > 0 {
        let d = pool.drop_last();
        assert forall|i: int| 0 <= i < d.len() implies chain_verifies(c, #[trigger] d[i]) by {
            assert(d[i] == pool[i]);
        }
        lemma_valid_pool_all(c, d);
        assert(chain_verifies(c, pool[pool.len() - 1]));
        assert(d.push(pool.last()) =~= pool);
    }
}

/// Every transaction kept by `valid_pool` verifies.
pub proof fn lemma_valid_pool_verifies(c: ChainV, pool: Seq<TxV>, k: int)
    requires
        0 <= k < valid_pool(c, pool).len(),
    ensures
        chain_verifies(c, valid_pool(c, pool)[k]),
    decreases pool.len(),
{
    if pool.len() > 0 {
        let rest = valid_pool(c, pool.drop_last());
        if chain_verifies(c, pool.last()) && k == rest.len() {
        } else {
            lemma_valid_pool_verifies(c, pool.drop_last(), k);
        }
    }
}

/// The ways mining on the tip of `c` over the verified transactions `vp`
/// at time `t`, without adding the block, may fail.
pub open spec fn mine2_error(c: ChainV, vp: Seq<TxV>, t: i64, e: ChainError) -> bool {
    ||| e == ChainError::InvalidTransaction && vp.len() == 0
    ||| e == ChainError::HeightTooBig && vp.len() > 0 && tip_block(c).height == i64::MAX
    ||| e == ChainError::MiningFailed && vp.len() > 0 && tip_block(c).height < i64::MAX && exhausted(
        mine_base(c, vp, t),
    )
}

/// The ways mining and adding a block may fail: as `mine2_error`, or the
/// mined block (the first valid nonce) is refused by `add_block` with `e`.
pub open spec fn mine_error(c: ChainV, vp: Seq<TxV>, t: i64, e: ChainError) -> bool {
    ||| mine2_error(c, vp, t, e)
    ||| vp.len() > 0 && tip_block(c).height < i64::MAX && exists|n: i64|
        #[trigger] first_valid_nonce(mine_base(c, vp, t), n) && add_outcome(c, with_nonce(mine_base(c, vp, t), n))
            == Err::<(), ChainError>(e)
}

/// The header fields of a genesis block paying `address` with `payload`,
/// stamped `timestamp`.
pub open spec fn genesis_base(address: Seq<u8>, payload: Seq<u8>, timestamp: i64) -> BlockV {
    BlockV {
        timestamp,
        prev_block_hash: Seq::empty(),
        transactions: seq![crate::transaction::coinbase_spec(address, payload)],
        nonce: 0,
        hash: Seq::empty(),
        height: 0,
    }
}

/// The header fields of a block mined on the tip over `txs` at `timestamp`.
pub open spec fn mine_base(c: ChainV, txs: Seq<TxV>, timestamp: i64) -> BlockV {
    BlockV {
        timestamp,
        prev_block_hash: c.tip,
        transactions: txs,
        nonce: 0,
        hash: Seq::empty(),
        height: (tip_block(c).height + 1) as i64,
    }
}

/// `b` is the block mined on the tip of `c` over `txs`: the first nonce that
/// meets the target, with the digest it gives.
pub open spec fn mined_on_tip(c: ChainV, txs: Seq<TxV>, timestamp: i64, b: BlockV) -> bool {
    &&& tip_block(c).height < i64::MAX
    &&& first_valid_nonce(mine_base(c, txs, timestamp), b.nonce)
    &&& b == with_nonce(mine_base(c, txs, timestamp), b.nonce)
    &&& pow_valid(b)
}

/// A block that is appended sits one above the old tip and builds on it.
pub proof fn lemma_accepted_block_extends_tip(c: ChainV, b: BlockV)
    requires
        chain_wf(c),
        add_outcome(c, b) is Ok,
        !has_block(c.blocks, b.hash),
    ensures
        b.height == tip_block(c).height + 1,
        b.prev_block_hash == c.tip,
        add_result(c, b).tip == b.hash,
        tip_block(add_result(c, b)) == b,
        chain_wf(add_result(c, b)),
{
    let c2 = add_result(c, b);
    lemma_push_keeps_wf(c, b);
    let n = c.blocks.len() as int;
    assert(c2.blocks[n].hash == b.hash);
    lemma_block_at_index(c2.blocks, n);
}

/// Adding a block a second time changes nothing and succeeds.
pub proof fn lemma_add_block_idempotent(c: ChainV, b: BlockV)
    requires
        chain_wf(c),
        add_outcome(c, b) is Ok,
    ensures
        add_outcome(add_result(c, b), b) is Ok,
        add_result(add_result(c, b), b) == add_result(c, b),
{
    let c2 = add_result(c, b);
    if !has_block(c.blocks, b.hash) {
        let n = c.blocks.len() as int;
        assert(c2.blocks[n].hash == b.hash);
        assert(has_block(c2.blocks, b.hash));
    }
}

impl BlockChain {
    /// The index of the stored block with hash `h`.
    fn find_index(&self, h: &[u8]) -> (r: Option<usize>)
        ensures
            r is Some ==> r.unwrap() < self@.blocks.len() && self@.blocks[r.unwrap() as int].hash == h@,
            r is None ==> !has_block(self@.blocks, h@),
    {
        let mut i: usize = 0;
        while i < self.blocks.len()
            invariant
                0 <= i <= self.blocks@.len(),
                forall|j: int| 0 <= j < i ==> #[trigger] self@.blocks[j].hash != h@,
            decreases self.blocks@.len() - i,
        {
            if compare_slice_u8(self.blocks[i].hash.as_slice(), h) {
                return Some(i);
            }
            i = i + 1;
        }
        None
    }

    /// Opens a chain over stored blocks and a stored tip. Fails when two
    /// blocks share a hash or when the tip names no block.
    pub fn new_blockchain(blocks: Vec<Block>, tip: Vec<u8>) -> (r: Result<BlockChain, ChainError>)
        ensures
            ({
                let bv = blocks@.map_values(|b: Block| b@);
                &&& (r == Err::<BlockChain, ChainError>(ChainError::DuplicateHash)) == !hashes_unique(bv)
                &&& (r == Err::<BlockChain, ChainError>(ChainError::NoTip)) == (hashes_unique(bv) && !has_block(bv, tip@))
                &&& r is Ok ==> r.unwrap()@ == (ChainV { blocks: bv, tip: tip@ }) && chain_wf(r.unwrap()@)
            }),
    {
        let ghost bv = blocks@.map_values(|b: Block| b@);
        let mut i: usize = 0;
        while i < blocks.len()
            invariant
                bv == blocks@.map_values(|b: Block| b@),
                0 <= i <= blocks@.len(),
                forall|a: int, b: int|
                    0 <= a < i && 0 <= b < blocks@.len() && a != b ==> #[trigger] bv[a].hash
                        != #[trigger] bv[b].hash,
            decreases blocks@.len() - i,
        {
            let mut j: usize = 0;
            while j < blocks.len()
                invariant
                    bv == blocks@.map_values(|b: Block| b@),
                    0 <= i < blocks@.len(),
                    0 <= j <= blocks@.len(),
                    forall|a: int, b: int|
                        0 <= a < i && 0 <= b < blocks@.len() && a != b ==> #[trigger] bv[a].hash
                            != #[trigger] bv[b].hash,
                    forall|b: int| 0 <= b < j && b != i ==> bv[i as int].hash != #[trigger] bv[b].hash,
                decreases blocks@.len() - j,
            {
                if j != i && compare_slice_u8(blocks[i].hash.as_slice(), blocks[j].hash.as_slice()) {
                    proof {
                        assert(bv[i as int].hash == bv[j as int].hash);
                    }
                    return Err(ChainError::DuplicateHash);
                }
                j = j + 1;
            }
            i = i + 1;
        }
        proof {
            assert forall|a: int, b: int|
                0 <= a < bv.len() && 0 <= b < bv.len() && a != b implies #[trigger] bv[a].hash
                != #[trigger] bv[b].hash by {
                if a < b {
                    assert(bv[b].hash != bv[a].hash);
                }
            }
        }
        let c = BlockChain { blocks, tip };
        match c.find_index(c.tip.as_slice()) {
            Some(_) => Ok(c),
            None => Err(ChainError::NoTip),
        }
    }

    /// Builds a chain whose only block is a genesis block stamped with the
    /// current time (see `create_blockchain_at`).
    pub fn create_blockchain(address: Vec<u8>, data: Vec<u8>) -> (r: Result<BlockChain, ChainError>)
        ensures
            r is Ok ==> {
                let g = r.unwrap()@.blocks[0];
                let payload = g.transactions[0].vin[0].pub_key;
                let base = genesis_base(address@, payload, g.timestamp);
                &&& r.unwrap()@.blocks.len() == 1
                &&& r.unwrap()@.tip == g.hash
                &&& first_valid_nonce(base, g.nonce)
                &&& g == with_nonce(base, g.nonce)
                &&& chain_wf(r.unwrap()@)
                &&& data@.len() > 0 ==> payload == data@
                &&& data@.len() == 0 ==> payload.len() == 64
            },
            (r is Err) == (r == Err::<BlockChain, ChainError>(ChainError::MiningFailed)),
            r is Err ==> exists|p: Seq<u8>, t: i64| exhausted(#[trigger] genesis_base(address@, p, t)),
    {
        let timestamp = crate::util::get_time_sec();
        Self::create_blockchain_at(address, data, timestamp)
    }

    /// Builds a chain whose only block is a genesis block holding one
    /// coinbase that pays the subsidy to `address`, carrying `data` (or, when
    /// it is empty, 32 random bytes in hexadecimal) as its payload.
    pub fn create_blockchain_at(address: Vec<u8>, data: Vec<u8>, timestamp: i64) -> (r: Result<BlockChain, ChainError>)
        ensures
            r is Ok ==> {
                let g = r.unwrap()@.blocks[0];
                let payload = g.transactions[0].vin[0].pub_key;
                let base = genesis_base(address@, payload, timestamp);
                &&& r.unwrap()@.blocks.len() == 1
                &&& r.unwrap()@.tip == g.hash
                &&& first_valid_nonce(base, g.nonce)
                &&& g == with_nonce(base, g.nonce)
                &&& chain_wf(r.unwrap()@)
                &&& data@.len() > 0 ==> payload == data@
                &&& data@.len() == 0 ==> payload.len() == 64
            },
            (r is Err) == (r == Err::<BlockChain, ChainError>(ChainError::MiningFailed)),
            r is Err ==> exists|p: Seq<u8>| exhausted(#[trigger] genesis_base(address@, p, timestamp)),
    {
        let cbtx = Transaction::new_coinbase_tx(address, data);
        let ghost payload = cbtx@.vin[0].pub_key;
        match Block::new_genesis_block_at(cbtx, timestamp) {
            Some(genesis) => {
                let tip = copy_bytes(genesis.hash.as_slice());
                let c = BlockChain { blocks: vec![genesis], tip };
                proof {
                    assert(c@.blocks[0] == genesis@);
                    lemma_block_at_index(c@.blocks, 0);
                    assert(genesis@.transactions[0] == cbtx@);
                    assert(genesis_base(address@, payload, timestamp).transactions =~= seq![cbtx@]);
                }
                Ok(c)
            },
            None => {
                proof {
                    assert(genesis_base(address@, payload, timestamp).transactions =~= seq![cbtx@]);
                    assert(exhausted(genesis_base(address@, payload, timestamp)));
                }
                Err(ChainError::MiningFailed)
            },
        }
    }

    /// The tip hash.
    pub fn get_tip(&self) -> (r: Vec<u8>)
        ensures
            r@ == self@.tip,
    {
        copy_bytes(self.tip.as_slice())
    }

    /// The stored block with hash `block_hash`, if any.
    pub fn get_block(&self, block_hash: &[u8]) -> (r: Option<Block>)
        requires
            hashes_unique(self@.blocks),
        ensures
            r is Some == has_block(self@.blocks, block_hash@),
            r is Some ==> r.unwrap()@ == block_at(self@.blocks, block_hash@),
    {
        match self.find_index(block_hash) {
            Some(i) => {
                proof {
                    lemma_block_at_index(self@.blocks, i as int);
                }
                Some(self.blocks[i].clone())
            },
            None => None,
        }
    }

    /// The index of the tip block.
    fn tip_index(&self) -> (r: usize)
        requires
            chain_wf(self@),
        ensures
            r < self@.blocks.len(),
            self@.blocks[r as int] == tip_block(self@),
    {
        match self.find_index(self.tip.as_slice()) {
            Some(i) => {
                proof {
                    lemma_block_at_index(self@.blocks, i as int);
                }
                i
            },
            None => 0,
        }
    }

    /// The height of the tip block.
    pub fn get_best_height(&self) -> (r: i64)
        requires
            chain_wf(self@),
        ensures
            r == tip_block(self@).height,
    {
        let i = self.tip_index();
        self.blocks[i].height
    }

    /// Every stored block, in store order.
    pub fn all_blocks(&self) -> (r: Vec<Block>)
        ensures
            r@.map_values(|b: Block| b@) == self@.blocks,
    {
        let mut r: Vec<Block> = Vec::new();
        let mut k: usize = 0;
        while k < self.blocks.len()
            invariant
                0 <= k <= self.blocks@.len(),
                r@.len() == k,
                forall|j: int| 0 <= j < k ==> #[trigger] r@[j]@ == self@.blocks[j],
            decreases self.blocks@.len() - k,
        {
            r.push(self.blocks[k].clone());
            k = k + 1;
        }
        proof {
            assert(r@.map_values(|b: Block| b@) =~= self@.blocks);
        }
        r
    }

    /// Appends `block` when it extends the tip: a block already stored is
    /// accepted as it is; otherwise its height must be one above the tip's,
    /// its timestamp after the tip's and at most `NEW_BLOCK_TIMEOUT` later,
    /// its previous hash the tip, and its encoding at most `MAX_BLOCK_SIZE`.
    /// An accepted new block becomes the tip.
    pub fn add_block(&mut self, block: Block) -> (r: Result<(), ChainError>)
        requires
            chain_wf(old(self)@),
        ensures
            r == add_outcome(old(self)@, block@),
            final(self)@ == add_result(old(self)@, block@),
            chain_wf(final(self)@),
    {
        if self.find_index(block.hash.as_slice()).is_some() {
            return Ok(());
        }
        let ti = self.tip_index();
        let last_height = self.blocks[ti].height;
        let last_time = self.blocks[ti].timestamp;
        if block.height < last_height {
            return Err(ChainError::HeightTooSmall);
        }
        if block.height == last_height {
            return Err(ChainError::Fork);
        }
        if block.height - 1 != last_height {
            return Err(ChainError::HeightTooBig);
        }
        if block.timestamp <= last_time {
            return Err(ChainError::TimestampTooEarly);
        }
        if block.timestamp as i128 > last_time as i128 + NEW_BLOCK_TIMEOUT as i128 {
            return Err(ChainError::TimestampTooLate);
        }
        if !compare_slice_u8(self.tip.as_slice(), block.prev_block_hash.as_slice()) {
            return Err(ChainError::PrevHashMismatch);
        }
        let data = block.serialize();
        if data.len() > MAX_BLOCK_SIZE {
            return Err(ChainError::BlockTooLarge);
        }
        let ghost c = self@;
        let tip = copy_bytes(block.hash.as_slice());
        self.blocks.push(block);
        self.tip = tip;
        proof {
            assert(self@.blocks =~= c.blocks.push(block@));
            lemma_push_keeps_wf(c, block@);
        }
        Ok(())
    }

    /// Every transaction of the chain, newest block first, each block's in order.
    pub(crate) fn all_txs(&self) -> (r: Vec<Transaction>)
        requires
            hashes_unique(self@.blocks),
        ensures
            txs_view(r@) == flat_txs(chain_blocks(self@)),
    {
        let w = self.iter();
        let ghost wv = w@.map_values(|b: Block| b@);
        let mut out: Vec<Transaction> = Vec::new();
        let mut k: usize = 0;
        while k < w.len()
            invariant
                wv == w@.map_values(|b: Block| b@),
                0 <= k <= w@.len(),
                txs_view(out@) == flat_txs(wv.take(k as int)),
            decreases w@.len() - k,
        {
            let ghost start = txs_view(out@);
            let txs = &w[k].transactions;
            let mut j: usize = 0;
            while j < txs.len()
                invariant
                    0 <= j <= txs@.len(),
                    txs_view(out@) == start + txs_view(txs@).take(j as int),
                decreases txs@.len() - j,
            {
                let ghost before = out@;
                let t = txs[j].clone();
                out.push(t);
                proof {
                    assert(out@ == before.push(t));
                    assert(txs_view(out@) =~= txs_view(before).push(t@));
                    assert(txs_view(txs@).take(j as int + 1) =~= txs_view(txs@).take(j as int).push(txs@[j as int]@));
                }
                j = j + 1;
                proof {
                    assert(txs_view(out@) =~= start + txs_view(txs@).take(j as int));
                }
            }
            proof {
                let s = wv.take(k as int + 1);
                assert(s.drop_last() =~= wv.take(k as int));
                assert(s.last() == w@[k as int]@);
                assert(txs_view(txs@).take(j as int) =~= txs_view(txs@));
            }
            k = k + 1;
        }
        proof {
            assert(wv.take(k as int) =~= wv);
        }
        out
    }

    /// The hashes of the chain's blocks, newest to oldest.
    pub fn get_block_hashes(&self) -> (r: Vec<Vec<u8>>)
        requires
            hashes_unique(self@.blocks),
        ensures
            r@.len() == chain_blocks(self@).len(),
            forall|i: int| 0 <= i < r@.len() ==> #[trigger] r@[i]@ == chain_blocks(self@)[i].hash,
    {
        let w = self.iter();
        let mut out: Vec<Vec<u8>> = Vec::new();
        let mut k: usize = 0;
        while k < w.len()
            invariant
                w@.map_values(|b: Block| b@) == chain_blocks(self@),
                0 <= k <= w@.len(),
                out@.len() == k,
                forall|i: int| 0 <= i < k ==> #[trigger] out@[i]@ == chain_blocks(self@)[i].hash,
            decreases w@.len() - k,
        {
            out.push(copy_bytes(w[k].hash.as_slice()));
            k = k + 1;
        }
        out
    }

    /// The newest transaction of the chain whose id is `id`: a linear scan,
    /// newest block first.
    pub fn find_transaction(&self, id: &[u8]) -> (r: Option<Transaction>)
        requires
            hashes_unique(self@.blocks),
        ensures
            r is Some == tx_lookup(self@, id@) is Some,
            r is Some ==> r.unwrap()@ == tx_lookup(self@, id@).unwrap(),
    {
        let all = self.all_txs();
        let ghost s = txs_view(all@);
        let mut i: usize = 0;
        while i < all.len()
            invariant
                s == txs_view(all@),
                s == flat_txs(chain_blocks(self@)),
                0 <= i <= all@.len(),
                find_tx_from(s, id@, 0) == find_tx_from(s, id@, i as int),
            decreases all@.len() - i,
        {
            if compare_slice_u8(all[i].id.as_slice(), id) {
                return Some(all[i].clone());
            }
            i = i + 1;
        }
        None
    }

    /// The transactions the inputs of `tx` refer to, or `None` where one is missing.
    fn prev_txs(&self, tx: &Transaction) -> (r: Option<Vec<Transaction>>)
        requires
            hashes_unique(self@.blocks),
        ensures
            r is Some == inputs_found(self@, tx@),
            r is Some ==> txs_view(r.unwrap()@) == prev_txs_of(self@, tx@),
    {
        let mut prevs: Vec<Transaction> = Vec::new();
        let mut k: usize = 0;
        while k < tx.vin.len()
            invariant
                hashes_unique(self@.blocks),
                0 <= k <= tx.vin@.len(),
                prevs@.len() == k,
                forall|j: int| 0 <= j < k ==> (#[trigger] tx_lookup(self@, tx@.vin[j].txid)) is Some,
                forall|j: int| 0 <= j < k ==> #[trigger] prevs@[j]@ == tx_lookup(self@, tx@.vin[j].txid).unwrap(),
            decreases tx.vin@.len() - k,
        {
            match self.find_transaction(tx.vin[k].txid.as_slice()) {
                Some(p) => {
                    prevs.push(p);
                },
                None => {
                    proof {
                        assert(tx_lookup(self@, tx@.vin[k as int].txid) is None);
                    }
                    return None;
                },
            }
            k = k + 1;
        }
        proof {
            assert(txs_view(prevs@) =~= prev_txs_of(self@, tx@));
        }
        Some(prevs)
    }

    /// Signs `tx` against the transactions its inputs refer to, found in the
    /// chain; fails when one is missing or when signing fails.
    pub fn sign_transaction(&self, tx: &mut Transaction, secret_key: &[u8]) -> (r: Result<(), ChainError>)
        requires
            hashes_unique(self@.blocks),
        ensures
            !inputs_found(self@, old(tx)@) ==> r == Err::<(), ChainError>(ChainError::TxNotFound) && final(tx)@ == old(tx)@,
            inputs_found(self@, old(tx)@) ==> {
                let p = prev_txs_of(self@, old(tx)@);
                &&& r == match crate::transaction::sign_outcome(old(tx)@, secret_key@, p) {
                    Ok(()) => Ok::<(), ChainError>(()),
                    Err(e) => Err(ChainError::Signing(e)),
                }
                &&& final(tx)@ == crate::transaction::sign_result(old(tx)@, secret_key@, p)
            },
            r is Ok && (forall|i: int|
                0 <= i < old(tx)@.vin.len() ==> #[trigger] old(tx)@.vin[i].pub_key
                    == crate::util::public_key_of(secret_key@)) ==> chain_verifies(self@, final(tx)@),
    {
        let ghost t0 = tx@;
        match self.prev_txs(tx) {
            Some(prevs) => match tx.sign(secret_key, &prevs) {
                Ok(()) => {
                    proof {
                        let t1 = tx@;
                        assert(t1.vin.len() == t0.vin.len());
                        assert forall|i: int| 0 <= i < t1.vin.len() implies #[trigger] t1.vin[i].txid
                            == t0.vin[i].txid by {
                            if !is_coinbase_spec(t0) {
                                assert(t1.vin[i].txid == t0.vin[i].txid);
                            }
                        }
                        assert(prev_txs_of(self@, t1) =~= prev_txs_of(self@, t0));
                        assert(inputs_found(self@, t1));
                    }
                    Ok(())
                },
                Err(e) => Err(ChainError::Signing(e)),
            },
            None => Err(ChainError::TxNotFound),
        }
    }

    /// Whether `tx` is valid against the chain: a coinbase always is; any
    /// other needs every referenced transaction found and every input verified.
    pub fn verify_transaction(&self, tx: &Transaction) -> (r: bool)
        requires
            hashes_unique(self@.blocks),
        ensures
            r == chain_verifies(self@, tx@),
    {
        if tx.is_coinbase() {
            return true;
        }
        match self.prev_txs(tx) {
            Some(prevs) => tx.verify(&prevs),
            None => false,
        }
    }

    /// The transactions of `pool` that verify against the chain, in order,
    /// and the ids of those that do not, in order.
    pub fn valid_transactions(&self, pool: &Vec<Transaction>) -> (r: (Vec<Transaction>, Vec<Vec<u8>>))
        requires
            hashes_unique(self@.blocks),
        ensures
            txs_view(r.0@) == valid_pool(self@, txs_view(pool@)),
            r.1@.map_values(|d: Vec<u8>| d@) == rejected_ids(self@, txs_view(pool@)),
    {
        let ghost pv = txs_view(pool@);
        let mut valid: Vec<Transaction> = Vec::new();
        let mut rejected: Vec<Vec<u8>> = Vec::new();
        let mut i: usize = 0;
        while i < pool.len()
            invariant
                hashes_unique(self@.blocks),
                pv == txs_view(pool@),
                0 <= i <= pool@.len(),
                txs_view(valid@) == valid_pool(self@, pv.take(i as int)),
                rejected@.map_values(|d: Vec<u8>| d@) == rejected_ids(self@, pv.take(i as int)),
            decreases pool@.len() - i,
        {
            proof {
                let s = pv.take(i as int + 1);
                assert(s.drop_last() =~= pv.take(i as int));
                assert(s.last() == pool@[i as int]@);
            }
            if self.verify_transaction(&pool[i]) {
                let ghost before = valid@;
                let t = pool[i].clone();
                valid.push(t);
                proof {
                    assert(txs_view(valid@) =~= txs_view(before).push(t@));
                }
            } else {
                let ghost before = rejected@;
                let id = copy_bytes(pool[i].id.as_slice());
                rejected.push(id);
                proof {
                    assert(rejected@.map_values(|d: Vec<u8>| d@) =~= before.map_values(|d: Vec<u8>| d@).push(
                        pool@[i as int]@.id,
                    ));
                }
            }
            i = i + 1;
        }
        proof {
            assert(pv.take(pv.len() as int) =~= pv);
        }
        (valid, rejected)
    }

    /// Mines a block over `transactions` on top of the tip, stamped with the
    /// current time, without adding it (see `mine_block2_at`).
    pub fn mine_block2(&self, transactions: &Vec<Transaction>) -> (r: Result<(Block, Vec<Vec<u8>>), ChainError>)
        requires
            chain_wf(self@),
        ensures
            (r == Err::<(Block, Vec<Vec<u8>>), ChainError>(ChainError::InvalidTransaction)) == (valid_pool(self@, txs_view(transactions@)).len() == 0),
            r is Ok ==> mined_on_tip(self@, valid_pool(self@, txs_view(transactions@)), r.unwrap().0@.timestamp, r.unwrap().0@)
                && r.unwrap().1@.map_values(|d: Vec<u8>| d@) == rejected_ids(self@, txs_view(transactions@)),
            r is Err ==> exists|t: i64| #[trigger] mine2_error(self@, valid_pool(self@, txs_view(transactions@)), t, r->Err_0),
    {
        let timestamp = crate::util::get_time_sec();
        self.mine_block2_at(transactions, timestamp)
    }

    /// Mines a block over `transactions` on top of the tip, stamped with the
    /// current time, and adds it (see `mine_block_at`).
    pub fn mine_block(&mut self, transactions: &Vec<Transaction>) -> (r: Result<(Block, Vec<Vec<u8>>), ChainError>)
        requires
            chain_wf(old(self)@),
        ensures
            chain_wf(final(self)@),
            (r == Err::<(Block, Vec<Vec<u8>>), ChainError>(ChainError::InvalidTransaction)) == (valid_pool(old(self)@, txs_view(transactions@)).len() == 0),
            r is Ok ==> mined_on_tip(old(self)@, valid_pool(old(self)@, txs_view(transactions@)), r.unwrap().0@.timestamp, r.unwrap().0@)
                && r.unwrap().1@.map_values(|d: Vec<u8>| d@) == rejected_ids(old(self)@, txs_view(transactions@))
                && add_outcome(old(self)@, r.unwrap().0@) is Ok
                && final(self)@ == add_result(old(self)@, r.unwrap().0@),
            r is Err ==> final(self)@ == old(self)@,
            r is Err ==> exists|t: i64| #[trigger] mine_error(old(self)@, valid_pool(old(self)@, txs_view(transactions@)), t, r->Err_0),
    {
        let timestamp = crate::util::get_time_sec();
        self.mine_block_at(transactions, timestamp)
    }

    /// Mines a block on top of the tip, one above its height, without adding
    /// it. The transactions that do not verify against the chain are left
    /// out and their ids returned beside the block; the block holds the
    /// others, in order. Fails only as `mine2_error` says: no transaction
    /// verifies, the tip's height is the largest, or no nonce meets the target.
    pub fn mine_block2_at(&self, transactions: &Vec<Transaction>, timestamp: i64) -> (r: Result<(Block, Vec<Vec<u8>>), ChainError>)
        requires
            chain_wf(self@),
        ensures
            (r == Err::<(Block, Vec<Vec<u8>>), ChainError>(ChainError::InvalidTransaction)) == (valid_pool(self@, txs_view(transactions@)).len() == 0),
            r is Ok ==> mined_on_tip(self@, valid_pool(self@, txs_view(transactions@)), timestamp, r.unwrap().0@)
                && r.unwrap().1@.map_values(|d: Vec<u8>| d@) == rejected_ids(self@, txs_view(transactions@)),
            r is Err ==> mine2_error(self@, valid_pool(self@, txs_view(transactions@)), timestamp, r->Err_0),
    {
        let ghost c = self@;
        let (txs, rejected) = self.valid_transactions(transactions);
        proof {
            assert(txs_view(txs@).len() == txs@.len());
        }
        if txs.len() == 0 {
            return Err(ChainError::InvalidTransaction);
        }
        let last_height = self.get_best_height();
        if last_height == i64::MAX {
            return Err(ChainError::HeightTooBig);
        }
        let tip = self.get_tip();
        let ghost base = mine_base(c, txs_view(txs@), timestamp);
        match Block::new_at(txs, tip, last_height + 1, timestamp) {
            Some(b) => Ok((b, rejected)),
            None => {
                proof {
                    assert(base == BlockV {
                        timestamp,
                        prev_block_hash: c.tip,
                        transactions: base.transactions,
                        nonce: 0,
                        hash: Seq::empty(),
                        height: (last_height + 1) as i64,
                    });
                    assert(exhausted(base));
                }
                Err(ChainError::MiningFailed)
            },
        }
    }

    /// Mines a block on top of the tip as `mine_block2_at` does and adds it.
    /// Fails only as `mine_error` says, leaving the chain unchanged.
    pub fn mine_block_at(&mut self, transactions: &Vec<Transaction>, timestamp: i64) -> (r: Result<(Block, Vec<Vec<u8>>), ChainError>)
        requires
            chain_wf(old(self)@),
        ensures
            chain_wf(final(self)@),
            (r == Err::<(Block, Vec<Vec<u8>>), ChainError>(ChainError::InvalidTransaction)) == (valid_pool(old(self)@, txs_view(transactions@)).len() == 0),
            r is Ok ==> mined_on_tip(old(self)@, valid_pool(old(self)@, txs_view(transactions@)), timestamp, r.unwrap().0@)
                && r.unwrap().1@.map_values(|d: Vec<u8>| d@) == rejected_ids(old(self)@, txs_view(transactions@))
                && add_outcome(old(self)@, r.unwrap().0@) is Ok
                && final(self)@ == add_result(old(self)@, r.unwrap().0@),
            r is Err ==> final(self)@ == old(self)@,
            r is Err ==> mine_error(old(self)@, valid_pool(old(self)@, txs_view(transactions@)), timestamp, r->Err_0),
    {
        let ghost c = self@;
        let ghost vp = valid_pool(self@, txs_view(transactions@));
        match self.mine_block2_at(transactions, timestamp) {
            Ok((b, rejected)) => {
                let copy = b.clone();
                match self.add_block(copy) {
                    Ok(()) => Ok((b, rejected)),
                    Err(e) => {
                        proof {
                            let base = mine_base(c, vp, timestamp);
                            assert(first_valid_nonce(base, b@.nonce));
                            assert(with_nonce(base, b@.nonce) == b@);
                            assert(add_outcome(c, with_nonce(base, b@.nonce)) == Err::<(), ChainError>(e));
                            assert(e != ChainError::InvalidTransaction);
                        }
                        Err(e)
                    },
                }
            },
            Err(e) => Err(e),
        }
    }

    /// Removes the blocks whose hash is listed in `dead`, then moves the tip
    /// to `new_tip`; refuses, changing nothing, when `new_tip` would name no
    /// remaining block.
    fn remove_and_retip(&mut self, dead: &Vec<Vec<u8>>, new_tip: Vec<u8>) -> (r: bool)
        requires
            chain_wf(old(self)@),
        ensures
            ({
                let kept = keep_blocks(old(self)@.blocks, dead@.map_values(|d: Vec<u8>| d@));
                &&& r == has_block(kept, new_tip@)
                &&& r ==> final(self)@ == (ChainV { blocks: kept, tip: new_tip@ })
                &&& !r ==> final(self)@ == old(self)@
                &&& chain_wf(final(self)@)
            }),
    {
        let ghost dv = dead@.map_values(|d: Vec<u8>| d@);
        let ghost bv = self@.blocks;
        let mut kept: Vec<Block> = Vec::new();
        let mut i: usize = 0;
        while i < self.blocks.len()
            invariant
                dv == dead@.map_values(|d: Vec<u8>| d@),
                bv == self@.blocks,
                0 <= i <= self.blocks@.len(),
                kept@.map_values(|b: Block| b@) == keep_blocks(bv.take(i as int), dv),
            decreases self.blocks@.len() - i,
        {
            let b = &self.blocks[i];
            proof {
                let s = bv.take(i as int + 1);
                assert(s.drop_last() =~= bv.take(i as int));
                assert(s.last() == b@);
            }
            let mut listed = false;
            let mut j: usize = 0;
            while j < dead.len()
                invariant
                    dv == dead@.map_values(|d: Vec<u8>| d@),
                    0 <= j <= dead@.len(),
                    listed == exists|m: int| 0 <= m < j && #[trigger] dv[m] == b@.hash,
                decreases dead@.len() - j,
            {
                if compare_slice_u8(dead[j].as_slice(), b.hash.as_slice()) {
                    proof {
                        assert(dv[j as int] == b@.hash);
                    }
                    listed = true;
                }
                j = j + 1;
            }
            proof {
                if listed {
                    let m = choose|m: int| 0 <= m < j && #[trigger] dv[m] == b@.hash;
                    assert(dv.contains(b@.hash));
                } else {
                    assert(!dv.contains(b@.hash));
                }
            }
            if !listed {
                let ghost before = kept@;
                kept.push(b.clone());
                proof {
                    assert(kept@.map_values(|b: Block| b@) =~= before.map_values(|b: Block| b@).push(b@));
                }
            }
            i = i + 1;
        }
        proof {
            assert(bv.take(bv.len() as int) =~= bv);
            lemma_keep_blocks_sub(bv, dv);
        }
        let next = BlockChain { blocks: kept, tip: new_tip };
        match next.find_index(next.tip.as_slice()) {
            Some(_) => {
                *self = next;
                true
            },
            None => false,
        }
    }

    /// Rolls the chain back to `block_hash` at `height`: removes every block
    /// of the chain above `height`; at the first block at or below it, the
    /// tip moves there, unless that block stands at `height` with another
    /// hash, in which case it is removed too and the tip moves to its
    /// predecessor. Returns the removed hashes, newest first; refuses,
    /// changing nothing, when the new tip would name no stored block.
    pub fn delete_blocks(&mut self, block_hash: &[u8], height: i64) -> (r: Result<Vec<Vec<u8>>, ChainError>)
        requires
            chain_wf(old(self)@),
        ensures
            chain_wf(final(self)@),
            r is Ok == rollback_result(old(self)@, block_hash@, height) is Some,
            r is Ok ==> final(self)@ == rollback_result(old(self)@, block_hash@, height).unwrap(),
            ({
                let (dead, nt) = rollback_plan(old(self)@, block_hash@, height);
                let kept = keep_blocks(old(self)@.blocks, dead);
                &&& r is Ok == has_block(kept, nt)
                &&& r is Ok ==> r.unwrap()@.map_values(|d: Vec<u8>| d@) == dead
                    && final(self)@ == (ChainV { blocks: kept, tip: nt })
                &&& r is Err ==> r == Err::<Vec<Vec<u8>>, ChainError>(ChainError::UnknownBlock)
                    && final(self)@ == old(self)@
            }),
    {
        let w = self.iter();
        let ghost wv = w@.map_values(|b: Block| b@);
        let mut dead: Vec<Vec<u8>> = Vec::new();
        let mut k: usize = 0;
        while k < w.len() && w[k].height > height
            invariant
                wv == w@.map_values(|b: Block| b@),
                wv == chain_blocks(self@),
                0 <= k <= w@.len(),
                cut_from(wv, height, 0) == cut_from(wv, height, k as int),
                dead@.map_values(|d: Vec<u8>| d@) == hashes_of(wv.take(k as int)),
            decreases w@.len() - k,
        {
            let ghost before = dead@;
            let hk = copy_bytes(w[k].hash.as_slice());
            dead.push(hk);
            proof {
                assert(wv[k as int] == w@[k as int]@);
                assert(dead@.map_values(|d: Vec<u8>| d@) =~= before.map_values(|d: Vec<u8>| d@).push(hk@));
                assert(hashes_of(wv.take(k as int + 1)) =~= hashes_of(wv.take(k as int)).push(wv[k as int].hash));
            }
            k = k + 1;
        }
        let new_tip = if k >= w.len() {
            self.get_tip()
        } else if w[k].height == height && !compare_slice_u8(w[k].hash.as_slice(), block_hash) {
            let ghost before = dead@;
            let hk = copy_bytes(w[k].hash.as_slice());
            dead.push(hk);
            proof {
                assert(wv[k as int] == w@[k as int]@);
                assert(dead@.map_values(|d: Vec<u8>| d@) =~= before.map_values(|d: Vec<u8>| d@).push(hk@));
                assert(hashes_of(wv.take(k as int + 1)) =~= hashes_of(wv.take(k as int)).push(wv[k as int].hash));
            }
            copy_bytes(w[k].prev_block_hash.as_slice())
        } else {
            copy_bytes(w[k].hash.as_slice())
        };
        if k >= w.len() {
            proof {
                lemma_keep_nothing(self@.blocks);
            }
            let none: Vec<Vec<u8>> = Vec::new();
            proof {
                assert(none@.map_values(|d: Vec<u8>| d@) =~= Seq::<Seq<u8>>::empty());
            }
            if self.remove_and_retip(&none, new_tip) {
                return Ok(none);
            } else {
                return Err(ChainError::UnknownBlock);
            }
        }
        if self.remove_and_retip(&dead, new_tip) {
            Ok(dead)
        } else {
            Err(ChainError::UnknownBlock)
        }
    }

    /// Removes every block of the chain at `height` or above and moves the
    /// tip to `prev_hash`. Returns the removed hashes, newest first; refuses,
    /// changing nothing, when `prev_hash` would name no stored block.
    pub fn delete_conflict(&mut self, height: i64, prev_hash: Vec<u8>) -> (r: Result<Vec<Vec<u8>>, ChainError>)
        requires
            chain_wf(old(self)@),
        ensures
            chain_wf(final(self)@),
            r is Ok == conflict_result(old(self)@, height, prev_hash@) is Some,
            r is Ok ==> final(self)@ == conflict_result(old(self)@, height, prev_hash@).unwrap(),
            ({
                let dead = hashes_from_height(chain_blocks(old(self)@), height);
                let kept = keep_blocks(old(self)@.blocks, dead);
                &&& r is Ok == has_block(kept, prev_hash@)
                &&& r is Ok ==> r.unwrap()@.map_values(|d: Vec<u8>| d@) == dead
                    && final(self)@ == (ChainV { blocks: kept, tip: prev_hash@ })
                &&& r is Err ==> r == Err::<Vec<Vec<u8>>, ChainError>(ChainError::UnknownBlock)
                    && final(self)@ == old(self)@
            }),
    {
        let w = self.iter();
        let ghost wv = w@.map_values(|b: Block| b@);
        let mut dead: Vec<Vec<u8>> = Vec::new();
        let mut k: usize = 0;
        while k < w.len()
            invariant
                wv == w@.map_values(|b: Block| b@),
                wv == chain_blocks(self@),
                0 <= k <= w@.len(),
                dead@.map_values(|d: Vec<u8>| d@) == hashes_from_height(wv.take(k as int), height),
            decreases w@.len() - k,
        {
            proof {
                let s = wv.take(k as int + 1);
                assert(s.drop_last() =~= wv.take(k as int));
                assert(s.last() == w@[k as int]@);
            }
            if w[k].height >= height {
                let ghost before = dead@;
                dead.push(copy_bytes(w[k].hash.as_slice()));
                proof {
                    assert(dead@.map_values(|d: Vec<u8>| d@) =~= before.map_values(|d: Vec<u8>| d@).push(w@[k as int]@.hash));
                }
            }
            k = k + 1;
        }
        proof {
            assert(wv.take(wv.len() as int) =~= wv);
        }
        if self.remove_and_retip(&dead, prev_hash) {
            Ok(dead)
        } else {
            Err(ChainError::UnknownBlock)
        }
    }

    /// The chain newest to oldest: from the tip, following previous hashes
    /// until one names no stored block.
    pub fn iter(&self) -> (r: Vec<Block>)
        requires
            hashes_unique(self@.blocks),
        ensures
            r@.map_values(|b: Block| b@) == chain_blocks(self@),
    {
        let ghost c = self@;
        let mut out: Vec<Block> = Vec::new();
        let mut cur = copy_bytes(self.tip.as_slice());
        let mut fuel: usize = self.blocks.len();
        while fuel > 0
            invariant
                c == self@,
                hashes_unique(c.blocks),
                fuel <= c.blocks.len(),
                out@.map_values(|b: Block| b@) + walk(c.blocks, cur@, fuel as nat) == chain_blocks(c),
            decreases fuel,
        {
            match self.find_index(cur.as_slice()) {
                Some(i) => {
                    let ghost before = out@.map_values(|b: Block| b@);
                    let ghost h = cur@;
                    proof {
                        lemma_block_at_index(c.blocks, i as int);
                        assert(walk(c.blocks, h, fuel as nat) == seq![c.blocks[i as int]] + walk(
                            c.blocks,
                            c.blocks[i as int].prev_block_hash,
                            (fuel - 1) as nat,
                        ));
                    }
                    let b = self.blocks[i].clone();
                    cur = copy_bytes(self.blocks[i].prev_block_hash.as_slice());
                    out.push(b);
                    fuel = fuel - 1;
                    proof {
                        assert(out@.map_values(|b: Block| b@) =~= before.push(c.blocks[i as int]));
                        assert(before.push(c.blocks[i as int]) + walk(c.blocks, cur@, fuel as nat)
                            =~= before + (seq![c.blocks[i as int]] + walk(c.blocks, cur@, fuel as nat)));
                    }
                },
                None => {
                    proof {
                        assert(walk(c.blocks, cur@, fuel as nat) == Seq::<BlockV>::empty());
                        assert(out@.map_values(|b: Block| b@) + Seq::<BlockV>::empty() =~= out@.map_values(|b: Block| b@));
                    }
                    return out;
                },
            }
        }
        proof {
            assert(out@.map_values(|b: Block| b@) + Seq::<BlockV>::empty() =~= out@.map_values(|b: Block| b@));
        }
        out
    }
}

pub(crate) proof fn lemma_block_at_index(blocks: Seq<BlockV>, i: int)
    requires
        hashes_unique(blocks),
        0 <= i < blocks.len(),
    ensures
        has_block(blocks, blocks[i].hash),
        block_at(blocks, blocks[i].hash) == blocks[i],
{
    assert(blocks[i].hash == blocks[i].hash);
    let j = choose|j: int| 0 <= j < blocks.len() && #[trigger] blocks[j].hash == blocks[i].hash;
    assert(j == i);
}

proof fn lemma_push_keeps_wf(c: ChainV, b: BlockV)
    requires
        hashes_unique(c.blocks),
        !has_block(c.blocks, b.hash),
    ensures
        chain_wf(ChainV { blocks: c.blocks.push(b), tip: b.hash }),
{
    let s = c.blocks.push(b);
    let n = c.blocks.len() as int;
    assert(s[n].hash == b.hash);
    assert forall|i: int, j: int|
        0 <= i < s.len() && 0 <= j < s.len() && i != j implies #[trigger] s[i].hash
        != #[trigger] s[j].hash by {
        if i < n && j < n {
            assert(s[i] == c.blocks[i] && s[j] == c.blocks[j]);
        } else if i < n {
            assert(s[i] == c.blocks[i]);
        } else {
            assert(s[j] == c.blocks[j]);
        }
    }
}

} // verus!
