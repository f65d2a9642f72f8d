//! A node's ledger state: the chain and its unspent-output index, changed
//! together. Taking `&mut self` makes "read the tip, validate, append" one
//! step; a caller that shares the state across threads guards it with a
//! single lock.

use vstd::prelude::*;
use crate::block::{Block, BlockV};
use crate::blockchain::{
    add_outcome, add_result, chain_blocks, chain_verifies, chain_wf, conflict_result,
    has_block, inputs_found, lemma_valid_pool_all, mine2_error, lemma_valid_pool_verifies, mined_on_tip,
    rejected_ids, valid_pool, prev_txs_of, rollback_result, tip_block, BlockChain,
    ChainV, ChainError,
};
use crate::transaction::{coinbase_spec, is_coinbase_spec, sign_result, txs_view, TXOutput, Transaction};
use crate::utxo_set::{
    entry_exists, get_balance, locked_outputs, outpoints_view, spend_scan, total_value,
    transfer_unsigned, unspent_of, EntryV, UTXOSet,
};
use crate::wallet::{pub_key_hash_of, Wallet};
use crate::util::{base58_decoded, compare_slice_u8};

verus! {

/// The chain and the index kept beside it.
pub struct BlockLock {
    pub bc: BlockChain,
    pub utxos: UTXOSet,
}

/// Every input of every transaction of `b` but the coinbases spends an
/// output the index records.
pub open spec fn inputs_unspent(e: Seq<EntryV>, b: BlockV) -> bool {
    forall|t: int, i: int|
        0 <= t < b.transactions.len() && !is_coinbase_spec(b.transactions[t]) && 0 <= i
            < b.transactions[t].vin.len() ==> entry_exists(
            e,
            #[trigger] b.transactions[t].vin[i].txid,
            b.transactions[t].vin[i].vout,
        )
}

/// The ledger state after a rollback, when one applies.
pub open spec fn after_rollback(c: ChainV, e: Seq<EntryV>, b: BlockV, rollback: bool) -> (ChainV, Seq<EntryV>) {
    if rollback && rollback_result(c, b.hash, b.height) is Some {
        let c1 = rollback_result(c, b.hash, b.height).unwrap();
        (c1, unspent_of((chain_blocks(c1))))
    } else {
        (c, e)
    }
}

/// How many of the newest local blocks are compared with a remote hash list
/// of length `len`: the tip's height plus one, when that is below `len`.
pub open spec fn compare_depth(c: ChainV, len: int) -> int {
    let h = tip_block(c).height;
    if h < 0 || h + 1 >= len {
        0
    } else {
        h + 1
    }
}

/// Where the local chain first parts from the remote hash list: the first
/// walked block, among the `n` newest, whose hash differs from the remote
/// entry at the same height (`remote[len - n + k]` for the `k`-th walked).
pub open spec fn first_conflict(w: Seq<BlockV>, remote: Seq<Seq<u8>>, n: int, k: int) -> Option<BlockV>
    decreases n - k,
{
    if k < 0 || k >= n || k >= w.len() {
        None
    } else if w[k].hash != remote[remote.len() - n + k] {
        Some(w[k])
    } else {
        first_conflict(w, remote, n, k + 1)
    }
}

impl BlockLock {
    pub fn new(bc: BlockChain, utxos: UTXOSet) -> (r: BlockLock)
        ensures
            r.bc@ == bc@,
            r.utxos@ == utxos@,
    {
        BlockLock { bc, utxos }
    }

    /// The height of the tip block.
    pub fn best_height(&self) -> (r: i64)
        requires
            chain_wf(self.bc@),
        ensures
            r == tip_block(self.bc@).height,
    {
        self.bc.get_best_height()
    }

    /// The balance of an address: the total of the outputs locked to the
    /// public-key hash it carries (between its version byte and its
    /// four-byte checksum); `None` where it does not decode to at least
    /// five bytes.
    pub fn balance(&self, addr: &str) -> (r: Option<i128>)
        ensures
            r is Some == (base58_decoded(addr@) is Some && base58_decoded(addr@).unwrap().len() >= 5),
            r is Some ==> {
                let raw = base58_decoded(addr@).unwrap();
                r.unwrap() as int == total_value(locked_outputs(self.utxos@, raw.subrange(1, raw.len() - 4)))
            },
    {
        let mut probe = TXOutput::new(0, Vec::new());
        if !probe.lock(addr) {
            return None;
        }
        Some(get_balance(&self.utxos, probe.pub_key_hash.as_slice()))
    }

    /// The block of the chain at `height`, newest first, if any.
    pub fn block_with_height(&self, height: i64) -> (r: Option<Block>)
        requires
            chain_wf(self.bc@),
        ensures
            r is Some == (exists|k: int| 0 <= k < chain_blocks(self.bc@).len() && #[trigger] chain_blocks(self.bc@)[k].height == height),
            r is Some ==> exists|k: int|
                0 <= k < chain_blocks(self.bc@).len() && #[trigger] chain_blocks(self.bc@)[k] == r.unwrap()@
                    && r.unwrap()@.height == height
                    && forall|m: int| 0 <= m < k ==> (#[trigger] chain_blocks(self.bc@)[m]).height != height,
    {
        let w = self.bc.iter();
        let ghost wv = w@.map_values(|b: Block| b@);
        let mut k: usize = 0;
        while k < w.len()
            invariant
                wv == w@.map_values(|b: Block| b@),
                wv == chain_blocks(self.bc@),
                0 <= k <= w@.len(),
                forall|m: int| 0 <= m < k ==> (#[trigger] wv[m]).height != height,
            decreases w@.len() - k,
        {
            if w[k].height == height {
                proof {
                    assert(wv[k as int] == w@[k as int]@);
                    assert(chain_blocks(self.bc@)[k as int].height == height);
                }
                return Some(w[k].clone());
            }
            k = k + 1;
        }
        None
    }

    /// Brings the index up to date with a block just appended.
    pub fn update_utxo(&mut self, new_block: &Block)
        ensures
            final(self).bc@ == old(self).bc@,
            final(self).utxos@ == crate::utxo_set::apply_txs(
                old(self).utxos@,
                new_block@.transactions,
                new_block@.transactions.len() as int,
            ),
    {
        self.utxos.update(new_block);
    }

    /// Takes in a block from a peer. A block already stored is accepted as
    /// it is (`Ok(true)`). From the central node, the local chain is first
    /// rolled back to the block's hash at its height and the index rebuilt.
    /// Every input of the block but the coinbases must spend a recorded
    /// output; then the block goes through `add_block` (`Ok(false)`).
    pub fn add_new_block(&mut self, new_block: Block, from_central_node: bool) -> (r: Result<bool, ChainError>)
        requires
            chain_wf(old(self).bc@),
        ensures
            chain_wf(final(self).bc@),
            has_block(old(self).bc@.blocks, new_block@.hash) ==> r == Ok::<bool, ChainError>(true)
                && final(self).bc@ == old(self).bc@ && final(self).utxos@ == old(self).utxos@,
            !has_block(old(self).bc@.blocks, new_block@.hash) ==> {
                let (c1, e1) = after_rollback(old(self).bc@, old(self).utxos@, new_block@, from_central_node);
                &&& final(self).utxos@ == e1
                &&& !inputs_unspent(e1, new_block@) ==> r == Err::<bool, ChainError>(ChainError::InvalidTransaction)
                    && final(self).bc@ == c1
                &&& inputs_unspent(e1, new_block@) ==> final(self).bc@ == add_result(c1, new_block@)
                    && r == match add_outcome(c1, new_block@) {
                        Ok(()) => Ok::<bool, ChainError>(false),
                        Err(e) => Err(e),
                    }
            },
    {
        if self.bc.get_block(new_block.hash.as_slice()).is_some() {
            return Ok(true);
        }
        if from_central_node {
            match self.bc.delete_blocks(new_block.hash.as_slice(), new_block.height) {
                Ok(_) => {
                    self.utxos.reindex(&self.bc);
                },
                Err(_) => {},
            }
        }
        if !self.check_inputs(&new_block) {
            return Err(ChainError::InvalidTransaction);
        }
        match self.bc.add_block(new_block) {
            Ok(()) => Ok(false),
            Err(e) => Err(e),
        }
    }

    /// Compares the local chain with a peer's hash list (oldest first) that
    /// is longer than the local chain: walking back from the tip, the first
    /// block whose hash differs from the peer's at the same position is the
    /// conflict; the blocks from its height up are removed, the tip moves to
    /// its predecessor and the index is rebuilt.
    pub fn conflict(&mut self, remote_hashes: &Vec<Vec<u8>>)
        requires
            chain_wf(old(self).bc@),
        ensures
            chain_wf(final(self).bc@),
            ({
                let remote = remote_hashes@.map_values(|h: Vec<u8>| h@);
                let n = compare_depth(old(self).bc@, remote.len() as int);
                let fc = first_conflict(chain_blocks(old(self).bc@), remote, n, 0);
                let res = if fc is Some {
                    conflict_result(old(self).bc@, fc.unwrap().height, fc.unwrap().prev_block_hash)
                } else {
                    None
                };
                &&& res is None ==> final(self).bc@ == old(self).bc@ && final(self).utxos@ == old(self).utxos@
                &&& res is Some ==> final(self).bc@ == res.unwrap()
                    && final(self).utxos@ == unspent_of((chain_blocks(res.unwrap())))
            }),
    {
        let ghost remote = remote_hashes@.map_values(|h: Vec<u8>| h@);
        let height = self.best_height();
        let len = remote_hashes.len();
        if height < 0 || height as u64 >= len as u64 || height as u64 + 1 >= len as u64 {
            proof {
                assert(first_conflict(chain_blocks(self.bc@), remote, compare_depth(self.bc@, remote.len() as int), 0) is None);
            }
            return;
        }
        let n: usize = height as usize + 1;
        let w = self.bc.iter();
        let ghost wv = w@.map_values(|b: Block| b@);
        let mut k: usize = 0;
        while k < n && k < w.len()
            invariant
                wv == w@.map_values(|b: Block| b@),
                wv == chain_blocks(self.bc@),
                remote == remote_hashes@.map_values(|h: Vec<u8>| h@),
                n == compare_depth(self.bc@, remote.len() as int),
                n < len == remote_hashes@.len(),
                0 <= k <= n,
                first_conflict(wv, remote, n as int, 0) == first_conflict(wv, remote, n as int, k as int),
                chain_wf(self.bc@),
                self.bc@ == old(self).bc@,
                self.utxos@ == old(self).utxos@,
            decreases n - k,
        {
            let index = len - n + k;
            if !compare_slice_u8(w[k].hash.as_slice(), remote_hashes[index].as_slice()) {
                proof {
                    assert(wv[k as int] == w@[k as int]@);
                    assert(first_conflict(wv, remote, n as int, k as int) == Some(wv[k as int]));
                }
                match self.bc.delete_conflict(w[k].height, crate::util::copy_bytes(w[k].prev_block_hash.as_slice())) {
                    Ok(_) => {
                        self.utxos.reindex(&self.bc);
                    },
                    Err(_) => {},
                }
                return;
            }
            k = k + 1;
        }
        proof {
            assert(first_conflict(wv, remote, n as int, k as int) is None);
        }
    }

    /// A transfer of `amount` from `from_wallet` to the public-key hash that
    /// the address `to` carries (see `Transaction::new_utxo_transaction`).
    pub fn create_new_utxo_transaction(
        &self,
        from_wallet: &Wallet,
        to: &str,
        amount: i64,
        spend_utxos: &Vec<(Vec<u8>, i64)>,
    ) -> (r: Result<Transaction, ChainError>)
        requires
            chain_wf(self.bc@),
            amount > i64::MIN,
        ensures
            (r == Err::<Transaction, ChainError>(ChainError::InvalidAddress)) == !(base58_decoded(to@) is Some
                && base58_decoded(to@).unwrap().len() >= 5),
            r is Ok ==> {
                let raw = base58_decoded(to@).unwrap();
                let pk = from_wallet.public_key@;
                let scan = spend_scan(self.utxos@, pub_key_hash_of(pk), amount, outpoints_view(spend_utxos@));
                let u = transfer_unsigned(pk, raw.subrange(1, raw.len() - 4), amount, scan.0, scan.1);
                &&& inputs_found(self.bc@, u)
                &&& r.unwrap()@ == sign_result(u, from_wallet.secret_key@, prev_txs_of(self.bc@, u))
            },
    {
        let mut probe = TXOutput::new(0, Vec::new());
        if !probe.lock(to) {
            return Err(ChainError::InvalidAddress);
        }
        let r = Transaction::new_utxo_transaction(from_wallet, probe.pub_key_hash, amount, &self.utxos, &self.bc, spend_utxos);
        proof {
            if r is Err {
                assert(r != Err::<Transaction, ChainError>(ChainError::InvalidAddress));
            }
        }
        r
    }

    /// Mines a block on the tip, without adding it: a coinbase paying
    /// `mine_addr` (with random payload) first, then the mempool
    /// transactions that verify. The others are left out and their ids
    /// returned beside the block. Refuses when none verifies.
    pub fn mine_new_block2(&self, mine_addr: Vec<u8>, mem_pool: &Vec<Transaction>) -> (r: Result<(Block, Vec<Vec<u8>>), ChainError>)
        requires
            chain_wf(self.bc@),
        ensures
            (r == Err::<(Block, Vec<Vec<u8>>), ChainError>(ChainError::InvalidTransaction)) == (valid_pool(
                self.bc@,
                txs_view(mem_pool@),
            ).len() == 0),
            r is Ok ==> {
                let b = r.unwrap().0@;
                &&& b.transactions.len() == valid_pool(self.bc@, txs_view(mem_pool@)).len() + 1
                &&& b.transactions[0] == coinbase_spec(mine_addr@, b.transactions[0].vin[0].pub_key)
                &&& b.transactions.drop_first() == valid_pool(self.bc@, txs_view(mem_pool@))
                &&& mined_on_tip(self.bc@, b.transactions, b.timestamp, b)
                &&& r.unwrap().1@.map_values(|d: Vec<u8>| d@) == rejected_ids(self.bc@, txs_view(mem_pool@))
            },
            r is Err && r != Err::<(Block, Vec<Vec<u8>>), ChainError>(ChainError::InvalidTransaction)
                ==> exists|p: Seq<u8>, t: i64|
                #[trigger] mine2_error(
                    self.bc@,
                    seq![coinbase_spec(mine_addr@, p)] + valid_pool(self.bc@, txs_view(mem_pool@)),
                    t,
                    r->Err_0,
                ),
    {
        let ghost addr = mine_addr@;
        let (valid, rejected) = self.bc.valid_transactions(mem_pool);
        if valid.len() == 0 {
            return Err(ChainError::InvalidTransaction);
        }
        let cbtx = Transaction::new_coinbase_tx(mine_addr, Vec::new());
        let mut txs: Vec<Transaction> = vec![cbtx];
        let ghost head = txs_view(txs@);
        let mut i: usize = 0;
        while i < valid.len()
            invariant
                0 <= i <= valid@.len(),
                txs@.len() == i + 1,
                head == seq![cbtx@],
                txs_view(txs@) == head + txs_view(valid@).take(i as int),
            decreases valid@.len() - i,
        {
            let ghost before = txs@;
            let t = valid[i].clone();
            txs.push(t);
            i = i + 1;
            proof {
                assert(txs_view(txs@) =~= txs_view(before).push(t@));
                assert(txs_view(valid@).take(i as int) =~= txs_view(valid@).take(i as int - 1).push(valid@[i as int - 1]@));
            }
        }
        proof {
            assert(txs_view(valid@).take(i as int) =~= txs_view(valid@));
            assert(txs_view(txs@).drop_first() =~= txs_view(valid@));
            assert(txs_view(txs@)[0] == head[0]);
            assert(txs@[0]@ == cbtx@);
            let body = crate::transaction::coinbase_body(mine_addr@, cbtx@.vin[0].pub_key);
            assert(cbtx@.vin == body.vin);
            assert(body.vin[0].txid.len() == 0);
            assert(is_coinbase_spec(cbtx@));
            let tv = txs_view(txs@);
            assert forall|k: int| 0 <= k < tv.len() implies chain_verifies(self.bc@, #[trigger] tv[k]) by {
                if k > 0 {
                    assert(tv[k] == txs_view(valid@)[k - 1]);
                    lemma_valid_pool_verifies(self.bc@, txs_view(mem_pool@), k - 1);
                } else {
                    assert(tv[0] == cbtx@);
                }
            }
            lemma_valid_pool_all(self.bc@, tv);
        }
        match self.bc.mine_block2(&txs) {
            Ok((b, _)) => Ok((b, rejected)),
            Err(e) => {
                proof {
                    let tv = txs_view(txs@);
                    let t = choose|t: i64| #[trigger] mine2_error(self.bc@, valid_pool(self.bc@, tv), t, e);
                    let p = cbtx@.vin[0].pub_key;
                    assert(cbtx@ == coinbase_spec(addr, p));
                    assert(tv =~= seq![coinbase_spec(addr, p)] + valid_pool(self.bc@, txs_view(mem_pool@)));
                    assert(mine2_error(
                        self.bc@,
                        seq![coinbase_spec(addr, p)] + valid_pool(self.bc@, txs_view(mem_pool@)),
                        t,
                        e,
                    ));
                }
                Err(e)
            },
        }
    }

    /// Whether every input of `b` but the coinbases spends a recorded output.
    fn check_inputs(&self, b: &Block) -> (r: bool)
        ensures
            r == inputs_unspent(self.utxos@, b@),
    {
        let mut t: usize = 0;
        while t < b.transactions.len()
            invariant
                0 <= t <= b.transactions@.len(),
                forall|u: int, i: int|
                    0 <= u < t && !is_coinbase_spec(b@.transactions[u]) && 0 <= i
                        < b@.transactions[u].vin.len() ==> entry_exists(
                        self.utxos@,
                        #[trigger] b@.transactions[u].vin[i].txid,
                        b@.transactions[u].vin[i].vout,
                    ),
            decreases b.transactions@.len() - t,
        {
            let tx = &b.transactions[t];
            assert(b@.transactions[t as int] == tx@);
            if !tx.is_coinbase() {
                let mut i: usize = 0;
                while i < tx.vin.len()
                    invariant
                        0 <= t < b.transactions@.len(),
                        b@.transactions[t as int] == tx@,
                        !is_coinbase_spec(tx@),
                        0 <= i <= tx.vin@.len(),
                        forall|u: int, k: int|
                            0 <= u < t && !is_coinbase_spec(b@.transactions[u]) && 0 <= k
                                < b@.transactions[u].vin.len() ==> entry_exists(
                                self.utxos@,
                                #[trigger] b@.transactions[u].vin[k].txid,
                                b@.transactions[u].vin[k].vout,
                            ),
                        forall|k: int|
                            0 <= k < i ==> entry_exists(
                                self.utxos@,
                                #[trigger] tx@.vin[k].txid,
                                tx@.vin[k].vout,
                            ),
                    decreases tx.vin@.len() - i,
                {
                    let found = self.utxos.has_output(tx.vin[i].txid.as_slice(), tx.vin[i].vout);
                    if !found {
                        proof {
                            assert(!entry_exists(
                                self.utxos@,
                                b@.transactions[t as int].vin[i as int].txid,
                                b@.transactions[t as int].vin[i as int].vout,
                            ));
                        }
                        return false;
                    }
                    i = i + 1;
                }
            }
            t = t + 1;
        }
        true
    }
}

} // verus!
