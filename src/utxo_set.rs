//! The unspent-output index: every output of the chain that no input
//! refers to, rebuilt in full from the chain or patched block by block.

use vstd::prelude::*;
use std::collections::HashMap;
use crate::block::{Block, BlockV};
use crate::blockchain::{
    add_outcome, add_result, block_at, chain_blocks, chain_wf, has_block, hashes_unique,
    inputs_found, prev_txs_of, walk, BlockChain, ChainError, ChainV,
};
use crate::transaction::{
    is_coinbase_spec, sign_outcome, sign_result, tx_hash, txs_view, with_id, InputV, OutputV,
    TXInput, TXOutput, Transaction, TxV,
};
use crate::wallet::{pub_key_hash_of, Wallet};
use crate::util::{compare_slice_u8, copy_bytes};

verus! {

/// One unspent output: the transaction it belongs to, its position there,
/// and the output itself.
pub struct UtxoEntry {
    pub txid: Vec<u8>,
    pub index: i64,
    pub output: TXOutput,
}

/// Mathematical value of an entry.
pub struct EntryV {
    pub txid: Seq<u8>,
    pub index: i64,
    pub output: OutputV,
}

impl View for UtxoEntry {
    type V = EntryV;

    open spec fn view(&self) -> EntryV {
        EntryV { txid: self.txid@, index: self.index, output: self.output@ }
    }
}

impl Clone for UtxoEntry {
    fn clone(&self) -> (r: Self)
        ensures
            r@ == self@,
    {
        UtxoEntry { txid: copy_bytes(self.txid.as_slice()), index: self.index, output: self.output.clone() }
    }
}

/// The unspent outputs of one transaction, keyed by position.
pub struct TXOutputs {
    pub outputs: HashMap<i64, TXOutput>,
}

impl TXOutputs {
    pub fn new(outputs: HashMap<i64, TXOutput>) -> (r: TXOutputs)
        ensures
            r.outputs@ == outputs@,
    {
        TXOutputs { outputs }
    }
}

/// The index: its entries in the order they were recorded.
pub struct UTXOSet {
    entries: Vec<UtxoEntry>,
}

impl View for UTXOSet {
    type V = Seq<EntryV>;

    closed spec fn view(&self) -> Seq<EntryV> {
        entries_view(self.entries@)
    }
}

pub open spec fn entries_view(v: Seq<UtxoEntry>) -> Seq<EntryV> {
    v.map_values(|e: UtxoEntry| e@)
}

/// A reference to an output: transaction id and position.
pub open spec fn outpoint(txid: Seq<u8>, index: i64) -> (Seq<u8>, i64) {
    (txid, index)
}

/// The outputs referred to by the inputs of the transactions before
/// position `j`, coinbases excepted.
pub open spec fn spent_before(l: Seq<TxV>, j: int) -> Seq<(Seq<u8>, i64)>
    decreases j,
{
    if j <= 0 {
        Seq::empty()
    } else if is_coinbase_spec(l[j - 1]) {
        spent_before(l, j - 1)
    } else {
        spent_before(l, j - 1) + l[j - 1].vin.map_values(|i: crate::transaction::InputV| outpoint(i.txid, i.vout))
    }
}

/// The references spent by the blocks before position `n`, block by block.
pub open spec fn spent_in_blocks(w: Seq<BlockV>, n: int) -> Seq<(Seq<u8>, i64)>
    decreases n,
{
    if n <= 0 {
        Seq::empty()
    } else {
        spent_in_blocks(w, n - 1) + spent_before(w[n - 1].transactions, w[n - 1].transactions.len() as int)
    }
}

/// The entries of transactions `0..j` whose reference is not in `spent`.
pub open spec fn block_unspent(txs: Seq<TxV>, spent: Seq<(Seq<u8>, i64)>, j: int) -> Seq<EntryV>
    decreases j,
{
    if j <= 0 {
        Seq::empty()
    } else {
        block_unspent(txs, spent, j - 1) + drop_spent(tx_entries(txs[j - 1]), spent)
    }
}

/// The unspent outputs of the blocks before position `n`: the outputs of
/// each block that no input of that block or of a block listed before it
/// refers to.
pub open spec fn unspent_blocks(w: Seq<BlockV>, n: int) -> Seq<EntryV>
    decreases n,
{
    if n <= 0 {
        Seq::empty()
    } else {
        unspent_blocks(w, n - 1) + block_unspent(
            w[n - 1].transactions,
            spent_in_blocks(w, n),
            w[n - 1].transactions.len() as int,
        )
    }
}

/// The full scan over blocks listed newest first: an output is kept unless
/// an input of its own block or of a newer block refers to it, so the index
/// is the complement of every reference made anywhere in the chain (each
/// spend standing at the height of its output or above).
pub open spec fn unspent_of(w: Seq<BlockV>) -> Seq<EntryV> {
    unspent_blocks(w, w.len() as int)
}

/// The entries without those that `txid` and, where given, `index` name.
pub open spec fn without(e: Seq<EntryV>, txid: Seq<u8>, index: Option<i64>) -> Seq<EntryV>
    decreases e.len(),
{
    if e.len() == 0 {
        e
    } else {
        let rest = without(e.drop_last(), txid, index);
        let x = e.last();
        if x.txid == txid && (index is None || x.index == index.unwrap()) {
            rest
        } else {
            rest.push(x)
        }
    }
}

/// The entries after the first `n` inputs of `t` have been spent.
pub open spec fn spend_inputs(e: Seq<EntryV>, t: TxV, n: int) -> Seq<EntryV>
    decreases n,
{
    if n <= 0 {
        e
    } else {
        without(spend_inputs(e, t, n - 1), t.vin[n - 1].txid, Some(t.vin[n - 1].vout))
    }
}

/// The entries of every output of `t`.
pub open spec fn tx_entries(t: TxV) -> Seq<EntryV> {
    Seq::new(t.vout.len(), |k: int| EntryV { txid: t.id, index: k as i64, output: t.vout[k] })
}

/// One transaction applied: its inputs' outputs removed (not for a coinbase),
/// any record under its own id replaced by its outputs.
pub open spec fn apply_tx(e: Seq<EntryV>, t: TxV) -> Seq<EntryV> {
    let spent = if is_coinbase_spec(t) {
        e
    } else {
        spend_inputs(e, t, t.vin.len() as int)
    };
    without(spent, t.id, None) + tx_entries(t)
}

/// The first `n` transactions applied in order.
pub open spec fn apply_txs(e: Seq<EntryV>, txs: Seq<TxV>, n: int) -> Seq<EntryV>
    decreases n,
{
    if n <= 0 {
        e
    } else {
        apply_tx(apply_txs(e, txs, n - 1), txs[n - 1])
    }
}

/// The outputs of the entries locked to `pkh`, in order.
pub open spec fn locked_outputs(e: Seq<EntryV>, pkh: Seq<u8>) -> Seq<OutputV>
    decreases e.len(),
{
    if e.len() == 0 {
        Seq::empty()
    } else if e.last().output.pub_key_hash == pkh {
        locked_outputs(e.drop_last(), pkh).push(e.last().output)
    } else {
        locked_outputs(e.drop_last(), pkh)
    }
}

/// The sum of the values of a list of outputs.
pub open spec fn total_value(o: Seq<OutputV>) -> int
    decreases o.len(),
{
    if o.len() == 0 {
        0
    } else {
        total_value(o.drop_last()) + o.last().value
    }
}

/// The scan for spendable outputs: entries in order, skipping those in
/// `excl` or not locked to `pkh`, taking each while the running total is
/// below `amount`. Gives the total and the outputs taken.
pub open spec fn spend_scan(e: Seq<EntryV>, pkh: Seq<u8>, amount: i64, excl: Seq<(Seq<u8>, i64)>) -> (int, Seq<(Seq<u8>, i64)>)
    decreases e.len(),
{
    if e.len() == 0 {
        (0, Seq::empty())
    } else {
        let (acc, taken) = spend_scan(e.drop_last(), pkh, amount, excl);
        let x = e.last();
        if !excl.contains(outpoint(x.txid, x.index)) && x.output.pub_key_hash == pkh && acc < amount {
            (acc + x.output.value, taken.push(outpoint(x.txid, x.index)))
        } else {
            (acc, taken)
        }
    }
}

/// The number of distinct transaction ids among the first `n` entries.
pub open spec fn distinct_txids(e: Seq<EntryV>, n: int) -> nat
    decreases n,
{
    if n <= 0 {
        0
    } else if exists|j: int| 0 <= j < n - 1 && #[trigger] e[j].txid == e[n - 1].txid {
        distinct_txids(e, n - 1)
    } else {
        distinct_txids(e, n - 1) + 1
    }
}

/// Some entry is recorded under `txid`.
pub open spec fn has_txid(e: Seq<EntryV>, txid: Seq<u8>) -> bool {
    exists|j: int| 0 <= j < e.len() && #[trigger] e[j].txid == txid
}

/// Some entry of the index records output `index` of transaction `txid`.
pub open spec fn entry_exists(e: Seq<EntryV>, txid: Seq<u8>, index: i64) -> bool {
    exists|j: int| 0 <= j < e.len() && #[trigger] e[j].txid == txid && e[j].index == index
}

/// The views of a list of output references.
pub open spec fn outpoints_view(v: Seq<(Vec<u8>, i64)>) -> Seq<(Seq<u8>, i64)> {
    v.map_values(|p: (Vec<u8>, i64)| outpoint(p.0@, p.1))
}

/// Whether the list holds the reference (`txid`, `index`).
fn contains_outpoint(list: &Vec<(Vec<u8>, i64)>, txid: &[u8], index: i64) -> (r: bool)
    ensures
        r == outpoints_view(list@).contains(outpoint(txid@, index)),
{
    let ghost lv = outpoints_view(list@);
    let mut i: usize = 0;
    while i < list.len()
        invariant
            lv == outpoints_view(list@),
            0 <= i <= list@.len(),
            forall|j: int| 0 <= j < i ==> #[trigger] lv[j] != outpoint(txid@, index),
        decreases list@.len() - i,
    {
        if list[i].1 == index && compare_slice_u8(list[i].0.as_slice(), txid) {
            proof {
                assert(lv[i as int] == outpoint(txid@, index));
            }
            return true;
        }
        i = i + 1;
    }
    false
}

/// The entries without those that `txid` and, where given, `index` name.
fn remove_entries(e: &Vec<UtxoEntry>, txid: &[u8], index: Option<i64>) -> (r: Vec<UtxoEntry>)
    ensures
        entries_view(r@) == without(entries_view(e@), txid@, index),
{
    let ghost ev = entries_view(e@);
    let mut out: Vec<UtxoEntry> = Vec::new();
    let mut i: usize = 0;
    while i < e.len()
        invariant
            ev == entries_view(e@),
            0 <= i <= e@.len(),
            entries_view(out@) == without(ev.take(i as int), txid@, index),
        decreases e@.len() - i,
    {
        let x = &e[i];
        let hit = compare_slice_u8(x.txid.as_slice(), txid) && match index {
            Some(k) => x.index == k,
            None => true,
        };
        proof {
            let s = ev.take(i as int + 1);
            assert(s.drop_last() =~= ev.take(i as int));
            assert(s.last() == x@);
        }
        if !hit {
            let ghost before = out@;
            let c = x.clone();
            out.push(c);
            proof {
                assert(entries_view(out@) =~= entries_view(before).push(x@));
            }
        }
        i = i + 1;
    }
    proof {
        assert(ev.take(e@.len() as int) =~= ev);
    }
    out
}

/// The entries without those whose reference is listed in `spent`.
pub open spec fn drop_spent(e: Seq<EntryV>, spent: Seq<(Seq<u8>, i64)>) -> Seq<EntryV>
    decreases e.len(),
{
    if e.len() == 0 {
        e
    } else if spent.contains(outpoint(e.last().txid, e.last().index)) {
        drop_spent(e.drop_last(), spent)
    } else {
        drop_spent(e.drop_last(), spent).push(e.last())
    }
}

/// The entries of every output of the first `n` transactions.
pub open spec fn entries_of(b: Seq<TxV>, n: int) -> Seq<EntryV>
    decreases n,
{
    if n <= 0 {
        Seq::empty()
    } else {
        entries_of(b, n - 1) + tx_entries(b[n - 1])
    }
}

/// No input of the block's transactions refers to a transaction of the block.
pub open spec fn no_inner_refs(b: Seq<TxV>) -> bool {
    forall|t: int, u: int, i: int|
        0 <= t < b.len() && 0 <= u < b.len() && !is_coinbase_spec(b[t]) && 0 <= i < b[t].vin.len()
            ==> #[trigger] b[t].vin[i].txid != #[trigger] b[u].id
}

/// The block's transaction ids are distinct and recorded nowhere in `e`.
pub open spec fn fresh_ids(b: Seq<TxV>, e: Seq<EntryV>) -> bool {
    &&& forall|t: int, u: int| 0 <= t < b.len() && 0 <= u < b.len() && t != u ==> #[trigger] b[t].id != #[trigger] b[u].id
    &&& forall|t: int, j: int| 0 <= t < b.len() && 0 <= j < e.len() ==> #[trigger] b[t].id != #[trigger] e[j].txid
}

proof fn lemma_contains_concat<A>(x: Seq<A>, y: Seq<A>, a: A)
    ensures
        (x + y).contains(a) == (x.contains(a) || y.contains(a)),
{
    if x.contains(a) {
        let i = choose|i: int| 0 <= i < x.len() && x[i] == a;
        assert((x + y)[i] == a);
    }
    if y.contains(a) {
        let i = choose|i: int| 0 <= i < y.len() && y[i] == a;
        assert((x + y)[x.len() + i] == a);
    }
    if (x + y).contains(a) {
        let i = choose|i: int| 0 <= i < (x + y).len() && (x + y)[i] == a;
        if i < x.len() {
            assert(x[i] == a);
        } else {
            assert(y[i - x.len()] == a);
        }
    }
}

/// Every reference spent before position `j` comes from an input of a
/// transaction before `j` that is not a coinbase.
proof fn lemma_spent_origin(b: Seq<TxV>, j: int, p: (Seq<u8>, i64))
    requires
        0 <= j <= b.len(),
        spent_before(b, j).contains(p),
    ensures
        exists|t: int, i: int|
            0 <= t < j && !is_coinbase_spec(b[t]) && 0 <= i < b[t].vin.len() && #[trigger] b[t].vin[i].txid
                == p.0,
    decreases j,
{
    if j > 0 {
        if is_coinbase_spec(b[j - 1]) {
            lemma_spent_origin(b, j - 1, p);
        } else {
            let ins = b[j - 1].vin.map_values(|i: InputV| outpoint(i.txid, i.vout));
            lemma_contains_concat(spent_before(b, j - 1), ins, p);
            if spent_before(b, j - 1).contains(p) {
                lemma_spent_origin(b, j - 1, p);
            } else {
                let i = choose|i: int| 0 <= i < ins.len() && ins[i] == p;
                assert(b[j - 1].vin[i].txid == p.0);
            }
        }
    }
}

proof fn lemma_drop_spent_concat(x: Seq<EntryV>, y: Seq<EntryV>, s: Seq<(Seq<u8>, i64)>)
    ensures
        drop_spent(x + y, s) == drop_spent(x, s) + drop_spent(y, s),
    decreases y.len(),
{
    if y.len() == 0 {
        assert(x + y =~= x);
        assert(drop_spent(x, s) + drop_spent(y, s) =~= drop_spent(x, s));
    } else {
        lemma_drop_spent_concat(x, y.drop_last(), s);
        assert((x + y).drop_last() =~= x + y.drop_last());
        assert((x + y).last() == y.last());
        let a = drop_spent(x, s);
        let c = drop_spent(y.drop_last(), s);
        assert((a + c).push(y.last()) =~= a + c.push(y.last()));
    }
}

proof fn lemma_locked_concat(x: Seq<EntryV>, y: Seq<EntryV>, h: Seq<u8>)
    ensures
        total_value(locked_outputs(x + y, h)) == total_value(locked_outputs(x, h)) + total_value(
            locked_outputs(y, h),
        ),
    decreases y.len(),
{
    if y.len() == 0 {
        assert(x + y =~= x);
    } else {
        lemma_locked_concat(x, y.drop_last(), h);
        assert((x + y).drop_last() =~= x + y.drop_last());
        assert((x + y).last() == y.last());
        let lx = locked_outputs(x + y.drop_last(), h);
        if y.last().output.pub_key_hash == h {
            assert(lx.push(y.last().output).drop_last() =~= lx);
            let ly = locked_outputs(y.drop_last(), h);
            assert(ly.push(y.last().output).drop_last() =~= ly);
        }
    }
}

proof fn lemma_without_concat(x: Seq<EntryV>, y: Seq<EntryV>, txid: Seq<u8>, index: Option<i64>)
    ensures
        without(x + y, txid, index) == without(x, txid, index) + without(y, txid, index),
    decreases y.len(),
{
    if y.len() == 0 {
        assert(x + y =~= x);
        assert(without(x, txid, index) + without(y, txid, index) =~= without(x, txid, index));
    } else {
        lemma_without_concat(x, y.drop_last(), txid, index);
        assert((x + y).drop_last() =~= x + y.drop_last());
        assert((x + y).last() == y.last());
        let a = without(x, txid, index);
        let c = without(y.drop_last(), txid, index);
        assert((a + c).push(y.last()) =~= a + c.push(y.last()));
    }
}

proof fn lemma_without_none_matches(y: Seq<EntryV>, txid: Seq<u8>, index: Option<i64>)
    requires
        forall|j: int| 0 <= j < y.len() ==> #[trigger] y[j].txid != txid,
    ensures
        without(y, txid, index) == y,
    decreases y.len(),
{
    if y.len() > 0 {
        lemma_without_none_matches(y.drop_last(), txid, index);
        assert(y[y.len() - 1].txid != txid);
        assert(y.drop_last().push(y.last()) =~= y);
    }
}

proof fn lemma_without_drop_spent(u: Seq<EntryV>, sp: Seq<(Seq<u8>, i64)>, txid: Seq<u8>, v: i64)
    ensures
        without(drop_spent(u, sp), txid, Some(v)) == drop_spent(u, sp.push(outpoint(txid, v))),
    decreases u.len(),
{
    if u.len() > 0 {
        lemma_without_drop_spent(u.drop_last(), sp, txid, v);
        let e = u.last();
        let p = outpoint(e.txid, e.index);
        lemma_contains_concat(sp, seq![outpoint(txid, v)], p);
        assert(sp.push(outpoint(txid, v)) =~= sp + seq![outpoint(txid, v)]);
        if seq![outpoint(txid, v)].contains(p) {
            assert(seq![outpoint(txid, v)][0] == outpoint(txid, v));
        }
        if !sp.contains(p) {
            let r = drop_spent(u.drop_last(), sp);
            assert(r.push(e).drop_last() =~= r);
            assert(r.push(e).last() == e);
        }
    }
}

proof fn lemma_drop_spent_sub(u: Seq<EntryV>, sp: Seq<(Seq<u8>, i64)>)
    ensures
        forall|j: int| 0 <= j < drop_spent(u, sp).len() ==> u.contains(#[trigger] drop_spent(u, sp)[j]),
    decreases u.len(),
{
    if u.len() > 0 {
        lemma_drop_spent_sub(u.drop_last(), sp);
        let r = drop_spent(u.drop_last(), sp);
        let d = drop_spent(u, sp);
        assert forall|j: int| 0 <= j < d.len() implies u.contains(#[trigger] d[j]) by {
            if j < r.len() {
                assert(d[j] == r[j]);
                assert(u.drop_last().contains(r[j]));
                let k = choose|k: int| 0 <= k < u.drop_last().len() && u.drop_last()[k] == r[j];
                assert(u[k] == r[j]);
            } else {
                assert(d[j] == u[u.len() - 1]);
            }
        }
    }
}

proof fn lemma_entries_of_ids(b: Seq<TxV>, n: int)
    requires
        0 <= n <= b.len(),
    ensures
        forall|j: int|
            0 <= j < entries_of(b, n).len() ==> exists|u: int| 0 <= u < n && #[trigger] entries_of(b, n)[j].txid == b[u].id,
    decreases n,
{
    if n > 0 {
        lemma_entries_of_ids(b, n - 1);
        let x = entries_of(b, n - 1);
        let e = entries_of(b, n);
        assert forall|j: int| 0 <= j < e.len() implies exists|u: int| 0 <= u < n && #[trigger] e[j].txid == b[u].id by {
            if j < x.len() {
                assert(e[j] == x[j]);
                let u = choose|u: int| 0 <= u < n - 1 && #[trigger] x[j].txid == b[u].id;
                assert(e[j].txid == b[u].id);
            } else {
                assert(e[j] == tx_entries(b[n - 1])[j - x.len()]);
                assert(e[j].txid == b[n - 1].id);
            }
        }
    }
}

proof fn lemma_spend_inputs_split(u: Seq<EntryV>, sp: Seq<(Seq<u8>, i64)>, y: Seq<EntryV>, t: TxV, i: int)
    requires
        0 <= i <= t.vin.len(),
        forall|j: int, k: int| 0 <= j < y.len() && 0 <= k < t.vin.len() ==> #[trigger] y[j].txid != #[trigger] t.vin[k].txid,
    ensures
        spend_inputs(drop_spent(u, sp) + y, t, i) == drop_spent(
            u,
            sp + t.vin.map_values(|x: InputV| outpoint(x.txid, x.vout)).take(i),
        ) + y,
    decreases i,
{
    let ins = t.vin.map_values(|x: InputV| outpoint(x.txid, x.vout));
    if i == 0 {
        assert(sp + ins.take(0) =~= sp);
    } else {
        lemma_spend_inputs_split(u, sp, y, t, i - 1);
        let s1 = sp + ins.take(i - 1);
        let txid = t.vin[i - 1].txid;
        let v = t.vin[i - 1].vout;
        lemma_without_concat(drop_spent(u, s1), y, txid, Some(v));
        assert forall|j: int| 0 <= j < y.len() implies #[trigger] y[j].txid != txid by {
            assert(y[j].txid != t.vin[i - 1].txid);
        }
        lemma_without_none_matches(y, txid, Some(v));
        lemma_without_drop_spent(u, s1, txid, v);
        assert(s1.push(outpoint(txid, v)) =~= sp + ins.take(i));
    }
}

proof fn lemma_apply_fresh(u: Seq<EntryV>, b: Seq<TxV>, n: int)
    requires
        no_inner_refs(b),
        fresh_ids(b, u),
        0 <= n <= b.len(),
    ensures
        apply_txs(u, b, n) == drop_spent(u, spent_before(b, n)) + entries_of(b, n),
    decreases n,
{
    if n == 0 {
        lemma_drop_spent_nothing(u);
        assert(u + Seq::<EntryV>::empty() =~= u);
    } else {
        lemma_apply_fresh(u, b, n - 1);
        let t = b[n - 1];
        let s0 = spent_before(b, n - 1);
        let y = entries_of(b, n - 1);
        let e = drop_spent(u, s0) + y;
        lemma_entries_of_ids(b, n - 1);
        let spent = if is_coinbase_spec(t) {
            e
        } else {
            spend_inputs(e, t, t.vin.len() as int)
        };
        if !is_coinbase_spec(t) {
            assert forall|j: int, k: int| 0 <= j < y.len() && 0 <= k < t.vin.len() implies #[trigger] y[j].txid
                != #[trigger] t.vin[k].txid by {
                let w = choose|w: int| 0 <= w < n - 1 && #[trigger] y[j].txid == b[w].id;
                assert(b[n - 1].vin[k].txid != b[w].id);
            }
            lemma_spend_inputs_split(u, s0, y, t, t.vin.len() as int);
            let ins = t.vin.map_values(|x: InputV| outpoint(x.txid, x.vout));
            assert(ins.take(t.vin.len() as int) =~= ins);
        }
        let s1 = spent_before(b, n);
        assert(spent == drop_spent(u, s1) + y);
        lemma_drop_spent_sub(u, s1);
        assert forall|j: int| 0 <= j < spent.len() implies #[trigger] spent[j].txid != t.id by {
            let d = drop_spent(u, s1);
            if j < d.len() {
                assert(spent[j] == d[j]);
                assert(u.contains(d[j]));
                let k = choose|k: int| 0 <= k < u.len() && u[k] == d[j];
                assert(b[n - 1].id != u[k].txid);
            } else {
                assert(spent[j] == y[j - d.len()]);
                let w = choose|w: int| 0 <= w < n - 1 && #[trigger] y[j - d.len()].txid == b[w].id;
                assert(b[n - 1].id != b[w].id);
            }
        }
        lemma_without_none_matches(spent, t.id, None);
        assert((drop_spent(u, s1) + y) + tx_entries(t) =~= drop_spent(u, s1) + (y + tx_entries(t)));
    }
}

proof fn lemma_drop_spent_nothing(u: Seq<EntryV>)
    ensures
        drop_spent(u, Seq::empty()) == u,
    decreases u.len(),
{
    if u.len() > 0 {
        lemma_drop_spent_nothing(u.drop_last());
        assert(u.drop_last().push(u.last()) =~= u);
    }
}

proof fn lemma_spent_in_front(b: BlockV, w: Seq<BlockV>, m: int)
    requires
        0 <= m <= w.len(),
    ensures
        spent_in_blocks(seq![b] + w, 1 + m) == spent_before(b.transactions, b.transactions.len() as int)
            + spent_in_blocks(w, m),
    decreases m,
{
    let bw = seq![b] + w;
    let sb = spent_before(b.transactions, b.transactions.len() as int);
    assert(bw[0] == b);
    if m == 0 {
        assert(spent_in_blocks(bw, 0) == Seq::<(Seq<u8>, i64)>::empty());
        assert(Seq::<(Seq<u8>, i64)>::empty() + sb =~= sb);
        assert(sb + spent_in_blocks(w, 0) =~= sb);
    } else {
        lemma_spent_in_front(b, w, m - 1);
        assert(bw[m] == w[m - 1]);
        let x = spent_before(w[m - 1].transactions, w[m - 1].transactions.len() as int);
        assert((sb + spent_in_blocks(w, m - 1)) + x =~= sb + (spent_in_blocks(w, m - 1) + x));
    }
}

proof fn lemma_drop_spent_twice(x: Seq<EntryV>, s1: Seq<(Seq<u8>, i64)>, s2: Seq<(Seq<u8>, i64)>)
    ensures
        drop_spent(x, s1 + s2) == drop_spent(drop_spent(x, s2), s1),
    decreases x.len(),
{
    if x.len() > 0 {
        lemma_drop_spent_twice(x.drop_last(), s1, s2);
        let e = x.last();
        let p = outpoint(e.txid, e.index);
        lemma_contains_concat(s1, s2, p);
        let r = drop_spent(x.drop_last(), s2);
        if !s2.contains(p) {
            assert(r.push(e).drop_last() =~= r);
            assert(r.push(e).last() == e);
        }
    }
}

proof fn lemma_block_unspent_more(txs: Seq<TxV>, s1: Seq<(Seq<u8>, i64)>, s2: Seq<(Seq<u8>, i64)>, j: int)
    requires
        0 <= j <= txs.len(),
    ensures
        block_unspent(txs, s1 + s2, j) == drop_spent(block_unspent(txs, s2, j), s1),
    decreases j,
{
    if j > 0 {
        lemma_block_unspent_more(txs, s1, s2, j - 1);
        lemma_drop_spent_twice(tx_entries(txs[j - 1]), s1, s2);
        lemma_drop_spent_concat(block_unspent(txs, s2, j - 1), drop_spent(tx_entries(txs[j - 1]), s2), s1);
    } else {
        assert(drop_spent(Seq::<EntryV>::empty(), s1) == Seq::<EntryV>::empty());
    }
}

proof fn lemma_drop_spent_none(x: Seq<EntryV>, sp: Seq<(Seq<u8>, i64)>)
    requires
        forall|k: int| 0 <= k < x.len() ==> !sp.contains(outpoint(#[trigger] x[k].txid, x[k].index)),
    ensures
        drop_spent(x, sp) == x,
    decreases x.len(),
{
    if x.len() > 0 {
        lemma_drop_spent_none(x.drop_last(), sp);
        assert(x[x.len() - 1] == x.last());
        assert(x.drop_last().push(x.last()) =~= x);
    }
}

proof fn lemma_block_unspent_fresh(b: Seq<TxV>, j: int)
    requires
        no_inner_refs(b),
        0 <= j <= b.len(),
    ensures
        block_unspent(b, spent_before(b, b.len() as int), j) == entries_of(b, j),
    decreases j,
{
    if j > 0 {
        lemma_block_unspent_fresh(b, j - 1);
        let sb = spent_before(b, b.len() as int);
        let te = tx_entries(b[j - 1]);
        assert forall|k: int| 0 <= k < te.len() implies !sb.contains(outpoint(#[trigger] te[k].txid, te[k].index)) by {
            let p = outpoint(te[k].txid, te[k].index);
            if sb.contains(p) {
                lemma_spent_origin(b, b.len() as int, p);
                let (t, i) = choose|t: int, i: int|
                    0 <= t < b.len() && !is_coinbase_spec(b[t]) && 0 <= i < b[t].vin.len() && #[trigger] b[t].vin[i].txid
                        == p.0;
                assert(b[t].vin[i].txid != b[j - 1].id);
            }
        }
        lemma_drop_spent_none(te, sb);
    }
}

proof fn lemma_unspent_front(b: BlockV, w: Seq<BlockV>, m: int)
    requires
        no_inner_refs(b.transactions),
        0 <= m <= w.len(),
    ensures
        unspent_blocks(seq![b] + w, 1 + m) == entries_of(b.transactions, b.transactions.len() as int) + drop_spent(
            unspent_blocks(w, m),
            spent_before(b.transactions, b.transactions.len() as int),
        ),
    decreases m,
{
    let bw = seq![b] + w;
    let sb = spent_before(b.transactions, b.transactions.len() as int);
    let eb = entries_of(b.transactions, b.transactions.len() as int);
    assert(bw[0] == b);
    if m == 0 {
        lemma_spent_in_front(b, w, 0);
        assert(sb + Seq::<(Seq<u8>, i64)>::empty() =~= sb);
        lemma_block_unspent_fresh(b.transactions, b.transactions.len() as int);
        assert(unspent_blocks(bw, 0) == Seq::<EntryV>::empty());
        assert(Seq::<EntryV>::empty() + eb =~= eb);
        assert(drop_spent(Seq::<EntryV>::empty(), sb) == Seq::<EntryV>::empty());
        assert(eb + Seq::<EntryV>::empty() =~= eb);
    } else {
        lemma_unspent_front(b, w, m - 1);
        assert(bw[m] == w[m - 1]);
        lemma_spent_in_front(b, w, m);
        let txs = w[m - 1].transactions;
        let n = txs.len() as int;
        lemma_block_unspent_more(txs, sb, spent_in_blocks(w, m), n);
        let u = unspent_blocks(w, m - 1);
        let bu = block_unspent(txs, spent_in_blocks(w, m), n);
        lemma_drop_spent_concat(u, bu, sb);
        assert((eb + drop_spent(u, sb)) + drop_spent(bu, sb) =~= eb + (drop_spent(u, sb) + drop_spent(bu, sb)));
    }
}

/// Full rebuild and incremental update agree on balances: for the blocks
/// `w` of a chain (newest first, as the rebuild scans them) and a block `b`
/// put on top, whose inputs refer to no transaction of the block itself and
/// whose ids are distinct and not yet recorded, the index rebuilt over `b`
/// then `w` holds for every public-key hash the same total as the index
/// rebuilt over `w` and then updated with `b`.
pub proof fn lemma_reindex_matches_update(w: Seq<BlockV>, b: BlockV, h: Seq<u8>)
    requires
        no_inner_refs(b.transactions),
        fresh_ids(b.transactions, unspent_of(w)),
    ensures
        total_value(locked_outputs(unspent_of(seq![b] + w), h)) == total_value(
            locked_outputs(apply_txs(unspent_of(w), b.transactions, b.transactions.len() as int), h),
        ),
{
    let sb = spent_before(b.transactions, b.transactions.len() as int);
    let u = unspent_of(w);
    lemma_unspent_front(b, w, w.len() as int);
    assert((seq![b] + w).len() == 1 + w.len());
    lemma_apply_fresh(u, b.transactions, b.transactions.len() as int);
    let eb = entries_of(b.transactions, b.transactions.len() as int);
    let du = drop_spent(u, sb);
    lemma_locked_concat(eb, du, h);
    lemma_locked_concat(du, eb, h);
}

/// The index that `update` builds from an empty one, applying the blocks
/// of `w` (listed newest first) oldest first.
pub open spec fn replay(w: Seq<BlockV>) -> Seq<EntryV>
    decreases w.len(),
{
    if w.len() == 0 {
        Seq::empty()
    } else {
        apply_txs(replay(w.drop_first()), w[0].transactions, w[0].transactions.len() as int)
    }
}

/// Every block, when its turn comes in the replay, has inputs that refer to
/// no transaction of its own and ids that are distinct and not yet recorded.
pub open spec fn replay_ok(w: Seq<BlockV>) -> bool
    decreases w.len(),
{
    w.len() == 0 || (no_inner_refs(w[0].transactions) && fresh_ids(w[0].transactions, replay(w.drop_first()))
        && replay_ok(w.drop_first()))
}

proof fn lemma_replay_dropped(w: Seq<BlockV>, sp: Seq<(Seq<u8>, i64)>, h: Seq<u8>)
    requires
        replay_ok(w),
    ensures
        total_value(locked_outputs(drop_spent(replay(w), sp), h)) == total_value(
            locked_outputs(drop_spent(unspent_of(w), sp), h),
        ),
    decreases w.len(),
{
    if w.len() == 0 {
        assert(unspent_of(w) == Seq::<EntryV>::empty());
    } else {
        let b = w[0];
        let rest = w.drop_first();
        assert(w =~= seq![b] + rest);
        let sb = spent_before(b.transactions, b.transactions.len() as int);
        let eb = entries_of(b.transactions, b.transactions.len() as int);
        lemma_replay_dropped(rest, sp + sb, h);
        lemma_apply_fresh(replay(rest), b.transactions, b.transactions.len() as int);
        lemma_unspent_front(b, rest, rest.len() as int);
        assert(unspent_of(w) == unspent_blocks(seq![b] + rest, 1 + rest.len() as int));
        let r0 = replay(rest);
        let u0 = unspent_of(rest);
        lemma_drop_spent_concat(drop_spent(r0, sb), eb, sp);
        lemma_drop_spent_concat(eb, drop_spent(u0, sb), sp);
        lemma_drop_spent_twice(r0, sp, sb);
        lemma_drop_spent_twice(u0, sp, sb);
        let de = drop_spent(eb, sp);
        lemma_locked_concat(drop_spent(r0, sp + sb), de, h);
        lemma_locked_concat(de, drop_spent(u0, sp + sb), h);
    }
}

/// Replaying `update` from an empty index over the blocks of a chain, oldest
/// first, gives for every public-key hash the balance that a full rebuild
/// over the same blocks gives, when each block in its turn refers to no
/// transaction of its own and brings distinct, unrecorded ids.
pub proof fn lemma_replay_matches_reindex(w: Seq<BlockV>, h: Seq<u8>)
    requires
        replay_ok(w),
    ensures
        total_value(locked_outputs(replay(w), h)) == total_value(locked_outputs(unspent_of(w), h)),
{
    lemma_replay_dropped(w, Seq::empty(), h);
    lemma_drop_spent_nothing(replay(w));
    lemma_drop_spent_nothing(unspent_of(w));
}

/// Walking back from `x`, at most `fuel` steps, never looks up the hash `h`.
pub open spec fn walk_avoids(blocks: Seq<BlockV>, x: Seq<u8>, fuel: nat, h: Seq<u8>) -> bool
    decreases fuel,
{
    x != h && (fuel == 0 || !has_block(blocks, x) || walk_avoids(
        blocks,
        block_at(blocks, x).prev_block_hash,
        (fuel - 1) as nat,
        h,
    ))
}

proof fn lemma_walk_after_push(blocks: Seq<BlockV>, b: BlockV, x: Seq<u8>, fuel: nat)
    requires
        hashes_unique(blocks.push(b)),
        walk_avoids(blocks, x, fuel, b.hash),
    ensures
        walk(blocks.push(b), x, fuel) == walk(blocks, x, fuel),
    decreases fuel,
{
    let bs = blocks.push(b);
    if has_block(blocks, x) {
        let i = choose|i: int| 0 <= i < blocks.len() && #[trigger] blocks[i].hash == x;
        assert(bs[i] == blocks[i]);
        assert(has_block(bs, x));
        crate::blockchain::lemma_block_at_index(bs, i);
        assert(hashes_unique(blocks)) by {
            assert forall|p: int, q: int|
                0 <= p < blocks.len() && 0 <= q < blocks.len() && p != q implies #[trigger] blocks[p].hash
                != #[trigger] blocks[q].hash by {
                assert(bs[p] == blocks[p] && bs[q] == blocks[q]);
            }
        }
        crate::blockchain::lemma_block_at_index(blocks, i);
        if fuel > 0 {
            lemma_walk_after_push(blocks, b, block_at(blocks, x).prev_block_hash, (fuel - 1) as nat);
        }
    } else {
        assert(!has_block(bs, x)) by {
            if has_block(bs, x) {
                let i = choose|i: int| 0 <= i < bs.len() && #[trigger] bs[i].hash == x;
                if i < blocks.len() {
                    assert(bs[i] == blocks[i]);
                } else {
                    assert(bs[i] == b);
                }
            }
        }
    }
}

/// Appending a block and rebuilding the index gives, for every public-key
/// hash, the balance that updating the rebuilt index with the block gives:
/// for a block that `add_block` appends, whose inputs refer to no
/// transaction of the block itself, whose transaction ids are distinct and
/// not yet recorded, and whose hash the chain's walk never looks up.
pub proof fn lemma_append_then_reindex_matches_update(c: ChainV, b: BlockV, h: Seq<u8>)
    requires
        chain_wf(c),
        add_outcome(c, b) is Ok,
        !has_block(c.blocks, b.hash),
        walk_avoids(c.blocks, c.tip, c.blocks.len(), b.hash),
        no_inner_refs(b.transactions),
        fresh_ids(b.transactions, unspent_of((chain_blocks(c)))),
    ensures
        total_value(locked_outputs(unspent_of((chain_blocks(add_result(c, b)))), h)) == total_value(
            locked_outputs(
                apply_txs(unspent_of((chain_blocks(c))), b.transactions, b.transactions.len() as int),
                h,
            ),
        ),
{
    crate::blockchain::lemma_accepted_block_extends_tip(c, b);
    let c2 = add_result(c, b);
    let bs = c.blocks.push(b);
    assert(c2.blocks == bs);
    let n = c.blocks.len();
    assert(bs[n as int].hash == b.hash);
    crate::blockchain::lemma_block_at_index(bs, n as int);
    assert(bs.len() == n + 1);
    assert(chain_blocks(c2) == seq![b] + walk(bs, c.tip, n));
    lemma_walk_after_push(c.blocks, b, c.tip, n);
    lemma_reindex_matches_update(chain_blocks(c), b, h);
}

impl BlockChain {
    /// Every unspent output of the chain. Blocks are scanned newest first:
    /// the inputs of a block are recorded as spent before its outputs are
    /// looked at, and an output is kept unless a recorded input refers to it.
    pub fn find_utxo(&self) -> (r: Vec<UtxoEntry>)
        requires
            hashes_unique(self@.blocks),
        ensures
            entries_view(r@) == unspent_of(chain_blocks(self@)),
    {
        let w = self.iter();
        let ghost wv = w@.map_values(|b: Block| b@);
        let mut spent: Vec<(Vec<u8>, i64)> = Vec::new();
        let mut out: Vec<UtxoEntry> = Vec::new();
        let mut b: usize = 0;
        while b < w.len()
            invariant
                wv == w@.map_values(|b: Block| b@),
                wv == chain_blocks(self@),
                0 <= b <= w@.len(),
                outpoints_view(spent@) == spent_in_blocks(wv, b as int),
                entries_view(out@) == unspent_blocks(wv, b as int),
            decreases w@.len() - b,
        {
            let txs = &w[b].transactions;
            let ghost tv = txs_view(txs@);
            assert(wv[b as int].transactions == tv);
            let ghost s0 = outpoints_view(spent@);
            let mut t: usize = 0;
            while t < txs.len()
                invariant
                    tv == txs_view(txs@),
                    0 <= t <= txs@.len(),
                    outpoints_view(spent@) == s0 + spent_before(tv, t as int),
                decreases txs@.len() - t,
            {
                let tx = &txs[t];
                assert(tv[t as int] == tx@);
                if !tx.is_coinbase() {
                    let ghost sv = outpoints_view(spent@);
                    let mut i: usize = 0;
                    while i < tx.vin.len()
                        invariant
                            0 <= i <= tx.vin@.len(),
                            outpoints_view(spent@) == sv + tx@.vin.map_values(|x: InputV| outpoint(x.txid, x.vout)).take(i as int),
                        decreases tx.vin@.len() - i,
                    {
                        let ghost before = spent@;
                        let p = (copy_bytes(tx.vin[i].txid.as_slice()), tx.vin[i].vout);
                        spent.push(p);
                        i = i + 1;
                        proof {
                            let m = tx@.vin.map_values(|x: InputV| outpoint(x.txid, x.vout));
                            assert(outpoints_view(spent@) =~= outpoints_view(before).push(outpoint(p.0@, p.1)));
                            assert(m.take(i as int) =~= m.take(i as int - 1).push(m[i as int - 1]));
                        }
                    }
                    proof {
                        let m = tx@.vin.map_values(|x: InputV| outpoint(x.txid, x.vout));
                        assert(m.take(i as int) =~= m);
                        assert((s0 + spent_before(tv, t as int)) + m =~= s0 + (spent_before(tv, t as int) + m));
                    }
                }
                t = t + 1;
            }
            let ghost sp = outpoints_view(spent@);
            assert(sp == spent_in_blocks(wv, b as int + 1));
            let ghost head = entries_view(out@);
            let mut t: usize = 0;
            while t < txs.len()
                invariant
                    tv == txs_view(txs@),
                    0 <= t <= txs@.len(),
                    sp == outpoints_view(spent@),
                    entries_view(out@) == head + block_unspent(tv, sp, t as int),
                decreases txs@.len() - t,
            {
                let tx = &txs[t];
                assert(tv[t as int] == tx@);
                let ghost te = tx_entries(tx@);
                let ghost mid = entries_view(out@);
                let mut k: usize = 0;
                while k < tx.vout.len()
                    invariant
                        te == tx_entries(tx@),
                        0 <= k <= tx.vout@.len(),
                        sp == outpoints_view(spent@),
                        entries_view(out@) == mid + drop_spent(te.take(k as int), sp),
                    decreases tx.vout@.len() - k,
                {
                    proof {
                        let s = te.take(k as int + 1);
                        assert(s.drop_last() =~= te.take(k as int));
                        assert(s.last() == te[k as int]);
                    }
                    if !contains_outpoint(&spent, tx.id.as_slice(), k as i64) {
                        let ghost before = out@;
                        let entry = UtxoEntry {
                            txid: copy_bytes(tx.id.as_slice()),
                            index: k as i64,
                            output: tx.vout[k].clone(),
                        };
                        out.push(entry);
                        proof {
                            assert(entry@ == te[k as int]);
                            assert(entries_view(out@) =~= entries_view(before).push(entry@));
                        }
                    }
                    k = k + 1;
                }
                proof {
                    assert(te.take(k as int) =~= te);
                    assert((head + block_unspent(tv, sp, t as int)) + drop_spent(te, sp) =~= head + (block_unspent(tv, sp, t as int) + drop_spent(te, sp)));
                }
                t = t + 1;
            }
            b = b + 1;
        }
        out
    }
}

impl UTXOSet {
    /// An empty index.
    pub fn new() -> (r: UTXOSet)
        ensures
            r@ == Seq::<EntryV>::empty(),
    {
        let r = UTXOSet { entries: Vec::new() };
        proof {
            assert(r@ =~= Seq::<EntryV>::empty());
        }
        r
    }

    /// Drops every entry and records the chain's unspent outputs afresh.
    pub fn reindex(&mut self, chain: &BlockChain)
        requires
            hashes_unique(chain@.blocks),
        ensures
            final(self)@ == unspent_of((chain_blocks(chain@))),
    {
        self.entries = chain.find_utxo();
    }

    /// Brings the index up to date with a block just appended: for each of
    /// its transactions in order, the outputs its inputs spend are removed
    /// (not for a coinbase), then its own outputs are recorded under its id,
    /// replacing any earlier record under that id.
    pub fn update(&mut self, block: &Block)
        ensures
            final(self)@ == apply_txs(old(self)@, block@.transactions, block@.transactions.len() as int),
    {
        let ghost start = self@;
        let ghost txs = block@.transactions;
        let mut t: usize = 0;
        while t < block.transactions.len()
            invariant
                txs == block@.transactions,
                0 <= t <= block.transactions@.len(),
                self@ == apply_txs(start, txs, t as int),
            decreases block.transactions@.len() - t,
        {
            let tx = &block.transactions[t];
            assert(txs[t as int] == tx@);
            let ghost before = self@;
            if !tx.is_coinbase() {
                let mut i: usize = 0;
                while i < tx.vin.len()
                    invariant
                        0 <= i <= tx.vin@.len(),
                        self@ == spend_inputs(before, tx@, i as int),
                    decreases tx.vin@.len() - i,
                {
                    self.entries = remove_entries(&self.entries, tx.vin[i].txid.as_slice(), Some(tx.vin[i].vout));
                    i = i + 1;
                }
            }
            self.entries = remove_entries(&self.entries, tx.id.as_slice(), None);
            let ghost mid = self@;
            let mut k: usize = 0;
            while k < tx.vout.len()
                invariant
                    0 <= k <= tx.vout@.len(),
                    self@ == mid + tx_entries(tx@).take(k as int),
                decreases tx.vout@.len() - k,
            {
                let ghost prev = self.entries@;
                let entry = UtxoEntry { txid: copy_bytes(tx.id.as_slice()), index: k as i64, output: tx.vout[k].clone() };
                self.entries.push(entry);
                k = k + 1;
                proof {
                    assert(self@ =~= entries_view(prev).push(entry@));
                    assert(tx_entries(tx@).take(k as int) =~= tx_entries(tx@).take(k as int - 1).push(entry@));
                }
            }
            proof {
                assert(tx_entries(tx@).take(k as int) =~= tx_entries(tx@));
            }
            t = t + 1;
        }
    }

    /// The outputs locked to `pubkey_hash`, in index order.
    pub fn find_utxo(&self, pubkey_hash: &[u8]) -> (r: Vec<TXOutput>)
        ensures
            r@.map_values(|o: TXOutput| o@) == locked_outputs(self@, pubkey_hash@),
    {
        let ghost ev = self@;
        let mut out: Vec<TXOutput> = Vec::new();
        let mut i: usize = 0;
        while i < self.entries.len()
            invariant
                ev == self@,
                ev == entries_view(self.entries@),
                0 <= i <= self.entries@.len(),
                out@.map_values(|o: TXOutput| o@) == locked_outputs(ev.take(i as int), pubkey_hash@),
            decreases self.entries@.len() - i,
        {
            let x = &self.entries[i];
            proof {
                let s = ev.take(i as int + 1);
                assert(s.drop_last() =~= ev.take(i as int));
                assert(s.last() == x@);
            }
            if x.output.is_locked_with_key(pubkey_hash) {
                let ghost before = out@;
                let o = x.output.clone();
                out.push(o);
                proof {
                    assert(out@.map_values(|o: TXOutput| o@) =~= before.map_values(|o: TXOutput| o@).push(x@.output));
                }
            }
            i = i + 1;
        }
        proof {
            assert(ev.take(ev.len() as int) =~= ev);
        }
        out
    }

    /// Outputs locked to `pubkey_hash` and not listed in `spend_outs`, taken
    /// in index order while the running total is below `amount`; returns the
    /// total and the references taken.
    pub fn find_spend_able_outputs(&self, pubkey_hash: &[u8], amount: i64, spend_outs: &Vec<(Vec<u8>, i64)>) -> (r: (i128, Vec<(Vec<u8>, i64)>))
        ensures
            r.0 as int == spend_scan(self@, pubkey_hash@, amount, outpoints_view(spend_outs@)).0,
            outpoints_view(r.1@) == spend_scan(self@, pubkey_hash@, amount, outpoints_view(spend_outs@)).1,
            r.0 < amount as int + 0x8000_0000_0000_0000 || r.0 <= 0,
    {
        let ghost ev = self@;
        let ghost ex = outpoints_view(spend_outs@);
        let mut acc: i128 = 0;
        let mut taken: Vec<(Vec<u8>, i64)> = Vec::new();
        let mut i: usize = 0;
        while i < self.entries.len()
            invariant
                ev == self@,
                ev == entries_view(self.entries@),
                ex == outpoints_view(spend_outs@),
                0 <= i <= self.entries@.len(),
                acc as int == spend_scan(ev.take(i as int), pubkey_hash@, amount, ex).0,
                outpoints_view(taken@) == spend_scan(ev.take(i as int), pubkey_hash@, amount, ex).1,
                acc < amount as int + 0x8000_0000_0000_0000 || acc <= 0,
                acc >= -(i as int) * 0x8000_0000_0000_0000,
            decreases self.entries@.len() - i,
        {
            let x = &self.entries[i];
            proof {
                let s = ev.take(i as int + 1);
                assert(s.drop_last() =~= ev.take(i as int));
                assert(s.last() == x@);
            }
            if !contains_outpoint(spend_outs, x.txid.as_slice(), x.index)
                && x.output.is_locked_with_key(pubkey_hash) && acc < amount as i128 {
                let ghost before = taken@;
                acc = acc + x.output.value as i128;
                let p = (copy_bytes(x.txid.as_slice()), x.index);
                taken.push(p);
                proof {
                    assert(outpoints_view(taken@) =~= outpoints_view(before).push(outpoint(x@.txid, x@.index)));
                }
            }
            i = i + 1;
        }
        proof {
            assert(ev.take(ev.len() as int) =~= ev);
        }
        (acc, taken)
    }

    /// The unspent outputs recorded under `txid`, keyed by position; `None`
    /// when there is none.
    pub fn utxo(&self, txid_in: &[u8]) -> (r: Option<TXOutputs>)
        ensures
            r is None == !has_txid(self@, txid_in@),
            r is Some ==> forall|k: i64|
                #[trigger] r.unwrap().outputs@.contains_key(k) == entry_exists(self@, txid_in@, k),
            r is Some ==> forall|k: i64|
                #[trigger] r.unwrap().outputs@.contains_key(k) ==> exists|j: int|
                    0 <= j < self@.len() && self@[j].txid == txid_in@ && self@[j].index == k
                        && #[trigger] self@[j].output == r.unwrap().outputs@[k]@,
    {
        broadcast use vstd::std_specs::hash::group_hash_axioms;

        let ghost ev = self@;
        let mut out: HashMap<i64, TXOutput> = HashMap::new();
        let mut found = false;
        let mut i: usize = 0;
        while i < self.entries.len()
            invariant
                ev == self@,
                ev == entries_view(self.entries@),
                0 <= i <= self.entries@.len(),
                found == exists|j: int| 0 <= j < i && #[trigger] ev[j].txid == txid_in@,
                forall|k: i64|
                    #[trigger] out@.contains_key(k) == exists|j: int|
                        0 <= j < i && #[trigger] ev[j].txid == txid_in@ && ev[j].index == k,
                forall|k: i64|
                    #[trigger] out@.contains_key(k) ==> exists|j: int|
                        0 <= j < i && ev[j].txid == txid_in@ && ev[j].index == k && #[trigger] ev[j].output
                            == out@[k]@,
            decreases self.entries@.len() - i,
        {
            let x = &self.entries[i];
            assert(ev[i as int] == x@);
            if compare_slice_u8(x.txid.as_slice(), txid_in) {
                let o = x.output.clone();
                out.insert(x.index, o);
                found = true;
                proof {
                    assert(ev[i as int].txid == txid_in@);
                    assert forall|k: i64| #[trigger] out@.contains_key(k) implies exists|j: int|
                        0 <= j < i + 1 && ev[j].txid == txid_in@ && ev[j].index == k && #[trigger] ev[j].output
                            == out@[k]@ by {
                        if k == x.index {
                            assert(ev[i as int].output == out@[k]@);
                        }
                    }
                }
            }
            i = i + 1;
        }
        proof {
            assert forall|k: i64| #[trigger] out@.contains_key(k) == entry_exists(ev, txid_in@, k) by {
                if entry_exists(ev, txid_in@, k) {
                    let j = choose|j: int| 0 <= j < ev.len() && #[trigger] ev[j].txid == txid_in@ && ev[j].index == k;
                    assert(ev[j].txid == txid_in@);
                }
            }
        }
        if !found {
            None
        } else {
            Some(TXOutputs { outputs: out })
        }
    }

    /// Whether output `index` of transaction `txid` is recorded as unspent.
    pub fn has_output(&self, txid: &[u8], index: i64) -> (r: bool)
        ensures
            r == entry_exists(self@, txid@, index),
    {
        let ghost ev = self@;
        let mut i: usize = 0;
        while i < self.entries.len()
            invariant
                ev == self@,
                ev == entries_view(self.entries@),
                0 <= i <= self.entries@.len(),
                forall|j: int| 0 <= j < i ==> !(#[trigger] ev[j].txid == txid@ && ev[j].index == index),
            decreases self.entries@.len() - i,
        {
            if self.entries[i].index == index && compare_slice_u8(self.entries[i].txid.as_slice(), txid) {
                proof {
                    assert(ev[i as int].txid == txid@ && ev[i as int].index == index);
                }
                return true;
            }
            i = i + 1;
        }
        false
    }

    /// The number of distinct transaction ids with a recorded entry.
    pub fn count_transactions(&self) -> (r: usize)
        ensures
            r as nat == distinct_txids(self@, self@.len() as int),
    {
        let ghost ev = self@;
        let mut count: usize = 0;
        let mut i: usize = 0;
        while i < self.entries.len()
            invariant
                ev == self@,
                ev == entries_view(self.entries@),
                0 <= i <= self.entries@.len(),
                count as nat == distinct_txids(ev, i as int),
                count <= i,
            decreases self.entries@.len() - i,
        {
            let mut seen = false;
            let mut j: usize = 0;
            while j < i
                invariant
                    ev == entries_view(self.entries@),
                    0 <= j <= i < self.entries@.len(),
                    seen == exists|m: int| 0 <= m < j && #[trigger] ev[m].txid == ev[i as int].txid,
                decreases i - j,
            {
                if compare_slice_u8(self.entries[j].txid.as_slice(), self.entries[i].txid.as_slice()) {
                    proof {
                        assert(ev[j as int].txid == ev[i as int].txid);
                    }
                    seen = true;
                }
                j = j + 1;
            }
            if !seen {
                count = count + 1;
            }
            i = i + 1;
        }
        count
    }
}

/// A transfer before its id is set: one input per reference taken, each
/// carrying the sender's public key; a payment to `to` and, where the taken
/// total exceeds the amount, the change back to the sender's hash.
pub open spec fn transfer_body(pub_key: Seq<u8>, to: Seq<u8>, amount: i64, acc: int, taken: Seq<(Seq<u8>, i64)>) -> TxV {
    TxV {
        id: Seq::empty(),
        vin: Seq::new(
            taken.len(),
            |i: int| InputV { txid: taken[i].0, vout: taken[i].1, signature: Seq::empty(), pub_key: pub_key },
        ),
        vout: if acc > amount {
            seq![
                OutputV { value: amount, pub_key_hash: to },
                OutputV { value: (acc - amount) as i64, pub_key_hash: pub_key_hash_of(pub_key) },
            ]
        } else {
            seq![OutputV { value: amount, pub_key_hash: to }]
        },
    }
}

/// The unsigned transfer with its id set to its content hash.
pub open spec fn transfer_unsigned(pub_key: Seq<u8>, to: Seq<u8>, amount: i64, acc: int, taken: Seq<(Seq<u8>, i64)>) -> TxV {
    let b = transfer_body(pub_key, to, amount, acc, taken);
    with_id(b, tx_hash(b))
}

/// Constructed transactions carry their content hash as id, and hashing
/// again gives the same id: a coinbase, and a transfer before it is signed.
pub proof fn lemma_constructed_ids_are_content_hashes(
    to: Seq<u8>,
    payload: Seq<u8>,
    pub_key: Seq<u8>,
    dest: Seq<u8>,
    amount: i64,
    acc: int,
    taken: Seq<(Seq<u8>, i64)>,
)
    ensures
        crate::transaction::coinbase_spec(to, payload).id == tx_hash(crate::transaction::coinbase_spec(to, payload)),
        transfer_unsigned(pub_key, dest, amount, acc, taken).id == tx_hash(
            transfer_unsigned(pub_key, dest, amount, acc, taken),
        ),
{
    let c = crate::transaction::coinbase_body(to, payload);
    crate::transaction::lemma_id_is_stable(c, tx_hash(c));
    let b = transfer_body(pub_key, dest, amount, acc, taken);
    crate::transaction::lemma_id_is_stable(b, tx_hash(b));
}

impl Transaction {
    /// A transfer of `amount` from `wallet` to the public-key hash `to`,
    /// spending the outputs that `find_spend_able_outputs` picks (skipping
    /// `spend_utxos`), with change back to the sender, then signed against
    /// the chain. Fails when the outputs found fall short of the amount, when
    /// a referenced transaction is missing or when signing fails. The amount
    /// may not be `i64::MIN`, whose change (the total taken minus the
    /// amount) would not fit in an `i64`.
    pub fn new_utxo_transaction(
        wallet: &Wallet,
        to: Vec<u8>,
        amount: i64,
        utxoset: &UTXOSet,
        chain: &BlockChain,
        spend_utxos: &Vec<(Vec<u8>, i64)>,
    ) -> (r: Result<Transaction, ChainError>)
        requires
            hashes_unique(chain@.blocks),
            amount > i64::MIN,
        ensures
            ({
                let pk = wallet.public_key@;
                let scan = spend_scan(utxoset@, pub_key_hash_of(pk), amount, outpoints_view(spend_utxos@));
                let u = transfer_unsigned(pk, to@, amount, scan.0, scan.1);
                &&& (r == Err::<Transaction, ChainError>(ChainError::InsufficientFunds)) == (scan.0 < amount)
                &&& scan.0 >= amount ==> {
                    &&& (r == Err::<Transaction, ChainError>(ChainError::TxNotFound)) == !inputs_found(chain@, u)
                    &&& inputs_found(chain@, u) ==> {
                        let p = prev_txs_of(chain@, u);
                        &&& r is Ok == sign_outcome(u, wallet.secret_key@, p) is Ok
                        &&& (r is Err ==> r == Err::<Transaction, ChainError>(
                            ChainError::Signing(sign_outcome(u, wallet.secret_key@, p)->Err_0),
                        ))
                        &&& r is Ok ==> r.unwrap()@ == sign_result(u, wallet.secret_key@, p)
                    }
                }
            }),
            r is Ok && wallet.public_key@ == crate::util::public_key_of(wallet.secret_key@)
                ==> crate::blockchain::chain_verifies(chain@, r.unwrap()@),
    {
        let pub_key_hash = Wallet::hash_pubkey(wallet.public_key.as_slice());
        let (acc, valid_outputs) = utxoset.find_spend_able_outputs(pub_key_hash.as_slice(), amount, spend_utxos);
        if acc < amount as i128 {
            return Err(ChainError::InsufficientFunds);
        }
        let ghost pk = wallet.public_key@;
        let ghost taken = outpoints_view(valid_outputs@);
        let ghost body = transfer_body(pk, to@, amount, acc as int, taken);
        let mut inputs: Vec<TXInput> = Vec::new();
        let mut i: usize = 0;
        while i < valid_outputs.len()
            invariant
                taken == outpoints_view(valid_outputs@),
                body == transfer_body(pk, to@, amount, acc as int, taken),
                pk == wallet.public_key@,
                0 <= i <= valid_outputs@.len(),
                inputs@.len() == i,
                forall|j: int| 0 <= j < i ==> #[trigger] inputs@[j]@ == body.vin[j],
            decreases valid_outputs@.len() - i,
        {
            let input = TXInput::new(
                copy_bytes(valid_outputs[i].0.as_slice()),
                valid_outputs[i].1,
                Vec::new(),
                copy_bytes(wallet.public_key.as_slice()),
            );
            proof {
                assert(input@.signature =~= Seq::<u8>::empty());
            }
            inputs.push(input);
            i = i + 1;
        }
        let mut outputs: Vec<TXOutput> = vec![TXOutput::new(amount, to)];
        if acc > amount as i128 {
            let change = (acc - amount as i128) as i64;
            outputs.push(TXOutput::new(change, pub_key_hash));
        }
        let mut tx = Transaction { id: Vec::new(), vin: inputs, vout: outputs };
        proof {
            assert(tx@.vin =~= body.vin);
            assert(tx@.vout =~= body.vout);
            assert(tx@ == body);
        }
        let txid = tx.hash();
        tx.id = txid;
        proof {
            assert(tx@ == with_id(body, tx_hash(body)));
        }
        match chain.sign_transaction(&mut tx, wallet.secret_key.as_slice()) {
            Ok(()) => Ok(tx),
            Err(e) => Err(e),
        }
    }
}

/// The balance held by `pub_key_hash`: the sum of the values of the
/// outputs locked to it.
pub fn get_balance(utxoset: &UTXOSet, pub_key_hash: &[u8]) -> (r: i128)
    ensures
        r as int == total_value(locked_outputs(utxoset@, pub_key_hash@)),
{
    let outs = utxoset.find_utxo(pub_key_hash);
    let ghost ov = outs@.map_values(|o: TXOutput| o@);
    let mut acc: i128 = 0;
    let mut i: usize = 0;
    while i < outs.len()
        invariant
            ov == outs@.map_values(|o: TXOutput| o@),
            ov == locked_outputs(utxoset@, pub_key_hash@),
            0 <= i <= outs@.len(),
            acc as int == total_value(ov.take(i as int)),
            -(i as int) * 0x8000_0000_0000_0000 <= acc <= (i as int) * 0x8000_0000_0000_0000,
        decreases outs@.len() - i,
    {
        proof {
            let s = ov.take(i as int + 1);
            assert(s.drop_last() =~= ov.take(i as int));
            assert(s.last() == outs@[i as int]@);
        }
        acc = acc + outs[i].value as i128;
        i = i + 1;
    }
    proof {
        assert(ov.take(ov.len() as int) =~= ov);
    }
    acc
}

/// The balance of each public-key hash in `pub_key_hashes`, in order.
pub fn get_balances(utxoset: &UTXOSet, pub_key_hashes: &Vec<Vec<u8>>) -> (r: Vec<i128>)
    ensures
        r@.len() == pub_key_hashes@.len(),
        forall|i: int|
            0 <= i < r@.len() ==> #[trigger] r@[i] as int == total_value(
                locked_outputs(utxoset@, pub_key_hashes@[i]@),
            ),
{
    let mut out: Vec<i128> = Vec::new();
    let mut i: usize = 0;
    while i < pub_key_hashes.len()
        invariant
            0 <= i <= pub_key_hashes@.len(),
            out@.len() == i,
            forall|j: int|
                0 <= j < i ==> #[trigger] out@[j] as int == total_value(
                    locked_outputs(utxoset@, pub_key_hashes@[j]@),
                ),
        decreases pub_key_hashes@.len() - i,
    {
        out.push(get_balance(utxoset, pub_key_hashes[i].as_slice()));
        i = i + 1;
    }
    out
}

} // verus!
